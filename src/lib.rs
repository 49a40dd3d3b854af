//! Process-lineage auditing: decoding of exec records emitted by a kernel
//! probe, parsing of process status text, and the ancestry classifier that
//! tracks processes descended from the privilege-elevation tool.
pub mod event;
pub mod status;
pub mod ancestry;
pub mod laws;
