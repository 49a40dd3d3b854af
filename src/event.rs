//! The fixed-width record that the kernel probe emits for every exec.
use vstd::prelude::*;

verus! {

/// Size in bytes of one exec record on the wire.
pub const RECORD_LEN: usize = 8;

/// One process-exec as seen by the kernel probe.
#[derive(Clone, Copy, Debug, PartialEq, Eq, Structural)]
pub struct RawEvent {
    pub pid: u32,
    pub uid: u32,
}

/// The little-endian value of four bytes.
pub open spec fn le_u32(b0: u8, b1: u8, b2: u8, b3: u8) -> nat {
    b0 as nat + 256 * (b1 as nat) + 65536 * (b2 as nat) + 16777216 * (b3 as nat)
}

/// What a record of bytes decodes to: `pid` then `uid`, both little-endian,
/// or nothing when fewer than eight bytes are present.
pub open spec fn decoded(b: Seq<u8>) -> Option<RawEvent> {
    if b.len() < RECORD_LEN {
        None
    } else {
        Some(
            RawEvent {
                pid: le_u32(b[0], b[1], b[2], b[3]) as u32,
                uid: le_u32(b[4], b[5], b[6], b[7]) as u32,
            },
        )
    }
}

fn read_le_u32(b: &[u8], at: usize) -> (r: u32)
    requires
        at + 4 <= b@.len(),
    ensures
        r as nat == le_u32(b@[at as int], b@[at + 1], b@[at + 2], b@[at + 3]),
{
    let b0 = b[at] as u32;
    let b1 = b[at + 1] as u32;
    let b2 = b[at + 2] as u32;
    let b3 = b[at + 3] as u32;
    b0 + 256 * b1 + 65536 * b2 + 16777216 * b3
}

impl RawEvent {
    /// Decodes one record; a record shorter than eight bytes is malformed and
    /// yields `None`. Bytes past the eighth are padding and are ignored.
    pub fn decode(b: &[u8]) -> (r: Option<RawEvent>)
        ensures
            r == decoded(b@),
    {
        if b.len() < RECORD_LEN {
            None
        } else {
            Some(RawEvent { pid: read_le_u32(b, 0), uid: read_le_u32(b, 4) })
        }
    }

    /// The eight bytes that encode this record.
    pub fn encode(&self) -> (r: Vec<u8>)
        ensures
            r@.len() == RECORD_LEN,
            decoded(r@) == Some(*self),
    {
        let p = self.pid;
        let u = self.uid;
        let r = vec![
            (p % 256) as u8,
            (p / 256 % 256) as u8,
            (p / 65536 % 256) as u8,
            (p / 16777216) as u8,
            (u % 256) as u8,
            (u / 256 % 256) as u8,
            (u / 65536 % 256) as u8,
            (u / 16777216) as u8,
        ];
        r
    }
}

} // verus!
