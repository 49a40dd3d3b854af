use proc_lineage::ancestry::{AncestryState, Decision, ResolvedEvent};
use proc_lineage::event::RawEvent;
use proc_lineage::status::ProcessStatus;

fn ev(pid: u32, parent_pid: u32, name: &str) -> ResolvedEvent {
    ResolvedEvent { pid, uid: 1000, parent_pid, process_name: name.to_string() }
}

fn status(name: &str, parent_pid: u32, uid: u32) -> ProcessStatus {
    ProcessStatus { name: name.to_string(), parent_pid, uid }
}

#[test]
fn sudo_bash_vim_chain() {
    let mut st = AncestryState::new();
    assert_eq!(st.classify(&ev(100, 1, "sudo")), Decision::NewRoot);
    assert_eq!(st.classify(&ev(150, 100, "bash")), Decision::DirectDescendant);
    assert_eq!(st.classify(&ev(200, 150, "vim")), Decision::DeeperDescendant);
    assert_eq!(st.privileged_roots(), &[100]);
    assert_eq!(st.direct_descendants(), &[150]);
    assert_eq!(st.descendants_of(150), vec![200]);
}

#[test]
fn unresolved_event_changes_nothing() {
    let mut st = AncestryState::new();
    st.classify(&ev(100, 1, "sudo"));
    let r = st.handle(RawEvent { pid: 150, uid: 0 }, None);
    assert!(r.is_none());
    assert_eq!(st.privileged_roots(), &[100]);
    assert!(st.direct_descendants().is_empty());
    assert!(st.descendants_of(100).is_empty());
}

#[test]
fn unknown_parent_is_unclassified() {
    let mut st = AncestryState::new();
    st.classify(&ev(100, 1, "sudo"));
    assert_eq!(st.classify(&ev(300, 42, "ls")), Decision::Unclassified);
    assert_eq!(st.privileged_roots(), &[100]);
    assert!(st.direct_descendants().is_empty());
    let r = st.handle(RawEvent { pid: 301, uid: 5 }, Some(status("ls", 42, 5)));
    assert!(r.is_none());
    assert!(st.direct_descendants().is_empty());
}

#[test]
fn handle_reports_classified_event() {
    let mut st = AncestryState::new();
    let r = st.handle(RawEvent { pid: 100, uid: 0 }, Some(status("sudo", 7, 1000))).unwrap();
    assert_eq!(r.decision, Decision::NewRoot);
    assert_eq!(r.event.pid, 100);
    assert_eq!(r.event.uid, 0);
    assert_eq!(r.event.parent_pid, 7);
    assert_eq!(r.event.process_name, "sudo");
    let r = st.handle(RawEvent { pid: 101, uid: 0 }, Some(status("id", 100, 0))).unwrap();
    assert_eq!(r.decision, Decision::DirectDescendant);
    assert_eq!(st.direct_descendants(), &[101]);
}

#[test]
fn every_child_of_root_is_direct() {
    let mut st = AncestryState::new();
    st.classify(&ev(10, 1, "sudo"));
    st.classify(&ev(11, 3, "cat"));
    assert_eq!(st.classify(&ev(12, 10, "sh")), Decision::DirectDescendant);
    assert_eq!(st.classify(&ev(13, 10, "ls")), Decision::DirectDescendant);
    assert_eq!(st.direct_descendants(), &[12, 13]);
}

#[test]
fn grandchildren_append_in_order() {
    let mut st = AncestryState::new();
    st.classify(&ev(10, 1, "sudo"));
    st.classify(&ev(20, 10, "bash"));
    assert_eq!(st.classify(&ev(30, 20, "ls")), Decision::DeeperDescendant);
    assert_eq!(st.classify(&ev(31, 20, "ps")), Decision::DeeperDescendant);
    assert_eq!(st.descendants_of(20), vec![30, 31]);
    assert!(st.descendants_of(10).is_empty());
}

#[test]
fn great_grandchild_is_unclassified() {
    let mut st = AncestryState::new();
    st.classify(&ev(10, 1, "sudo"));
    st.classify(&ev(20, 10, "bash"));
    st.classify(&ev(30, 20, "sh"));
    assert_eq!(st.classify(&ev(40, 30, "ls")), Decision::Unclassified);
}

#[test]
fn root_check_has_priority() {
    let mut st = AncestryState::new();
    st.classify(&ev(10, 1, "sudo"));
    assert_eq!(st.classify(&ev(11, 10, "sudo")), Decision::NewRoot);
    assert_eq!(st.privileged_roots(), &[10, 11]);
    assert!(st.direct_descendants().is_empty());
}

#[test]
fn root_enters_once() {
    let mut st = AncestryState::new();
    st.classify(&ev(10, 1, "sudo"));
    st.classify(&ev(10, 1, "sudo"));
    assert_eq!(st.privileged_roots(), &[10]);
}

#[test]
fn name_must_match_exactly() {
    let mut st = AncestryState::new();
    assert_eq!(st.classify(&ev(10, 1, "sudoedit")), Decision::Unclassified);
    assert_eq!(st.classify(&ev(11, 1, "Sudo")), Decision::Unclassified);
    assert_eq!(st.classify(&ev(12, 1, "")), Decision::Unclassified);
    assert!(st.privileged_roots().is_empty());
}

#[test]
fn distinct_pids_keep_sets_disjoint() {
    let mut st = AncestryState::new();
    let evs = [ev(1, 0, "sudo"), ev(2, 1, "sh"), ev(3, 2, "ls"), ev(4, 1, "sudo"), ev(5, 4, "x")];
    for e in evs.iter() {
        st.classify(e);
    }
    let roots = st.privileged_roots().to_vec();
    let direct = st.direct_descendants().to_vec();
    let mut deeper = Vec::new();
    for d in direct.iter() {
        deeper.extend(st.descendants_of(*d));
    }
    for p in 1..=5u32 {
        let n = roots.contains(&p) as u32 + direct.contains(&p) as u32 + deeper.contains(&p) as u32;
        assert_eq!(n, 1, "pid {}", p);
    }
}

#[test]
fn independent_events_in_either_order() {
    let base = [ev(1, 0, "sudo"), ev(2, 1, "sh")];
    let a = ev(3, 2, "ls");
    let b = ev(4, 2, "ps");
    let c = ev(5, 1, "id");
    let mut s1 = AncestryState::new();
    let mut s2 = AncestryState::new();
    for e in base.iter() {
        s1.classify(e);
        s2.classify(e);
    }
    for e in [&a, &b, &c] {
        s1.classify(e);
    }
    for e in [&c, &b, &a] {
        s2.classify(e);
    }
    let mut r1 = s1.privileged_roots().to_vec();
    let mut r2 = s2.privileged_roots().to_vec();
    r1.sort();
    r2.sort();
    assert_eq!(r1, r2);
    let mut d1 = s1.direct_descendants().to_vec();
    let mut d2 = s2.direct_descendants().to_vec();
    d1.sort();
    d2.sort();
    assert_eq!(d1, d2);
    let mut k1 = s1.descendants_of(2);
    let mut k2 = s2.descendants_of(2);
    k1.sort();
    k2.sort();
    assert_eq!(k1, vec![3, 4]);
    assert_eq!(k1, k2);
}
