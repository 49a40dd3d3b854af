//! The ancestry classifier: which processes ran the privilege-elevation tool,
//! which are their children, and which are their grandchildren.
use std::collections::HashMap;
use vstd::prelude::*;

use crate::event::RawEvent;
use crate::status::{span_is, ProcessStatus};

verus! {

/// Name of the program whose invocations mark a privileged root.
pub const ELEVATION_TOOL: &'static str = "sudo";

pub open spec fn elevation_tool() -> Seq<char> {
    seq!['s', 'u', 'd', 'o']
}

/// How one exec event was classified.
#[derive(Clone, Copy, Debug, PartialEq, Eq, Structural)]
pub enum Decision {
    NewRoot,
    DirectDescendant,
    DeeperDescendant,
    Unclassified,
}

/// An exec event together with what was found out about the process.
#[derive(Clone, Debug, PartialEq, Eq)]
pub struct ResolvedEvent {
    pub pid: u32,
    pub uid: u32,
    pub parent_pid: u32,
    pub process_name: String,
}

/// A classified event as it is reported.
#[derive(Clone, Debug, PartialEq, Eq)]
pub struct Report {
    pub event: ResolvedEvent,
    pub decision: Decision,
}

/// The classification state in mathematical form: the privileged roots, their
/// direct descendants, and for each direct descendant the pids it started,
/// in the order they were classified.
pub struct AncestryModel {
    pub roots: Set<u32>,
    pub direct: Set<u32>,
    pub tree: Map<u32, Seq<u32>>,
}

pub open spec fn empty_model() -> AncestryModel {
    AncestryModel { roots: Set::empty(), direct: Set::empty(), tree: Map::empty() }
}

/// The children recorded under `p`, empty where there are none.
pub open spec fn children(m: AncestryModel, p: u32) -> Seq<u32> {
    if m.tree.contains_key(p) {
        m.tree[p]
    } else {
        Seq::empty()
    }
}

/// The classification rule: the elevation tool's name first, then a parent
/// among the roots, then a parent among the direct descendants.
pub open spec fn decide(m: AncestryModel, name: Seq<char>, parent: u32) -> Decision {
    if name == elevation_tool() {
        Decision::NewRoot
    } else if m.roots.contains(parent) {
        Decision::DirectDescendant
    } else if m.direct.contains(parent) {
        Decision::DeeperDescendant
    } else {
        Decision::Unclassified
    }
}

/// The state after classifying the exec of `pid`.
pub open spec fn step(m: AncestryModel, pid: u32, parent: u32, name: Seq<char>) -> AncestryModel {
    match decide(m, name, parent) {
        Decision::NewRoot => AncestryModel { roots: m.roots.insert(pid), direct: m.direct, tree: m.tree },
        Decision::DirectDescendant => AncestryModel {
            roots: m.roots,
            direct: m.direct.insert(pid),
            tree: m.tree,
        },
        Decision::DeeperDescendant => AncestryModel {
            roots: m.roots,
            direct: m.direct,
            tree: m.tree.insert(parent, children(m, parent).push(pid)),
        },
        Decision::Unclassified => m,
    }
}

pub open spec fn event_decision(m: AncestryModel, e: ResolvedEvent) -> Decision {
    decide(m, e.process_name@, e.parent_pid)
}

pub open spec fn apply(m: AncestryModel, e: ResolvedEvent) -> AncestryModel {
    step(m, e.pid, e.parent_pid, e.process_name@)
}

/// The state after classifying `evs` in order, starting from `m`.
pub open spec fn run(m: AncestryModel, evs: Seq<ResolvedEvent>) -> AncestryModel
    decreases evs.len(),
{
    if evs.len() == 0 {
        m
    } else {
        apply(run(m, evs.drop_last()), evs.last())
    }
}

/// The resolved event made of a raw exec event and the status of its process.
pub open spec fn resolved(raw: RawEvent, st: ProcessStatus) -> ResolvedEvent {
    ResolvedEvent { pid: raw.pid, uid: raw.uid, parent_pid: st.parent_pid, process_name: st.name }
}

impl ResolvedEvent {
    /// Combines an exec event with the status read for its pid. The owner is
    /// the one the probe saw at exec time.
    pub fn from_status(raw: RawEvent, st: ProcessStatus) -> (r: ResolvedEvent)
        ensures
            r == resolved(raw, st),
    {
        ResolvedEvent { pid: raw.pid, uid: raw.uid, parent_pid: st.parent_pid, process_name: st.name }
    }
}

fn vec_contains(v: &Vec<u32>, x: u32) -> (r: bool)
    ensures
        r == v@.contains(x),
{
    let mut i: usize = 0;
    while i < v.len()
        invariant
            i <= v@.len(),
            forall|t: int| 0 <= t < i ==> v@[t] != x,
        decreases v@.len() - i,
    {
        if v[i] == x {
            return true;
        }
        i += 1;
    }
    false
}

/// Whether `name` is the elevation tool's name.
pub fn is_elevation_tool(name: &str) -> (r: bool)
    ensures
        r == (name@ == elevation_tool()),
{
    proof {
        reveal_strlit("sudo");
        assert(ELEVATION_TOOL@ =~= elevation_tool());
    }
    let n = name.unicode_len();
    let r = span_is(name, 0, n, ELEVATION_TOOL);
    assert(name@.subrange(0, n as int) =~= name@);
    r
}

/// The shared classification state. The pid lists hold each pid once, in the
/// order in which it was classified.
pub struct AncestryState {
    roots: Vec<u32>,
    direct: Vec<u32>,
    tree: HashMap<u32, Vec<u32>>,
}

impl View for AncestryState {
    type V = AncestryModel;

    closed spec fn view(&self) -> AncestryModel {
        AncestryModel {
            roots: self.roots@.to_set(),
            direct: self.direct@.to_set(),
            tree: self.tree@.map_values(|v: Vec<u32>| v@),
        }
    }
}

impl AncestryState {
    pub closed spec fn wf(&self) -> bool {
        &&& self.roots@.no_duplicates()
        &&& self.direct@.no_duplicates()
    }

    /// The empty state of a run's start.
    pub fn new() -> (r: AncestryState)
        ensures
            r.wf(),
            r@ == empty_model(),
    {
        let r = AncestryState { roots: Vec::new(), direct: Vec::new(), tree: HashMap::new() };
        assert(r@.roots =~= Set::empty());
        assert(r@.direct =~= Set::empty());
        assert(r@.tree =~= Map::empty());
        r
    }

    /// Classifies one resolved event and records it: a root, a direct
    /// descendant, or a child appended under its direct-descendant parent.
    /// An unclassified event changes nothing.
    pub fn classify(&mut self, e: &ResolvedEvent) -> (r: Decision)
        requires
            old(self).wf(),
        ensures
            final(self).wf(),
            r == event_decision(old(self)@, *e),
            final(self)@ == apply(old(self)@, *e),
    {
        let ghost m = self@;
        if is_elevation_tool(e.process_name.as_str()) {
            let ghost before = self.roots@;
            if !vec_contains(&self.roots, e.pid) {
                self.roots.push(e.pid);
                proof {
                    before.lemma_push_to_set_commute(e.pid);
                    assert forall|a: int, b: int|
                        0 <= a < b < self.roots@.len() implies self.roots@[a] != self.roots@[b] by {
                        if b == before.len() {
                            assert(before.contains(before[a]));
                        }
                    }
                }
            } else {
                assert(self@.roots =~= m.roots.insert(e.pid));
            }
            assert(self@ == step(m, e.pid, e.parent_pid, e.process_name@));
            Decision::NewRoot
        } else if vec_contains(&self.roots, e.parent_pid) {
            let ghost before = self.direct@;
            if !vec_contains(&self.direct, e.pid) {
                self.direct.push(e.pid);
                proof {
                    before.lemma_push_to_set_commute(e.pid);
                    assert forall|a: int, b: int|
                        0 <= a < b < self.direct@.len() implies self.direct@[a] != self.direct@[b] by {
                        if b == before.len() {
                            assert(before.contains(before[a]));
                        }
                    }
                }
            } else {
                assert(self@.direct =~= m.direct.insert(e.pid));
            }
            assert(self@ == step(m, e.pid, e.parent_pid, e.process_name@));
            Decision::DirectDescendant
        } else if vec_contains(&self.direct, e.parent_pid) {
            let mut kids = match self.tree.remove(&e.parent_pid) {
                Some(v) => v,
                None => Vec::new(),
            };
            assert(kids@ == children(m, e.parent_pid));
            kids.push(e.pid);
            self.tree.insert(e.parent_pid, kids);
            assert(self@.tree =~= m.tree.insert(e.parent_pid, children(m, e.parent_pid).push(e.pid)));
            assert(self@ == step(m, e.pid, e.parent_pid, e.process_name@));
            Decision::DeeperDescendant
        } else {
            Decision::Unclassified
        }
    }

    /// Handles one exec event whose status lookup gave `status`: a lookup
    /// that found nothing changes nothing and reports nothing; otherwise the
    /// event is classified, and reported unless it was unclassified.
    pub fn handle(&mut self, raw: RawEvent, status: Option<ProcessStatus>) -> (r: Option<Report>)
        requires
            old(self).wf(),
        ensures
            final(self).wf(),
            status is None ==> final(self)@ == old(self)@ && r is None,
            status matches Some(st) ==> {
                let e = resolved(raw, st);
                &&& final(self)@ == apply(old(self)@, e)
                &&& r == if event_decision(old(self)@, e) == Decision::Unclassified {
                    None
                } else {
                    Some(Report { event: e, decision: event_decision(old(self)@, e) })
                }
            },
    {
        match status {
            None => None,
            Some(st) => {
                let e = ResolvedEvent::from_status(raw, st);
                let d = self.classify(&e);
                match d {
                    Decision::Unclassified => None,
                    _ => Some(Report { event: e, decision: d }),
                }
            },
        }
    }

    /// The privileged roots, in the order they were found.
    pub fn privileged_roots(&self) -> (r: &[u32])
        requires
            self.wf(),
        ensures
            r@.to_set() == self@.roots,
            r@.no_duplicates(),
    {
        self.roots.as_slice()
    }

    /// The direct descendants of roots, in the order they were found.
    pub fn direct_descendants(&self) -> (r: &[u32])
        requires
            self.wf(),
        ensures
            r@.to_set() == self@.direct,
            r@.no_duplicates(),
    {
        self.direct.as_slice()
    }

    /// The pids recorded under the direct descendant `p`, in order.
    pub fn descendants_of(&self, p: u32) -> (r: Vec<u32>)
        ensures
            r@ == children(self@, p),
    {
        let mut r: Vec<u32> = Vec::new();
        match self.tree.get(&p) {
            Some(v) => {
                let mut i: usize = 0;
                while i < v.len()
                    invariant
                        i <= v@.len(),
                        r@ == v@.subrange(0, i as int),
                    decreases v@.len() - i,
                {
                    r.push(v[i]);
                    assert(r@ =~= v@.subrange(0, i + 1));
                    i += 1;
                }
                assert(r@ =~= v@);
            },
            None => {},
        }
        r
    }
}

} // verus!
