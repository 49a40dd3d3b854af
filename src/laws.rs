//! Properties of the classifier over whole runs of events, and of the status
//! lookup, proved from the rules in `ancestry` and `status`.
use vstd::prelude::*;

use crate::ancestry::{
    apply, children, elevation_tool, empty_model, event_decision, run, AncestryModel, Decision,
    ResolvedEvent,
};
use crate::status::status_of;

verus! {

/// The state after the first `k` events of `evs`, starting from the empty state.
pub open spec fn state_before(evs: Seq<ResolvedEvent>, k: int) -> AncestryModel {
    run(empty_model(), evs.subrange(0, k))
}

/// Whether `x` is among the children recorded under some parent.
pub open spec fn in_tree(m: AncestryModel, x: u32) -> bool {
    exists|k: u32| m.tree.contains_key(k) && #[trigger] m.tree[k].contains(x)
}

/// Whether `x` is in any of the three classification sets.
pub open spec fn mentions(m: AncestryModel, x: u32) -> bool {
    m.roots.contains(x) || m.direct.contains(x) || in_tree(m, x)
}

/// No pid is in more than one of the three classification sets.
pub open spec fn disjoint(m: AncestryModel) -> bool {
    forall|x: u32|
        {
            &&& !(#[trigger] m.roots.contains(x) && m.direct.contains(x))
            &&& !(m.roots.contains(x) && in_tree(m, x))
            &&& !(m.direct.contains(x) && in_tree(m, x))
        }
}

pub open spec fn distinct_pids(evs: Seq<ResolvedEvent>) -> bool {
    forall|a: int, b: int| 0 <= a < b < evs.len() ==> evs[a].pid != evs[b].pid
}

proof fn lemma_state_step(evs: Seq<ResolvedEvent>, k: int)
    requires
        0 <= k < evs.len(),
    ensures
        state_before(evs, k + 1) == apply(state_before(evs, k), evs[k]),
{
    assert(evs.subrange(0, k + 1).drop_last() =~= evs.subrange(0, k));
}

proof fn lemma_state_start(evs: Seq<ResolvedEvent>)
    ensures
        state_before(evs, 0) == empty_model(),
{
    assert(evs.subrange(0, 0) =~= Seq::<ResolvedEvent>::empty());
}

/// Events for other pids neither add `x` to nor take it from the roots or
/// the direct descendants.
proof fn lemma_membership(evs: Seq<ResolvedEvent>, x: u32, a: int, b: int)
    requires
        0 <= a <= b <= evs.len(),
        forall|t: int| a <= t < b ==> #[trigger] evs[t].pid != x,
    ensures
        state_before(evs, a).roots.contains(x) == state_before(evs, b).roots.contains(x),
        state_before(evs, a).direct.contains(x) == state_before(evs, b).direct.contains(x),
    decreases b - a,
{
    if a < b {
        lemma_membership(evs, x, a, b - 1);
        lemma_state_step(evs, b - 1);
    }
}

/// A root stays a root.
proof fn lemma_roots_kept(evs: Seq<ResolvedEvent>, x: u32, a: int, b: int)
    requires
        0 <= a <= b <= evs.len(),
        state_before(evs, a).roots.contains(x),
    ensures
        state_before(evs, b).roots.contains(x),
    decreases b - a,
{
    if a < b {
        lemma_roots_kept(evs, x, a, b - 1);
        lemma_state_step(evs, b - 1);
    }
}

/// Once the elevation tool has run as pid `P` (event `i`), a later event `j`
/// whose parent is `P`, and which is not the elevation tool itself, is a
/// direct descendant, and is recorded as one.
pub proof fn law_children_of_root_are_direct(evs: Seq<ResolvedEvent>, i: int, j: int)
    requires
        0 <= i < j < evs.len(),
        evs[i].process_name@ == elevation_tool(),
        evs[j].parent_pid == evs[i].pid,
        evs[j].process_name@ != elevation_tool(),
    ensures
        event_decision(state_before(evs, j), evs[j]) == Decision::DirectDescendant,
        state_before(evs, j + 1).direct.contains(evs[j].pid),
{
    lemma_state_step(evs, i);
    lemma_roots_kept(evs, evs[i].pid, i + 1, j);
    lemma_state_step(evs, j);
}

/// Where event `i` made pid `P` a direct descendant and no other event before
/// `j` is for pid `P`, a later event `j` whose parent is `P`, and which is
/// not the elevation tool, is a deeper descendant and is appended to the
/// children recorded under `P`.
pub proof fn law_children_of_direct_are_deeper(evs: Seq<ResolvedEvent>, i: int, j: int)
    requires
        0 <= i < j < evs.len(),
        event_decision(state_before(evs, i), evs[i]) == Decision::DirectDescendant,
        evs[j].parent_pid == evs[i].pid,
        evs[j].process_name@ != elevation_tool(),
        forall|t: int| 0 <= t < j && t != i ==> #[trigger] evs[t].pid != evs[i].pid,
    ensures
        event_decision(state_before(evs, j), evs[j]) == Decision::DeeperDescendant,
        state_before(evs, j + 1).tree == state_before(evs, j).tree.insert(
            evs[i].pid,
            children(state_before(evs, j), evs[i].pid).push(evs[j].pid),
        ),
{
    let p = evs[i].pid;
    lemma_state_start(evs);
    lemma_membership(evs, p, 0, i);
    lemma_state_step(evs, i);
    lemma_membership(evs, p, i + 1, j);
    lemma_state_step(evs, j);
}

/// What one step can add: only the event's own pid.
proof fn lemma_step_mentions(m: AncestryModel, e: ResolvedEvent)
    ensures
        forall|x: u32| #[trigger] mentions(apply(m, e), x) ==> mentions(m, x) || x == e.pid,
        disjoint(m) && !mentions(m, e.pid) ==> disjoint(apply(m, e)),
{
    let n = apply(m, e);
    assert forall|x: u32| in_tree(n, x) implies in_tree(m, x) || x == e.pid by {
        let k = choose|k: u32| n.tree.contains_key(k) && #[trigger] n.tree[k].contains(x);
        if event_decision(m, e) == Decision::DeeperDescendant && k == e.parent_pid {
            let c = children(m, k);
            let t = choose|t: int| 0 <= t < c.push(e.pid).len() && c.push(e.pid)[t] == x;
            if t < c.len() {
                assert(c[t] == x);
                assert(m.tree[k].contains(x));
            }
        } else {
            assert(m.tree.contains_key(k) && m.tree[k].contains(x));
        }
    }
}

proof fn lemma_run_disjoint(evs: Seq<ResolvedEvent>)
    requires
        distinct_pids(evs),
    ensures
        disjoint(run(empty_model(), evs)),
        forall|x: u32|
            #[trigger] mentions(run(empty_model(), evs), x) ==> exists|t: int|
                0 <= t < evs.len() && evs[t].pid == x,
    decreases evs.len(),
{
    if evs.len() == 0 {
        assert forall|x: u32| !in_tree(empty_model(), x) by {}
    } else {
        let front = evs.drop_last();
        let e = evs.last();
        assert(distinct_pids(front)) by {
            assert forall|a: int, b: int| 0 <= a < b < front.len() implies front[a].pid
                != front[b].pid by {
                assert(front[a] == evs[a] && front[b] == evs[b]);
            }
        }
        lemma_run_disjoint(front);
        let m = run(empty_model(), front);
        if mentions(m, e.pid) {
            let t = choose|t: int| 0 <= t < front.len() && front[t].pid == e.pid;
            assert(evs[t].pid == evs[evs.len() - 1].pid);
        }
        lemma_step_mentions(m, e);
        assert forall|x: u32| #[trigger] mentions(apply(m, e), x) implies exists|t: int|
            0 <= t < evs.len() && evs[t].pid == x by {
            if x == e.pid {
                assert(evs[evs.len() - 1].pid == x);
            } else {
                let t = choose|t: int| 0 <= t < front.len() && front[t].pid == x;
                assert(evs[t].pid == x);
            }
        }
    }
}

/// Where every event is for a different pid, no pid ends up in more than one
/// of the roots, the direct descendants and the recorded children.
pub proof fn law_sets_disjoint(evs: Seq<ResolvedEvent>)
    requires
        distinct_pids(evs),
    ensures
        disjoint(run(empty_model(), evs)),
{
    lemma_run_disjoint(evs);
}

/// Reading the same status text twice gives the same status.
pub proof fn law_resolution_deterministic(a: Seq<char>, b: Seq<char>)
    requires
        a == b,
    ensures
        status_of(a) == status_of(b),
{
}

/// Two events for distinct pids, neither of them the parent of the other,
/// may be classified in either order: each gets the same decision, and both
/// orders leave the same roots, the same direct descendants, the same
/// parents with children, and under each parent the same children, only
/// their order aside. No update is lost to the interleaving.
pub proof fn law_independent_events_commute(m: AncestryModel, e1: ResolvedEvent, e2: ResolvedEvent)
    requires
        e1.pid != e2.pid,
        e1.pid != e2.parent_pid,
        e2.pid != e1.parent_pid,
    ensures
        event_decision(apply(m, e1), e2) == event_decision(m, e2),
        event_decision(apply(m, e2), e1) == event_decision(m, e1),
        apply(apply(m, e1), e2).roots == apply(apply(m, e2), e1).roots,
        apply(apply(m, e1), e2).direct == apply(apply(m, e2), e1).direct,
        apply(apply(m, e1), e2).tree.dom() == apply(apply(m, e2), e1).tree.dom(),
        forall|k: u32|
            #[trigger] children(apply(apply(m, e1), e2), k).to_multiset() == children(
                apply(apply(m, e2), e1),
                k,
            ).to_multiset(),
{
    broadcast use vstd::seq_lib::group_to_multiset_ensures;

    let a = apply(apply(m, e1), e2);
    let b = apply(apply(m, e2), e1);
    assert(a.roots =~= b.roots);
    assert(a.direct =~= b.direct);
    let d1 = event_decision(m, e1);
    let d2 = event_decision(m, e2);
    if d1 == Decision::DeeperDescendant && d2 == Decision::DeeperDescendant && e1.parent_pid
        == e2.parent_pid {
        let p = e1.parent_pid;
        let c = children(m, p);
        assert(a.tree.dom() =~= b.tree.dom());
        assert forall|k: u32| #[trigger]
            children(a, k).to_multiset() == children(b, k).to_multiset() by {
            if k == p {
                assert(children(a, k) == c.push(e1.pid).push(e2.pid));
                assert(children(b, k) == c.push(e2.pid).push(e1.pid));
                assert(c.push(e1.pid).push(e2.pid).to_multiset() =~= c.push(e2.pid).push(
                    e1.pid,
                ).to_multiset());
            }
        }
    } else {
        assert(a.tree =~= b.tree);
    }
}

} // verus!
