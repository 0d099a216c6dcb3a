use vstd::prelude::*;

use crate::hex::hex_of;

use crate::resolver::{first_touch, lemma_first_touch, touches, unresolved, Resolver, Visit};

verus! {

/// A resolved path is assigned the newest visited commit that touched it:
/// that commit touched it, no commit visited before it did, and the sha
/// attached is the hexadecimal form of that commit's id.
pub proof fn lemma_resolves_to_newest_touch(r: Resolver, i: int)
    requires
        r.wf(),
        0 <= i < r.n_paths(),
        r.slot(i) is Some,
    ensures
        ({
            let s = first_touch(r.visits(), i).unwrap();
            &&& 0 <= s < r.visits().len()
            &&& touches(r.visits()[s], i)
            &&& r.cached_ids()[r.slot(i).unwrap() as int] == r.visits()[s].id
            &&& r.cached()[r.slot(i).unwrap() as int].sha@ == hex_of(r.visits()[s].id)
            &&& forall|t: int| 0 <= t < s ==> !touches(#[trigger] r.visits()[t], i)
        }),
{
    lemma_first_touch(r.visits(), i);
}

/// No path ever resolves to a merge commit, whatever the merge changed.
pub proof fn lemma_merge_never_resolves(r: Resolver, i: int)
    requires
        r.wf(),
        0 <= i < r.n_paths(),
        r.slot(i) is Some,
    ensures
        r.visits()[first_touch(r.visits(), i).unwrap()].parents <= 1,
{
    lemma_first_touch(r.visits(), i);
}

/// Two paths that resolve to the same commit id share one cache slot, and
/// so one metadata value.
pub proof fn lemma_same_commit_same_slot(r: Resolver, i: int, j: int)
    requires
        r.wf(),
        0 <= i < r.n_paths(),
        0 <= j < r.n_paths(),
        r.slot(i) is Some,
        r.slot(j) is Some,
        r.visits()[first_touch(r.visits(), i).unwrap()].id == r.visits()[first_touch(r.visits(), j).unwrap()].id,
    ensures
        r.slot(i) == r.slot(j),
        r.cached()[r.slot(i).unwrap() as int] == r.cached()[r.slot(j).unwrap() as int],
{
    let a = r.slot(i).unwrap() as int;
    let b = r.slot(j).unwrap() as int;
    if a < b {
        assert(r.cached_ids()[a] != r.cached_ids()[b]);
    } else if b < a {
        assert(r.cached_ids()[b] != r.cached_ids()[a]);
    }
}

/// Once every path is resolved no further commit is visited: each visit
/// happened while some path was still unresolved.
pub proof fn lemma_no_visit_after_done(r: Resolver, s: int)
    requires
        r.wf(),
        0 <= s < r.visits().len(),
    ensures
        !unresolved(r.visits().take(s), r.n_paths()).is_empty(),
{
}

/// A path that no visited commit touches resolves to nothing, and stays
/// active.
pub proof fn lemma_untouched_path_unresolved(r: Resolver, i: int)
    requires
        r.wf(),
        0 <= i < r.n_paths(),
        forall|t: int| 0 <= t < r.visits().len() ==> !touches(#[trigger] r.visits()[t], i),
    ensures
        r.slot(i) is None,
        r.active().contains(i as usize),
{
    lemma_first_touch(r.visits(), i);
}

/// The outcome depends on the visited commits alone: two resolvers over the
/// same paths that saw the same commits have the same active paths, assign
/// each path the same commit, and attach the same sha to it.
pub proof fn lemma_same_visits_same_outcome(r1: Resolver, r2: Resolver)
    requires
        r1.wf(),
        r2.wf(),
        r1.n_paths() == r2.n_paths(),
        r1.visits() == r2.visits(),
    ensures
        r1.active() == r2.active(),
        forall|i: int| 0 <= i < r1.n_paths() ==> (r1.slot(i) is Some <==> r2.slot(i) is Some),
        forall|i: int|
            0 <= i < r1.n_paths() && r1.slot(i) is Some ==> r1.cached_ids()[r1.slot(i).unwrap() as int]
                == r2.cached_ids()[r2.slot(i).unwrap() as int],
        forall|i: int|
            0 <= i < r1.n_paths() && r1.slot(i) is Some ==> r1.cached()[r1.slot(i).unwrap() as int].sha@
                == r2.cached()[r2.slot(i).unwrap() as int].sha@,
{
    let a1 = r1.active();
    let a2 = r2.active();
    assert forall|v: usize| a1.contains(v) <==> a2.contains(v) by {
        if a1.contains(v) {
            let k = choose|k: int| 0 <= k < a1.len() && a1[k] == v;
            assert(first_touch(r2.visits(), v as int) is None);
        }
        if a2.contains(v) {
            let k = choose|k: int| 0 <= k < a2.len() && a2[k] == v;
            assert(first_touch(r1.visits(), v as int) is None);
        }
    }
    lemma_sorted_same_elements(a1, a2);
    assert forall|i: int| 0 <= i < r1.n_paths() && r1.slot(i) is Some implies r1.cached()[r1.slot(i).unwrap() as int].sha@
        == r2.cached()[r2.slot(i).unwrap() as int].sha@ by {
        let k1 = r1.slot(i).unwrap() as int;
        let k2 = r2.slot(i).unwrap() as int;
        assert(r1.cached()[k1].sha@ == r2.cached()[k2].sha@);
    }
}

/// Two strictly increasing sequences with the same elements are equal.
proof fn lemma_sorted_same_elements(a: Seq<usize>, b: Seq<usize>)
    requires
        forall|x: int, y: int| 0 <= x < y < a.len() ==> a[x] < a[y],
        forall|x: int, y: int| 0 <= x < y < b.len() ==> b[x] < b[y],
        forall|v: usize| a.contains(v) <==> b.contains(v),
    ensures
        a == b,
    decreases a.len(),
{
    if a.len() == 0 {
        if b.len() > 0 {
            assert(b.contains(b[0]));
        }
    } else {
        assert(a.contains(a[0]));
        assert(b.len() > 0);
        assert(b.contains(b[0]));
        let i = choose|i: int| 0 <= i < b.len() && b[i] == a[0];
        let j = choose|j: int| 0 <= j < a.len() && a[j] == b[0];
        assert(a[0] == b[0]);
        let ta = a.drop_first();
        let tb = b.drop_first();
        assert forall|v: usize| ta.contains(v) <==> tb.contains(v) by {
            if ta.contains(v) {
                let k = choose|k: int| 0 <= k < ta.len() && ta[k] == v;
                assert(a[k + 1] == v);
                assert(a.contains(v));
                let m = choose|m: int| 0 <= m < b.len() && b[m] == v;
                assert(m != 0);
                assert(tb[m - 1] == v);
            }
            if tb.contains(v) {
                let k = choose|k: int| 0 <= k < tb.len() && tb[k] == v;
                assert(b[k + 1] == v);
                assert(b.contains(v));
                let m = choose|m: int| 0 <= m < a.len() && a[m] == v;
                assert(m != 0);
                assert(ta[m - 1] == v);
            }
        }
        lemma_sorted_same_elements(ta, tb);
        assert(a =~= seq![a[0]] + ta);
        assert(b =~= seq![b[0]] + tb);
    }
}

} // verus!
