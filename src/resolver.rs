use vstd::prelude::*;

use crate::hex::{hex_of, hex_string};

verus! {

/// The author time of a commit: seconds since the epoch and the offset of
/// its time zone, in minutes.
#[derive(Clone, Copy, Debug, PartialEq, Eq)]
pub struct CommitTime {
    pub seconds: i64,
    pub offset_minutes: i32,
}

/// What is attached to a path: the commit that last touched it.
#[derive(Clone, Debug)]
pub struct LastCommit {
    pub sha: String,
    pub summary: String,
    pub time: CommitTime,
}

/// One commit as the walk saw it: its id, how many parents it has, and the
/// paths (by index) that its match target showed as touched.
pub struct Visit {
    pub id: Seq<u8>,
    pub parents: nat,
    pub touched: Set<int>,
}

/// A visited commit counts as touching path `i` only when it is not a merge.
pub open spec fn touches(v: Visit, i: int) -> bool {
    v.parents <= 1 && v.touched.contains(i)
}

/// The position, in walk order, of the first visit that touches path `i`.
pub open spec fn first_touch(visits: Seq<Visit>, i: int) -> Option<int>
    decreases visits.len(),
{
    if visits.len() == 0 {
        None
    } else {
        match first_touch(visits.drop_last(), i) {
            Some(s) => Some(s),
            None => if touches(visits.last(), i) {
                Some(visits.len() - 1)
            } else {
                None
            },
        }
    }
}

/// The paths among `0..n` that no visit has touched yet.
pub open spec fn unresolved(visits: Seq<Visit>, n: nat) -> Set<int> {
    Set::new(|i: int| 0 <= i < n && first_touch(visits, i) is None)
}

/// The set of paths touched by a step: those active paths whose match held.
pub open spec fn touched_of(active: Seq<usize>, matched: Seq<bool>) -> Set<int> {
    Set::new(|i: int| exists|k: int| 0 <= k < active.len() && k < matched.len() && matched[k] && active[k] == i)
}

/// The walk state of one resolve call: the paths still unresolved, the
/// commit each resolved path was assigned, and the metadata of each commit
/// that some path resolved to, extracted once per commit id.
pub struct Resolver {
    active: Vec<usize>,
    assigned: Vec<Option<usize>>,
    cache_ids: Vec<Vec<u8>>,
    cache: Vec<LastCommit>,
    visits: Ghost<Seq<Visit>>,
}

impl Resolver {
    /// The commits seen so far, newest first.
    pub closed spec fn visits(&self) -> Seq<Visit> {
        self.visits@
    }

    /// The number of paths being resolved.
    pub closed spec fn n_paths(&self) -> nat {
        self.assigned@.len()
    }

    /// The still unresolved paths, in the order in which they were given.
    pub closed spec fn active(&self) -> Seq<usize> {
        self.active@
    }

    /// The cache slot assigned to path `i`, if it was resolved.
    pub closed spec fn slot(&self, i: int) -> Option<usize> {
        self.assigned@[i]
    }

    /// The commit ids in the cache, one per slot.
    pub closed spec fn cached_ids(&self) -> Seq<Seq<u8>> {
        self.cache_ids@.map_values(|v: Vec<u8>| v@)
    }

    /// The commit metadata in the cache, one per slot.
    pub closed spec fn cached(&self) -> Seq<LastCommit> {
        self.cache@
    }

    /// The state is consistent with the visits: the active paths are the
    /// unresolved ones in increasing order, each resolved path holds the slot
    /// of the first commit that touched it, each commit id has one slot, and
    /// no commit was visited after every path had been resolved.
    pub open spec fn wf(&self) -> bool {
        let n = self.n_paths();
        let vs = self.visits();
        let act = self.active();
        &&& self.cached_ids().len() == self.cached().len()
        &&& forall|k: int| 0 <= k < self.cached().len() ==> #[trigger] self.cached()[k].sha@ == hex_of(self.cached_ids()[k])
        &&& forall|a: int, b: int| 0 <= a < b < act.len() ==> act[a] < act[b]
        &&& forall|k: int| 0 <= k < act.len() ==> act[k] < n
        &&& forall|k: int| 0 <= k < act.len() ==> first_touch(vs, act[k] as int) is None
        &&& forall|i: int| 0 <= i < n && first_touch(vs, i) is None ==> act.contains(i as usize)
        &&& forall|i: int| 0 <= i < n ==> (self.slot(i) is Some <==> first_touch(vs, i) is Some)
        &&& forall|i: int| 0 <= i < n && self.slot(i) is Some ==> {
            let k = self.slot(i).unwrap() as int;
            &&& 0 <= k < self.cached_ids().len()
            &&& self.cached_ids()[k] == vs[first_touch(vs, i).unwrap()].id
        }
        &&& forall|a: int, b: int| 0 <= a < b < self.cached_ids().len() ==> self.cached_ids()[a] != self.cached_ids()[b]
        &&& forall|s: int| 0 <= s < vs.len() ==> !unresolved(vs.take(s), n).is_empty()
    }

    pub open spec fn is_done_spec(&self) -> bool {
        self.active().len() == 0
    }

    /// The start of a walk over `n` paths: none resolved, nothing visited.
    pub fn new(n: usize) -> (r: Resolver)
        ensures
            r.wf(),
            r.n_paths() == n,
            r.visits() == Seq::<Visit>::empty(),
            r.active() == Seq::new(n as nat, |i: int| i as usize),
            r.cached().len() == 0,
            forall|i: int| 0 <= i < n ==> r.slot(i) is None,
    {
        let mut active: Vec<usize> = Vec::new();
        let mut assigned: Vec<Option<usize>> = Vec::new();
        let mut i: usize = 0;
        while i < n
            invariant
                i <= n,
                active@ == Seq::new(i as nat, |j: int| j as usize),
                assigned@.len() == i,
                forall|j: int| 0 <= j < i ==> assigned@[j] is None,
            decreases n - i,
        {
            active.push(i);
            assigned.push(None);
            i = i + 1;
        }
        let r = Resolver {
            active,
            assigned,
            cache_ids: Vec::new(),
            cache: Vec::new(),
            visits: Ghost(Seq::empty()),
        };
        assert forall|j: int| 0 <= j < n && first_touch(r.visits@, j) is None implies r.active@.contains(
            j as usize,
        ) by {
            assert(r.active@[j] == j as usize);
        }
        r
    }

    /// The paths still unresolved, in the order in which they were given.
    pub fn active_paths(&self) -> (r: &Vec<usize>)
        ensures
            r@ == self.active(),
    {
        &self.active
    }

    /// Whether every path has been resolved, so that the walk can stop.
    pub fn is_done(&self) -> (r: bool)
        ensures
            r == self.is_done_spec(),
    {
        self.active.len() == 0
    }

    /// The number of paths being resolved.
    pub fn len(&self) -> (r: usize)
        ensures
            r == self.n_paths(),
    {
        self.assigned.len()
    }

    /// The cache slot assigned to path `i`, or `None` while it is unresolved.
    pub fn slot_of(&self, i: usize) -> (r: Option<usize>)
        requires
            i < self.n_paths(),
        ensures
            r == self.slot(i as int),
    {
        self.assigned[i]
    }

    /// The number of commits in the cache.
    pub fn n_cached(&self) -> (r: usize)
        ensures
            r == self.cached().len(),
    {
        self.cache.len()
    }

    /// The metadata held in cache slot `k`.
    pub fn cached_commit(&self, k: usize) -> (r: &LastCommit)
        requires
            k < self.cached().len(),
        ensures
            *r == self.cached()[k as int],
    {
        &self.cache[k]
    }

    /// The commit that path `i` resolved to, if any.
    pub fn commit_of(&self, i: usize) -> (r: Option<&LastCommit>)
        requires
            self.wf(),
            i < self.n_paths(),
        ensures
            r is None <==> self.slot(i as int) is None,
            r is Some ==> *r.unwrap() == self.cached()[self.slot(i as int).unwrap() as int],
    {
        match self.assigned[i] {
            Some(k) => Some(&self.cache[k]),
            None => None,
        }
    }

    /// Adds a commit that is not in the cache yet, with its summary and
    /// time; its sha is the hexadecimal form of its id. Returns its slot.
    pub fn insert_commit(&mut self, id: Vec<u8>, summary: String, time: CommitTime) -> (k: usize)
        requires
            old(self).wf(),
            !old(self).cached_ids().contains(id@),
        ensures
            final(self).wf(),
            k == old(self).cached().len(),
            final(self).cached_ids() == old(self).cached_ids().push(id@),
            final(self).cached().len() == old(self).cached().len() + 1,
            forall|j: int| 0 <= j < k ==> final(self).cached()[j] == old(self).cached()[j],
            final(self).cached()[k as int].sha@ == hex_of(id@),
            final(self).cached()[k as int].summary == summary,
            final(self).cached()[k as int].time == time,
            final(self).visits() == old(self).visits(),
            final(self).active() == old(self).active(),
            final(self).n_paths() == old(self).n_paths(),
            forall|i: int| 0 <= i < old(self).n_paths() ==> final(self).slot(i) == old(self).slot(i),
    {
        let ghost ids0 = self.cached_ids();
        let ghost cache0 = self.cached();
        let k = self.cache.len();
        let info = LastCommit { sha: hex_string(&id), summary, time };
        self.cache_ids.push(id);
        self.cache.push(info);
        proof {
            assert(self.cached_ids() =~= ids0.push(id@));
            assert(self.cached() =~= cache0.push(info));
            assert forall|j: int| 0 <= j < self.cached().len() implies #[trigger] self.cached()[j].sha@ == hex_of(
                self.cached_ids()[j],
            ) by {
                if j < k {
                    assert(self.cached()[j] == cache0[j]);
                }
            }
            assert forall|a: int, b: int| 0 <= a < b < self.cached_ids().len() implies self.cached_ids()[a]
                != self.cached_ids()[b] by {
                if b == ids0.len() {
                    assert(ids0[a] == self.cached_ids()[a]);
                }
            }
        }
        k
    }

    /// One step of the walk: the commit `id` with `parents` parents was
    /// visited, and `matched[k]` tells whether its match target touched the
    /// k-th active path. A merge touches nothing, whatever `matched` holds.
    /// Each touched path gets the commit's slot and leaves the active set.
    pub fn record(&mut self, id: &Vec<u8>, parents: usize, matched: &Vec<bool>)
        requires
            old(self).wf(),
            !old(self).is_done_spec(),
            parents <= 1 ==> matched@.len() == old(self).active().len(),
            parents <= 1 && matched@.contains(true) ==> old(self).cached_ids().contains(id@),
        ensures
            final(self).wf(),
            final(self).n_paths() == old(self).n_paths(),
            final(self).cached_ids() == old(self).cached_ids(),
            final(self).cached() == old(self).cached(),
            final(self).visits() == old(self).visits().push(
                step_visit(id@, parents as nat, old(self).active(), matched@),
            ),
    {
        let ghost pre = *self;
        let ghost vs = self.visits@;
        let ghost act0 = self.active@;
        let ghost asg0 = self.assigned@;
        let ghost n = self.assigned@.len();
        let ghost v = step_visit(id@, parents as nat, act0, matched@);
        let sl = self.find_slot(id);
        self.visits = Ghost(vs.push(v));
        proof {
            assert forall|s: int| 0 <= s < vs.push(v).len() implies !unresolved(
                #[trigger] vs.push(v).take(s),
                n,
            ).is_empty() by {
                if s < vs.len() {
                    assert(vs.push(v).take(s) =~= vs.take(s));
                } else {
                    assert(vs.push(v).take(s) =~= vs);
                    assert(unresolved(vs, n).contains(act0[0] as int));
                }
            }
        }
        if parents > 1 {
            proof {
                let vs2 = vs.push(v);
                assert forall|i: int| 0 <= i < n implies #[trigger] first_touch(vs2, i) == first_touch(vs, i) by {
                    lemma_first_touch_push(vs, v, i);
                }
                assert forall|k2: int| 0 <= k2 < act0.len() implies first_touch(vs2, act0[k2] as int) is None by {
                    assert(first_touch(vs2, act0[k2] as int) == first_touch(vs, act0[k2] as int));
                }
                assert forall|i: int| 0 <= i < n && #[trigger] self.slot(i) is Some implies self.cached_ids()[self.slot(i).unwrap() as int]
                    == vs2[first_touch(vs2, i).unwrap()].id by {
                    lemma_first_touch(vs, i);
                    assert(first_touch(vs2, i) == first_touch(vs, i));
                }
            }
            return;
        }
        let n_act = self.active.len();
        let mut next: Vec<usize> = Vec::new();
        let ghost mut src: Seq<int> = Seq::empty();
        let mut k: usize = 0;
        let n_paths = self.assigned.len();
        while k < n_act
            invariant
                n_act == act0.len(),
                matched@.len() == n_act,
                k <= n_act,
                self.active@ == act0,
                self.assigned@.len() == n,
                self.visits@ == vs.push(v),
                self.cache_ids@ == old(self).cache_ids@,
                self.cache@ == old(self).cache@,
                matched@.contains(true) ==> sl is Some,
                forall|a: int, b: int| 0 <= a < b < act0.len() ==> act0[a] < act0[b],
                forall|j: int| 0 <= j < act0.len() ==> act0[j] < n,
                forall|i: int| 0 <= i < n && !act0.take(k as int).contains(i as usize) ==> self.assigned@[i] == asg0[i],
                forall|j: int| 0 <= j < k ==> self.assigned@[#[trigger] act0[j] as int] == if matched@[j] {
                    sl
                } else {
                    asg0[act0[j] as int]
                },
                forall|a: int, b: int| 0 <= a < b < next@.len() ==> next@[a] < next@[b],
                n_paths == n,
                src.len() == next@.len(),
                forall|t: int| 0 <= t < src.len() ==> 0 <= #[trigger] src[t] < k && !matched@[src[t]] && act0[src[t]] == next@[t],
                forall|j: int| 0 <= j < k && !matched@[j] ==> next@.contains(#[trigger] act0[j]),
            decreases n_act - k,
        {
            let i = self.active[k];
            if matched[k] {
                self.assigned.set(i, sl);
            } else {
                let ghost next_old = next@;
                proof {
                    assert forall|t: int| 0 <= t < next@.len() implies next@[t] < i by {
                        assert(act0[src[t]] == next@[t]);
                    }
                }
                next.push(i);
                proof {
                    src = src.push(k as int);
                    assert forall|j: int| 0 <= j < k + 1 && !matched@[j] implies next@.contains(#[trigger] act0[j]) by {
                        if j < k {
                            let t = choose|t: int| 0 <= t < next_old.len() && next_old[t] == act0[j];
                            assert(next@[t] == act0[j]);
                        } else {
                            assert(next@[next@.len() - 1] == act0[j]);
                        }
                    }
                }
            }
            proof {
                assert forall|i2: int| 0 <= i2 < n && !act0.take(k + 1).contains(i2 as usize) implies self.assigned@[i2] == asg0[i2] by {
                    assert(act0.take(k as int) =~= act0.take(k + 1).drop_last());
                    if act0.take(k as int).contains(i2 as usize) {
                        let j = choose|j: int| 0 <= j < k && act0.take(k as int)[j] == i2 as usize;
                        assert(act0.take(k + 1)[j] == i2 as usize);
                    }
                    assert(act0.take(k + 1)[k as int] == act0[k as int]);
                }
            }
            k = k + 1;
        }
        proof {
            assert forall|t: int| 0 <= t < next@.len() implies exists|j: int| 0 <= j < act0.len() && !matched@[j] && act0[j] == #[trigger] next@[t] by {
                assert(act0[src[t]] == next@[t]);
            }
        }
        self.active = next;
        proof {
            Self::lemma_record_wf(pre, *self, v, matched@, sl);
        }
    }

    /// The state after the loop of `record` is consistent with the new visit.
    proof fn lemma_record_wf(pre: Resolver, post: Resolver, v: Visit, matched: Seq<bool>, sl: Option<usize>)
        requires
            pre.wf(),
            matched.len() == pre.active().len(),
            v.parents <= 1,
            pre.n_paths() <= usize::MAX,
            v.touched == touched_of(pre.active(), matched),
            matched.contains(true) ==> sl is Some,
            post.visits() == pre.visits().push(v),
            post.cached_ids() == pre.cached_ids(),
            post.cached() == pre.cached(),
            post.n_paths() == pre.n_paths(),
            sl is Some ==> sl.unwrap() < pre.cached_ids().len() && pre.cached_ids()[sl.unwrap() as int] == v.id,
            forall|s: int| 0 <= s < post.visits().len() ==> !unresolved(post.visits().take(s), post.n_paths()).is_empty(),
            forall|i: int| 0 <= i < pre.n_paths() && !pre.active().contains(i as usize) ==> post.assigned@[i] == pre.assigned@[i],
            forall|j: int| 0 <= j < pre.active().len() ==> post.assigned@[#[trigger] pre.active()[j] as int] == if matched[j] {
                sl
            } else {
                pre.assigned@[pre.active()[j] as int]
            },
            forall|a: int, b: int| 0 <= a < b < post.active@.len() ==> post.active@[a] < post.active@[b],
            forall|t: int| 0 <= t < post.active@.len() ==> exists|j: int| 0 <= j < pre.active().len() && !matched[j] && pre.active()[j] == #[trigger] post.active@[t],
            forall|j: int| 0 <= j < pre.active().len() && !matched[j] ==> post.active@.contains(#[trigger] pre.active()[j]),
        ensures
            post.wf(),
    {
        let vs = pre.visits@;
        let act0 = pre.active@;
        let asg0 = pre.assigned@;
        let n = pre.assigned@.len();
        let n_act = act0.len();
        let next = post.active@;
        assert(act0.take(n_act as int) =~= act0);

        let vs2 = vs.push(v);
        assert forall|j: int| 0 <= j < act0.len() implies (touches(v, act0[j] as int) <==> matched[j]) by {
            if touches(v, act0[j] as int) {
                let j2 = choose|j2: int| 0 <= j2 < act0.len() && j2 < matched.len() && matched[j2] && act0[j2] == act0[j] as int;
                assert(j2 == j);
            }
        }
        assert forall|i: int| 0 <= i < n && !act0.contains(i as usize) implies !touches(v, i) by {}
        assert forall|i: int| 0 <= i < n implies #[trigger] first_touch(vs2, i) == (match first_touch(vs, i) {
            Some(s) => Some(s),
            None => if touches(v, i) {
                Some(vs.len() as int)
            } else {
                None
            },
        }) by {
            lemma_first_touch_push(vs, v, i);
        }
        assert forall|t: int| 0 <= t < next.len() implies first_touch(vs2, next[t] as int) is None by {
            let j = choose|j: int| 0 <= j < n_act && !matched[j] && act0[j] == next[t];
        }
        assert forall|i: int| 0 <= i < n && first_touch(vs2, i) is None implies next.contains(i as usize) by {
            assert(first_touch(vs, i) is None);
            assert(act0.contains(i as usize));
            let j = choose|j: int| 0 <= j < act0.len() && act0[j] == i as usize;
            assert(!touches(v, act0[j] as int));
            assert(!matched[j]);
            assert(next.contains(act0[j]));
        }
        // each path keeps its slot, but for the active ones that the step touched
        assert forall|i: int| 0 <= i < n implies #[trigger] post.assigned@[i] == if first_touch(vs, i) is None
            && touches(v, i) {
            sl
        } else {
            asg0[i]
        } by {
            if act0.contains(i as usize) {
                let j = choose|j: int| 0 <= j < act0.len() && act0[j] == i as usize;
                assert(post.assigned@[act0[j] as int] == if matched[j] {
                    sl
                } else {
                    asg0[act0[j] as int]
                });
                assert(touches(v, act0[j] as int) <==> matched[j]);
            } else {
                assert(!act0.take(n_act as int).contains(i as usize));
            }
        }
        assert(matched.contains(true) ==> sl is Some);
        assert forall|i: int| 0 <= i < n && first_touch(vs, i) is None && touches(v, i) implies sl is Some by {
            let j = choose|j: int| 0 <= j < act0.len() && act0[j] == i as usize;
            assert(touches(v, act0[j] as int) <==> matched[j]);
            assert(matched[j] == true);
            assert(matched.contains(true));
        }
        assert forall|i: int| 0 <= i < n && post.slot(i) is Some implies {
            let k2 = post.slot(i).unwrap() as int;
            &&& 0 <= k2 < post.cached_ids().len()
            &&& post.cached_ids()[k2] == vs2[first_touch(vs2, i).unwrap()].id
        } by {
            lemma_first_touch(vs, i);
            assert(post.assigned@[i] == asg0[i] || post.assigned@[i] == sl);
        }
    }

    /// The slot of the commit with id `id`, if that commit is in the cache.
    pub fn find_slot(&self, id: &Vec<u8>) -> (r: Option<usize>)
        requires
            self.wf(),
        ensures
            r is Some ==> r.unwrap() < self.cached_ids().len() && self.cached_ids()[r.unwrap() as int]
                == id@,
            r is None ==> !self.cached_ids().contains(id@),
    {
        let mut k: usize = 0;
        while k < self.cache_ids.len()
            invariant
                self.wf(),
                k <= self.cache_ids@.len(),
                forall|j: int| 0 <= j < k ==> self.cache_ids@[j]@ != id@,
            decreases self.cache_ids@.len() - k,
        {
            if same_bytes(&self.cache_ids[k], id) {
                return Some(k);
            }
            k = k + 1;
        }
        None
    }
}

/// The visit that one step of the walk adds.
pub open spec fn step_visit(id: Seq<u8>, parents: nat, active: Seq<usize>, matched: Seq<bool>) -> Visit {
    Visit {
        id,
        parents,
        touched: if parents <= 1 {
            touched_of(active, matched)
        } else {
            Set::empty()
        },
    }
}

/// Adding a visit keeps every earlier first touch and adds the new commit
/// for the paths it is the first to touch.
pub proof fn lemma_first_touch_push(vs: Seq<Visit>, v: Visit, i: int)
    ensures
        first_touch(vs.push(v), i) == (match first_touch(vs, i) {
            Some(s) => Some(s),
            None => if touches(v, i) {
                Some(vs.len() as int)
            } else {
                None
            },
        }),
{
    assert(vs.push(v).drop_last() =~= vs);
}

/// The first touch of a path is a visit that touches it, and no earlier
/// (newer) visit does; a path with no first touch is touched by no visit.
pub proof fn lemma_first_touch(vs: Seq<Visit>, i: int)
    ensures
        match first_touch(vs, i) {
            Some(s) => 0 <= s < vs.len() && touches(vs[s], i) && forall|t: int|
                0 <= t < s ==> !touches(#[trigger] vs[t], i),
            None => forall|t: int| 0 <= t < vs.len() ==> !touches(#[trigger] vs[t], i),
        },
    decreases vs.len(),
{
    if vs.len() > 0 {
        lemma_first_touch(vs.drop_last(), i);
        assert forall|t: int| 0 <= t < vs.len() - 1 implies vs.drop_last()[t] == vs[t] by {}
    }
}

/// Whether two byte strings are equal.
pub fn same_bytes(a: &Vec<u8>, b: &Vec<u8>) -> (r: bool)
    ensures
        r == (a@ == b@),
{
    if a.len() != b.len() {
        return false;
    }
    let mut k: usize = 0;
    while k < a.len()
        invariant
            a@.len() == b@.len(),
            k <= a@.len(),
            forall|j: int| 0 <= j < k ==> a@[j] == b@[j],
        decreases a@.len() - k,
    {
        if a[k] != b[k] {
            return false;
        }
        k = k + 1;
    }
    assert(a@ =~= b@);
    true
}

} // verus!
