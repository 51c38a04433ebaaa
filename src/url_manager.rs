//! The frontier: a deduplicating set of pending locations, popped shallowest first,
//! with a depth cutoff.
use vstd::prelude::*;
use std::cmp::Reverse;
use priority_queue::PriorityQueue;
use crate::location::Url;

verus! {

/// `std::cmp::Reverse`, which orders the queue's priorities so that the least
/// depth is the greatest priority.
#[verifier::external_type_specification]
#[verifier::external_body]
#[verifier::reject_recursive_types(T)]
pub struct ExReverse<T>(Reverse<T>);

/// The priority queue of the `priority-queue` crate: a heap indexed by item.
#[verifier::external_type_specification]
#[verifier::external_body]
#[verifier::reject_recursive_types(I)]
#[verifier::reject_recursive_types(P)]
#[verifier::reject_recursive_types(H)]
pub struct ExPriorityQueue<I: std::hash::Hash + Eq, P: Ord, H>(PriorityQueue<I, P, H>);

/// A queue of entry indices, greatest priority being least depth.
pub type DepthQueue = PriorityQueue<usize, Reverse<i32>>;

/// What a depth queue holds: each queued entry index with its depth.
pub uninterp spec fn queued(q: DepthQueue) -> Map<usize, int>;

/// The contents of an empty depth queue.
pub open spec fn no_items() -> Map<usize, int> {
    Map::empty()
}

/// Relies on `PriorityQueue::new`: an empty queue.
#[verifier::external_body]
fn queue_new() -> (r: DepthQueue)
    ensures
        queued(r) == no_items(),
{
    PriorityQueue::new()
}

/// Relies on `PriorityQueue::push`: inserts the item, or gives a queued item its
/// new priority (the heap is repaired in both directions).
#[verifier::external_body]
fn queue_push(q: &mut DepthQueue, item: usize, depth: i32)
    ensures
        queued(*final(q)) == queued(*old(q)).insert(item, depth as int),
{
    q.push(item, Reverse(depth));
}

/// Relies on `PriorityQueue::peek`: an item of greatest priority, that is of least
/// depth under `Reverse`, or `None` when the queue is empty.
#[verifier::external_body]
fn queue_peek(q: &DepthQueue) -> (r: Option<(usize, i32)>)
    ensures
        r is None <==> queued(*q) == no_items(),
        r matches Some((i, d)) ==> {
            &&& queued(*q).contains_key(i)
            &&& queued(*q)[i] == d as int
            &&& forall|k: usize| #[trigger] queued(*q).contains_key(k) ==> d <= queued(*q)[k]
        },
{
    q.peek().map(|(i, d)| (*i, d.0))
}

/// Relies on `PriorityQueue::pop`: removes and returns an item of greatest priority,
/// that is of least depth under `Reverse`, or `None` when the queue is empty.
#[verifier::external_body]
fn queue_pop(q: &mut DepthQueue) -> (r: Option<(usize, i32)>)
    ensures
        r is None ==> queued(*old(q)) == no_items() && queued(*final(q))
            == queued(*old(q)),
        r matches Some((i, d)) ==> {
            &&& queued(*old(q)).contains_key(i)
            &&& queued(*old(q))[i] == d as int
            &&& forall|k: usize| #[trigger]
                queued(*old(q)).contains_key(k) ==> d <= queued(*old(q))[k]
            &&& queued(*final(q)) == queued(*old(q)).remove(i)
        },
{
    q.pop().map(|(i, d)| (i, d.0))
}

/// Whether a frontier holding `stored` accepts `u`: its address is new, or it comes
/// at a strictly smaller depth than the stored one.
pub open spec fn accepts(stored: Map<Seq<char>, Url>, u: Url) -> bool {
    !stored.contains_key(u.url@) || (u.deep as int) < stored[u.url@].deep as int
}

/// The stored locations after one push of `u`.
pub open spec fn after_push(stored: Map<Seq<char>, Url>, u: Url) -> Map<Seq<char>, Url> {
    if accepts(stored, u) {
        stored.insert(u.url@, u)
    } else {
        stored
    }
}

/// The stored locations after pushing each of `us` in turn.
pub open spec fn after_pushes(stored: Map<Seq<char>, Url>, us: Seq<Url>) -> Map<
    Seq<char>,
    Url,
>
    decreases us.len(),
{
    if us.len() == 0 {
        stored
    } else {
        after_push(after_pushes(stored, us.drop_last()), us.last())
    }
}

/// A breadth-first frontier: pops the shallowest ready location first. When an
/// address is pushed several times, the smallest depth is kept.
pub struct BreadthFirstUrlManager {
    max_deep: i32,
    entries: Vec<Url>,
    pq: DepthQueue,
}

impl BreadthFirstUrlManager {
    /// Entries have distinct addresses, and the queue holds entry indices with
    /// their entries' depths.
    pub closed spec fn wf(&self) -> bool {
        &&& forall|i: int, j: int|
            0 <= i < self.entries@.len() && 0 <= j < self.entries@.len() && i != j
                ==> #[trigger] self.entries@[i].url@ != #[trigger] self.entries@[j].url@
        &&& forall|k: usize| #[trigger]
            queued(self.pq).contains_key(k) ==> k < self.entries@.len() && queued(self.pq)[k]
                == self.entries@[k as int].deep as int
    }

    spec fn has(&self, a: Seq<char>) -> bool {
        exists|i: int| 0 <= i < self.entries@.len() && self.entries@[i].url@ == a
    }

    spec fn index_of(&self, a: Seq<char>) -> int {
        choose|i: int| 0 <= i < self.entries@.len() && self.entries@[i].url@ == a
    }

    spec fn queues_at(&self, k: usize, a: Seq<char>) -> bool {
        queued(self.pq).contains_key(k) && self.entries@[k as int].url@ == a
    }

    /// Every location ever accepted, by address, as last accepted.
    pub closed spec fn stored(&self) -> Map<Seq<char>, Url> {
        Map::new(|a: Seq<char>| self.has(a), |a: Seq<char>| self.entries@[self.index_of(a)])
    }

    /// The addresses that can still be popped.
    pub closed spec fn ready(&self) -> Set<Seq<char>> {
        Set::new(|a: Seq<char>| exists|k: usize| #[trigger] self.queues_at(k, a))
    }

    /// Locations deeper than this are never popped.
    pub closed spec fn max_depth(&self) -> int {
        self.max_deep as int
    }

    /// One call of `push_url` with `u` takes `self` to `next` and returns `r`.
    pub open spec fn pushes(&self, next: Self, u: Url, r: bool) -> bool {
        &&& next.wf()
        &&& r == accepts(self.stored(), u)
        &&& next.stored() == after_push(self.stored(), u)
        &&& next.max_depth() == self.max_depth()
        &&& r ==> next.ready() == self.ready().insert(u.url@)
        &&& !r ==> next == *self
    }

    /// One call of `next_url` takes `self` to `next` and returns `r`.
    pub open spec fn pops(&self, next: Self, r: Option<Url>) -> bool {
        &&& next.wf()
        &&& next.stored() == self.stored()
        &&& next.max_depth() == self.max_depth()
        &&& match r {
            None => {
                &&& next == *self
                &&& forall|a: Seq<char>| #[trigger]
                    self.ready().contains(a) ==> self.stored()[a].deep > self.max_depth()
            },
            Some(u) => {
                &&& self.ready().contains(u.url@)
                &&& u == self.stored()[u.url@]
                &&& u.deep <= self.max_depth()
                &&& forall|a: Seq<char>| #[trigger]
                    self.ready().contains(a) ==> u.deep <= self.stored()[a].deep
                &&& next.ready() == self.ready().remove(u.url@)
            },
        }
    }

    proof fn lemma_index_of(&self, a: Seq<char>, j: int)
        requires
            self.wf(),
            0 <= j < self.entries@.len(),
            self.entries@[j].url@ == a,
        ensures
            self.has(a),
            self.index_of(a) == j,
    {
        let i = self.index_of(a);
        assert(self.entries@[i].url@ == self.entries@[j].url@);
    }

    /// Offers `url` to the frontier. It is accepted, and returns `true`, when its
    /// address is new or when it comes at a strictly smaller depth than the stored
    /// one; it then replaces the stored location and becomes ready to pop again.
    /// Otherwise nothing changes and `false` is returned.
    pub fn push_url(&mut self, url: Url) -> (r: bool)
        requires
            old(self).wf(),
        ensures
            old(self).pushes(*final(self), url, r),
    {
        let ghost before = *self;
        let mut i: usize = 0;
        while i < self.entries.len()
            invariant
                *self == before,
                before == *old(self),
                self.wf(),
                0 <= i <= self.entries@.len(),
                forall|j: int| 0 <= j < i ==> #[trigger] self.entries@[j].url@ != url.url@,
            decreases self.entries@.len() - i,
        {
            if self.entries[i].url == url.url {
                proof {
                    self.lemma_index_of(url.url@, i as int);
                    assert(before.stored().contains_key(url.url@));
                    assert(before.stored()[url.url@] == before.entries@[i as int]);
                }
                if url.deep < self.entries[i].deep {
                    queue_push(&mut self.pq, i, url.deep);
                    self.entries.set(i, url);
                    proof {
                        self.lemma_put(before, i);
                        assert(self.entries@[i as int] == url);
                    }
                    return true;
                } else {
                    return false;
                }
            }
            i = i + 1;
        }
        proof {
            assert(!before.has(url.url@));
        }
        let n = self.entries.len();
        queue_push(&mut self.pq, n, url.deep);
        self.entries.push(url);
        proof {
            self.lemma_put(before, n);
        }
        true
    }

    /// Entry `i` now holds `self.entries@[i]`: either it replaces an entry of the
    /// same address, or it is appended with an address that was not stored.
    proof fn lemma_put(&self, before: Self, i: usize)
        requires
            before.wf(),
            i <= before.entries@.len(),
            i < before.entries@.len() ==> self.entries@ == before.entries@.update(
                i as int,
                self.entries@[i as int],
            ) && self.entries@[i as int].url@ == before.entries@[i as int].url@,
            i == before.entries@.len() ==> self.entries@ == before.entries@.push(
                self.entries@[i as int],
            ) && !before.has(self.entries@[i as int].url@),
            queued(self.pq) == queued(before.pq).insert(i, self.entries@[i as int].deep as int),
            self.max_deep == before.max_deep,
        ensures
            self.wf(),
            self.stored() == before.stored().insert(
                self.entries@[i as int].url@,
                self.entries@[i as int],
            ),
            self.ready() == before.ready().insert(self.entries@[i as int].url@),
    {
        let u = self.entries@[i as int];
        let n = before.entries@.len();
        assert(self.entries@.len() > i);
        assert forall|j: int| 0 <= j < self.entries@.len() && j != i implies self.entries@[j]
            == before.entries@[j] by {}
        assert forall|j: int| 0 <= j < self.entries@.len() && j != i implies #[trigger] self.entries@[j].url@
            != u.url@ by {
            if i < n {
                assert(before.entries@[j].url@ != before.entries@[i as int].url@);
            } else {
                assert(before.entries@[j].url@ == self.entries@[j].url@);
            }
        }
        assert forall|a: int, b: int|
            0 <= a < self.entries@.len() && 0 <= b < self.entries@.len() && a != b implies
                #[trigger] self.entries@[a].url@ != #[trigger] self.entries@[b].url@ by {
            if a != i && b != i {
                assert(before.entries@[a].url@ != before.entries@[b].url@);
            }
        }
        assert(self.wf());
        self.lemma_index_of(u.url@, i as int);
        assert forall|a: Seq<char>| a != u.url@ implies self.has(a) == before.has(a) && (self.has(
            a,
        ) ==> self.index_of(a) == before.index_of(a)) by {
            if self.has(a) {
                let j = self.index_of(a);
                before.lemma_index_of(a, j);
            }
            if before.has(a) {
                let j = before.index_of(a);
                self.lemma_index_of(a, j);
            }
        }
        assert(self.stored() =~= before.stored().insert(u.url@, u));
        assert forall|a: Seq<char>| #[trigger] self.ready().contains(a) implies before.ready().insert(
            u.url@,
        ).contains(a) by {
            let k = choose|k: usize| #[trigger] self.queues_at(k, a);
            if k != i {
                assert(before.queues_at(k, a));
            }
        }
        assert forall|a: Seq<char>| #[trigger] before.ready().insert(u.url@).contains(
            a,
        ) implies self.ready().contains(a) by {
            if a == u.url@ {
                assert(self.queues_at(i, a));
            } else {
                let k = choose|k: usize| #[trigger] before.queues_at(k, a);
                assert(self.queues_at(k, a));
            }
        }
        assert(self.ready() =~= before.ready().insert(u.url@));
    }

    /// Pops the shallowest ready location, unless none is ready or the shallowest
    /// lies beyond the maximum depth. A popped location stays stored.
    pub fn next_url(&mut self) -> (r: Option<Url>)
        requires
            old(self).wf(),
        ensures
            old(self).pops(*final(self), r),
    {
        let ghost before = *self;
        match queue_peek(&self.pq) {
            Some((_, d)) => {
                if d <= self.max_deep {
                    match queue_pop(&mut self.pq) {
                        Some((i, _)) => {
                            let u = self.entries[i].clone();
                            proof {
                                self.lemma_popped(before, i);
                            }
                            Some(u)
                        },
                        None => None,
                    }
                } else {
                    proof {
                        self.lemma_ready_depths();
                    }
                    None
                }
            },
            None => {
                proof {
                    self.lemma_ready_depths();
                }
                None
            },
        }
    }

    /// Each ready address is queued at its entry, with its stored depth.
    proof fn lemma_ready_depths(&self)
        requires
            self.wf(),
        ensures
            forall|a: Seq<char>| #[trigger]
                self.ready().contains(a) ==> {
                    let k = self.index_of(a) as usize;
                    &&& self.stored().contains_key(a)
                    &&& queued(self.pq).contains_key(k)
                    &&& queued(self.pq)[k] == self.stored()[a].deep as int
                },
    {
        assert forall|a: Seq<char>| #[trigger] self.ready().contains(a) implies {
            let k = self.index_of(a) as usize;
            &&& self.stored().contains_key(a)
            &&& queued(self.pq).contains_key(k)
            &&& queued(self.pq)[k] == self.stored()[a].deep as int
        } by {
            let k = choose|k: usize| #[trigger] self.queues_at(k, a);
            self.lemma_index_of(a, k as int);
        }
    }

    proof fn lemma_popped(&self, before: Self, i: usize)
        requires
            before.wf(),
            self.entries == before.entries,
            self.max_deep == before.max_deep,
            queued(before.pq).contains_key(i),
            queued(self.pq) == queued(before.pq).remove(i),
            forall|k: usize| #[trigger]
                queued(before.pq).contains_key(k) ==> queued(before.pq)[i] <= queued(before.pq)[k],
        ensures
            self.wf(),
            self.stored() == before.stored(),
            before.ready().contains(before.entries@[i as int].url@),
            before.stored()[before.entries@[i as int].url@] == before.entries@[i as int],
            forall|a: Seq<char>| #[trigger]
                before.ready().contains(a) ==> before.entries@[i as int].deep
                    <= before.stored()[a].deep,
            self.ready() == before.ready().remove(before.entries@[i as int].url@),
    {
        let u = before.entries@[i as int];
        before.lemma_index_of(u.url@, i as int);
        assert(before.queues_at(i, u.url@));
        assert(self.stored() =~= before.stored());
        before.lemma_ready_depths();
        assert forall|a: Seq<char>| #[trigger] self.ready().contains(a) implies before.ready().remove(u.url@).contains(a) by {
            let k = choose|k: usize| #[trigger] self.queues_at(k, a);
            assert(before.queues_at(k, a));
        }
        assert forall|a: Seq<char>| #[trigger] before.ready().remove(u.url@).contains(a) implies self.ready().contains(a) by {
            let k = choose|k: usize| #[trigger] before.queues_at(k, a);
            assert(self.queues_at(k, a));
        }
        assert(self.ready() =~= before.ready().remove(u.url@));
    }

    /// Finitely many addresses are ready.
    pub proof fn lemma_ready_finite(&self)
        requires
            self.wf(),
        ensures
            self.ready().finite(),
    {
        let addrs = self.entries@.map_values(|u: Url| u.url@);
        assert forall|a: Seq<char>| #[trigger] self.ready().contains(a) implies addrs.to_set().contains(a) by {
            let k = choose|k: usize| #[trigger] self.queues_at(k, a);
            assert(addrs[k as int] == a);
        }
        vstd::seq_lib::seq_to_set_is_finite(addrs);
        vstd::set_lib::lemma_set_subset_finite(addrs.to_set(), self.ready());
    }

    /// An empty frontier that pops nothing deeper than `max_deep`.
    pub fn new(max_deep: i32) -> (r: BreadthFirstUrlManager)
        ensures
            r.wf(),
            r.stored() == Map::<Seq<char>, Url>::empty(),
            r.ready() == Set::<Seq<char>>::empty(),
            r.max_depth() == max_deep as int,
    {
        let r = BreadthFirstUrlManager { max_deep, entries: Vec::new(), pq: queue_new() };
        assert(r.stored() =~= Map::<Seq<char>, Url>::empty());
        assert(r.ready() =~= Set::<Seq<char>>::empty());
        r
    }
}

/// Depth monotonicity: whatever locations are pushed, in whatever order, onto an
/// empty frontier, an address is stored exactly when it was pushed, and the
/// location stored for it is one of those pushed for it at the least depth. Pops
/// leave what is stored unchanged, so this holds whatever pops come between.
pub proof fn lemma_stored_depth_is_minimum(us: Seq<Url>, a: Seq<char>)
    ensures
        after_pushes(Map::empty(), us).contains_key(a) <==> exists|i: int|
            0 <= i < us.len() && #[trigger] us[i].url@ == a,
        after_pushes(Map::empty(), us).contains_key(a) ==> {
            let m = after_pushes(Map::empty(), us)[a];
            &&& forall|i: int| 0 <= i < us.len() && #[trigger] us[i].url@ == a ==> m.deep <= us[i].deep
            &&& exists|i: int| 0 <= i < us.len() && #[trigger] us[i] == m && m.url@ == a
        },
    decreases us.len(),
{
    if us.len() > 0 {
        let init = us.drop_last();
        let u = us.last();
        let n = us.len() - 1;
        lemma_stored_depth_is_minimum(init, a);
        let before = after_pushes(Map::empty(), init);
        let after = after_pushes(Map::empty(), us);
        assert(after == after_push(before, u));
        assert forall|i: int| 0 <= i < n implies #[trigger] init[i] == us[i] by {}
        if after.contains_key(a) {
            let m = after[a];
            if u.url@ == a && accepts(before, u) {
                assert(m == u);
                assert(us[n] == m);
                assert forall|i: int| 0 <= i < us.len() && #[trigger] us[i].url@ == a implies m.deep
                    <= us[i].deep by {
                    if i < n {
                        assert(init[i].url@ == a);
                    }
                }
            } else {
                assert(before.contains_key(a));
                assert(m == before[a]);
                let j = choose|j: int| 0 <= j < init.len() && #[trigger] init[j] == m && m.url@ == a;
                assert(us[j] == m);
                assert forall|i: int| 0 <= i < us.len() && #[trigger] us[i].url@ == a implies m.deep
                    <= us[i].deep by {
                    if i < n {
                        assert(init[i].url@ == a);
                    }
                }
            }
        } else {
            assert forall|i: int| 0 <= i < us.len() implies #[trigger] us[i].url@ != a by {
                if i < n {
                    assert(init[i].url@ != a);
                }
            }
        }
        if exists|i: int| 0 <= i < us.len() && #[trigger] us[i].url@ == a {
            let i = choose|i: int| 0 <= i < us.len() && #[trigger] us[i].url@ == a;
            if i < n {
                assert(init[i].url@ == a);
            }
        }
    }
}

impl BreadthFirstUrlManager {
    /// Depth-ordered pop: while two addresses are ready, the deeper is not popped
    /// before the shallower; when the deeper is within the maximum depth a pop
    /// yields a location; and no pop ever yields a location beyond the maximum depth.
    pub proof fn lemma_pop_order(
        &self,
        next: Self,
        r: Option<Url>,
        shallow: Seq<char>,
        deep: Seq<char>,
    )
        requires
            self.pops(next, r),
            self.ready().contains(shallow),
            self.ready().contains(deep),
            self.stored()[shallow].deep < self.stored()[deep].deep,
        ensures
            self.stored()[deep].deep <= self.max_depth() ==> r is Some,
            r matches Some(u) ==> u.url@ != deep && u.deep <= self.max_depth(),
    {
    }

    /// Two pops in a row, with no push between them, come out in order of depth.
    pub proof fn lemma_pops_ascend(&self, mid: Self, last: Self, first_out: Url, second_out: Url)
        requires
            self.pops(mid, Some(first_out)),
            mid.pops(last, Some(second_out)),
        ensures
            first_out.deep <= second_out.deep,
    {
        assert(self.ready().contains(second_out.url@));
    }

    /// Idempotent re-push: pushing a location and then the same address at the same
    /// depth again, the second push is refused and changes nothing; the first is
    /// accepted when the address was new.
    pub proof fn lemma_repush_refused(
        &self,
        mid: Self,
        last: Self,
        u: Url,
        v: Url,
        first: bool,
        second: bool,
    )
        requires
            self.pushes(mid, u, first),
            mid.pushes(last, v, second),
            v.url@ == u.url@,
            v.deep == u.deep,
        ensures
            !self.stored().contains_key(u.url@) ==> first,
            !second,
            last == mid,
    {
    }
}

} // verus!
