//! The coordinator: the single owner of the frontier and of the count of fetches
//! in flight. It decides which locations to launch and when the crawl is over;
//! whoever runs the fetches reports each discovery and each completion back.
use vstd::prelude::*;
use crate::location::Url;
use crate::url_manager::BreadthFirstUrlManager;

verus! {

/// The life cycle of a crawl.
#[derive(Debug, Clone, Copy, PartialEq, Eq, Structural)]
pub enum Status {
    Init,
    Running,
    Finished,
}

/// Why a crawl cannot start.
#[derive(Debug, Clone, Copy, PartialEq, Eq, Structural)]
pub enum StartError {
    /// The crawl was started before.
    AlreadyRunning,
    /// No element handler is registered, so nothing would consume the content.
    NoHandler,
}

/// What the coordinator asks for after a decision.
#[derive(Debug)]
pub enum Step {
    /// Launch one fetch for each of these locations, and keep waiting for signals.
    Launch(Vec<Url>),
    /// No fetch is in flight and nothing is left to pop: the crawl is over.
    Finished,
}

/// The addresses of `us`.
pub open spec fn addresses(us: Seq<Url>) -> Set<Seq<char>> {
    Set::new(|a: Seq<char>| exists|i: int| 0 <= i < us.len() && #[trigger] us[i].url@ == a)
}

/// The ready addresses of `f` that are within its maximum depth: those it can pop.
pub open spec fn live(f: BreadthFirstUrlManager) -> Set<Seq<char>> {
    f.ready().filter(|a: Seq<char>| f.stored()[a].deep <= f.max_depth())
}

/// Popping `launched` in turn took the frontier from `before` to `after` and the
/// count of running fetches from `running_before` to `running_after`: shallowest
/// first, one fetch each, and stopping only at the budget or when nothing was
/// left to pop.
pub open spec fn launches(
    before: BreadthFirstUrlManager,
    after: BreadthFirstUrlManager,
    launched: Seq<Url>,
    running_before: int,
    running_after: int,
    max_tasks: int,
) -> bool {
    &&& after.wf()
    &&& after.stored() == before.stored()
    &&& after.max_depth() == before.max_depth()
    &&& running_after == running_before + launched.len()
    &&& running_after <= max_tasks
    &&& forall|i: int|
        0 <= i < launched.len() ==> {
            &&& live(before).contains(#[trigger] launched[i].url@)
            &&& launched[i] == before.stored()[launched[i].url@]
        }
    &&& forall|i: int, j: int|
        0 <= i < j < launched.len() ==> #[trigger] launched[i].url@ != #[trigger] launched[j].url@
            && launched[i].deep <= launched[j].deep
    &&& forall|i: int, a: Seq<char>|
        0 <= i < launched.len() && #[trigger] after.ready().contains(a) ==> #[trigger] launched[i].deep
            <= after.stored()[a].deep
    &&& after.ready() == before.ready().difference(addresses(launched))
    &&& live(after).len() + running_after == live(before).len() + running_before
    &&& running_after < max_tasks ==> live(after) == Set::<Seq<char>>::empty()
}

/// A crawl coordinator over a breadth-first frontier.
pub struct Scheduler {
    url_manager: BreadthFirstUrlManager,
    max_task_num: usize,
    running: usize,
    status: Status,
}

impl Scheduler {
    /// The frontier.
    pub closed spec fn frontier(&self) -> BreadthFirstUrlManager {
        self.url_manager
    }

    /// How many fetches may run at once.
    pub closed spec fn max_tasks(&self) -> int {
        self.max_task_num as int
    }

    /// How many fetches are in flight.
    pub closed spec fn running(&self) -> int {
        self.running as int
    }

    /// Where the crawl stands in its life cycle.
    pub closed spec fn status(&self) -> Status {
        self.status
    }

    /// The frontier is well formed, the budget allows at least one fetch and is
    /// respected, and fetches are in flight only while the crawl runs.
    pub open spec fn wf(&self) -> bool {
        &&& self.frontier().wf()
        &&& 1 <= self.max_tasks()
        &&& 0 <= self.running() <= self.max_tasks()
        &&& self.status() != Status::Running ==> self.running() == 0
    }

    /// The work not yet done: locations that can still be popped, and fetches in flight.
    pub open spec fn pending(&self) -> int {
        live(self.frontier()).len() + self.running()
    }

    /// The decision `step` took the coordinator from `self` to `next`, when
    /// `running_before` fetches were in flight before it launched any.
    pub open spec fn advances(&self, next: Self, step: Step, running_before: int) -> bool {
        &&& next.wf()
        &&& next.max_tasks() == self.max_tasks()
        &&& match step {
            Step::Finished => {
                &&& next.status() == Status::Finished
                &&& next.running() == 0
                &&& launches(
                    self.frontier(),
                    next.frontier(),
                    Seq::empty(),
                    running_before,
                    0,
                    self.max_tasks(),
                )
            },
            Step::Launch(v) => {
                &&& next.status() == Status::Running
                &&& next.running() > 0
                &&& launches(
                    self.frontier(),
                    next.frontier(),
                    v@,
                    running_before,
                    next.running(),
                    self.max_tasks(),
                )
            },
        }
    }

    /// Termination, for the decisions: a completion lowers the pending work
    /// (locations that can still be popped, plus fetches in flight) by exactly one,
    /// and the coordinator finishes exactly when no work is pending. Together with
    /// `lemma_start_progress` and `lemma_push_progress`: a crawl from finitely many
    /// seeds that accepts finitely many discoveries finishes after finitely many
    /// completions, and one without discoveries after exactly as many completions
    /// as locations it could pop at the start.
    pub proof fn lemma_completion_progress(&self, next: Self, step: Step)
        requires
            self.wf(),
            self.running() > 0,
            self.advances(next, step, self.running() - 1),
        ensures
            next.pending() == self.pending() - 1,
            step is Finished <==> next.pending() == 0,
    {
        if next.running() < next.max_tasks() {
            assert(live(next.frontier()).len() == 0);
        }
    }

    /// Starting launches fetches without changing the pending work, and finishes at
    /// once exactly when no work is pending.
    pub proof fn lemma_start_progress(&self, next: Self, step: Step)
        requires
            self.wf(),
            self.running() == 0,
            self.advances(next, step, 0),
        ensures
            next.pending() == self.pending(),
            step is Finished <==> next.pending() == 0,
    {
        if next.running() < next.max_tasks() {
            assert(live(next.frontier()).len() == 0);
        }
    }

    /// A push adds at most one to the pending work, and a refused push adds none.
    pub proof fn lemma_push_progress(&self, next: Self, u: Url, accepted: bool)
        requires
            self.wf(),
            self.frontier().pushes(next.frontier(), u, accepted),
            next.running() == self.running(),
        ensures
            next.pending() <= self.pending() + 1,
            !accepted ==> next.pending() == self.pending(),
    {
        let f = self.frontier();
        let g = next.frontier();
        f.lemma_ready_finite();
        vstd::set_lib::lemma_set_subset_finite(f.ready(), live(f));
        if accepted {
            assert(live(g).subset_of(live(f).insert(u.url@)));
            vstd::set_lib::lemma_len_subset(live(g), live(f).insert(u.url@));
        }
    }

    /// A coordinator that runs at most `max_task_num` fetches at once.
    pub fn new(url_manager: BreadthFirstUrlManager, max_task_num: usize) -> (r: Scheduler)
        requires
            url_manager.wf(),
            max_task_num >= 1,
        ensures
            r.wf(),
            r.frontier() == url_manager,
            r.max_tasks() == max_task_num,
            r.running() == 0,
            r.status() == Status::Init,
    {
        Scheduler { url_manager, max_task_num, running: 0, status: Status::Init }
    }

    /// How many fetches are in flight.
    pub fn in_flight(&self) -> (r: usize)
        ensures
            r == self.running(),
    {
        self.running
    }

    /// Where the crawl stands in its life cycle.
    pub fn current_status(&self) -> (r: Status)
        ensures
            r == self.status(),
    {
        self.status
    }

    /// Offers a location to the frontier: a seed before the start, or a discovery
    /// reported by a fetch in flight.
    pub fn push_url(&mut self, url: Url) -> (r: bool)
        requires
            old(self).wf(),
        ensures
            final(self).wf(),
            old(self).frontier().pushes(final(self).frontier(), url, r),
            final(self).max_tasks() == old(self).max_tasks(),
            final(self).running() == old(self).running(),
            final(self).status() == old(self).status(),
    {
        self.url_manager.push_url(url)
    }

    /// Pops locations while the budget allows and the frontier yields them.
    fn top_up(&mut self) -> (launched: Vec<Url>)
        requires
            old(self).wf(),
            old(self).status() == Status::Running,
        ensures
            final(self).wf(),
            final(self).max_tasks() == old(self).max_tasks(),
            final(self).status() == old(self).status(),
            launches(
                old(self).frontier(),
                final(self).frontier(),
                launched@,
                old(self).running(),
                final(self).running(),
                old(self).max_tasks(),
            ),
    {
        let ghost before = *self;
        let mut launched: Vec<Url> = Vec::new();
        let mut drained = false;
        proof {
            before.url_manager.lemma_ready_finite();
            assert(addresses(launched@) =~= Set::<Seq<char>>::empty());
            assert(before.url_manager.ready().difference(addresses(launched@))
                =~= before.url_manager.ready());
        }
        while self.running < self.max_task_num && !drained
            invariant
                before == *old(self),
                before.wf(),
                self.url_manager.wf(),
                self.max_task_num == before.max_task_num,
                self.status == before.status,
                self.running <= self.max_task_num,
                self.url_manager.stored() == before.url_manager.stored(),
                self.url_manager.max_depth() == before.url_manager.max_depth(),
                self.running == before.running + launched@.len(),
                forall|i: int|
                    0 <= i < launched@.len() ==> {
                        &&& live(before.url_manager).contains(#[trigger] launched@[i].url@)
                        &&& launched@[i] == before.url_manager.stored()[launched@[i].url@]
                    },
                forall|i: int, j: int|
                    0 <= i < j < launched@.len() ==> #[trigger] launched@[i].url@
                        != #[trigger] launched@[j].url@ && launched@[i].deep <= launched@[j].deep,
                forall|i: int, a: Seq<char>|
                    0 <= i < launched@.len() && #[trigger] self.url_manager.ready().contains(a)
                        ==> #[trigger] launched@[i].deep <= self.url_manager.stored()[a].deep,
                self.url_manager.ready() == before.url_manager.ready().difference(
                    addresses(launched@),
                ),
                live(self.url_manager).finite(),
                live(self.url_manager).len() + self.running == live(before.url_manager).len()
                    + before.running,
                drained ==> live(self.url_manager) == Set::<Seq<char>>::empty(),
            decreases self.max_task_num - self.running, if drained { 0int } else { 1int },
        {
            let ghost cur = self.url_manager;
            match self.url_manager.next_url() {
                Some(u) => {
                    proof {
                        self.lemma_launch_one(before, cur, launched@, u);
                    }
                    let ghost prev = launched@;
                    let ghost gu = u;
                    launched.push(u);
                    self.running = self.running + 1;
                    proof {
                        assert forall|i: int, j: int|
                            0 <= i < j < launched@.len() implies #[trigger] launched@[i].url@
                            != #[trigger] launched@[j].url@ && launched@[i].deep
                            <= launched@[j].deep by {
                            if j == prev.len() {
                                assert(launched@[j] == gu);
                                assert(launched@[i] == prev[i]);
                            } else {
                                assert(launched@[i] == prev[i]);
                                assert(launched@[j] == prev[j]);
                            }
                        }
                    }
                },
                None => {
                    proof {
                        assert(live(self.url_manager) =~= Set::<Seq<char>>::empty());
                    }
                    drained = true;
                },
            }
        }
        launched
    }

    proof fn lemma_launch_one(
        &self,
        before: Self,
        cur: BreadthFirstUrlManager,
        launched: Seq<Url>,
        u: Url,
    )
        requires
            cur.pops(self.url_manager, Some(u)),
            cur.wf(),
            cur.stored() == before.url_manager.stored(),
            cur.max_depth() == before.url_manager.max_depth(),
            forall|i: int|
                0 <= i < launched.len() ==> {
                    &&& live(before.url_manager).contains(#[trigger] launched[i].url@)
                    &&& launched[i] == before.url_manager.stored()[launched[i].url@]
                },
            forall|i: int, a: Seq<char>|
                0 <= i < launched.len() && #[trigger] cur.ready().contains(a) ==> #[trigger] launched[i].deep
                    <= cur.stored()[a].deep,
            cur.ready() == before.url_manager.ready().difference(addresses(launched)),
            live(cur).finite(),
        ensures
            live(before.url_manager).contains(u.url@),
            u == before.url_manager.stored()[u.url@],
            forall|i: int| 0 <= i < launched.len() ==> #[trigger] launched[i].url@ != u.url@
                && launched[i].deep <= u.deep,
            forall|a: Seq<char>| #[trigger]
                self.url_manager.ready().contains(a) ==> u.deep <= self.url_manager.stored()[a].deep,
            self.url_manager.ready() == before.url_manager.ready().difference(
                addresses(launched.push(u)),
            ),
            live(self.url_manager) == live(cur).remove(u.url@),
            live(cur).contains(u.url@),
            live(self.url_manager).finite(),
    {
        let next = self.url_manager;
        assert forall|i: int| 0 <= i < launched.len() implies #[trigger] launched[i].url@ != u.url@
            && launched[i].deep <= u.deep by {
            if launched[i].url@ == u.url@ {
                assert(addresses(launched).contains(u.url@));
            }
        }
        let l2 = launched.push(u);
        assert forall|a: Seq<char>| #[trigger] addresses(l2).contains(a) <==> addresses(
            launched,
        ).contains(a) || a == u.url@ by {
            if a == u.url@ {
                assert(l2[launched.len() as int].url@ == a);
            }
            if addresses(launched).contains(a) {
                let i = choose|i: int| 0 <= i < launched.len() && #[trigger] launched[i].url@ == a;
                assert(l2[i].url@ == a);
            }
            if addresses(l2).contains(a) && a != u.url@ {
                let i = choose|i: int| 0 <= i < l2.len() && #[trigger] l2[i].url@ == a;
                assert(launched[i].url@ == a);
            }
        }
        assert(next.ready() =~= before.url_manager.ready().difference(addresses(l2)));
        assert(live(next) =~= live(cur).remove(u.url@));
    }

    /// Starts the crawl: refused when it was started before, or when no element
    /// handler is registered; otherwise launches what the budget allows, and
    /// finishes at once when nothing could be launched.
    pub fn start(&mut self, n_element_handlers: usize) -> (r: Result<Step, StartError>)
        requires
            old(self).wf(),
        ensures
            old(self).status() != Status::Init ==> r == Err::<Step, StartError>(
                StartError::AlreadyRunning,
            ) && *final(self) == *old(self),
            old(self).status() == Status::Init && n_element_handlers == 0 ==> r == Err::<
                Step,
                StartError,
            >(StartError::NoHandler) && *final(self) == *old(self),
            old(self).status() == Status::Init && n_element_handlers > 0 ==> (r matches Ok(step)
                && old(self).advances(*final(self), step, 0)),
    {
        if self.status != Status::Init {
            return Err(StartError::AlreadyRunning);
        }
        if n_element_handlers == 0 {
            return Err(StartError::NoHandler);
        }
        self.status = Status::Running;
        Ok(self.decide())
    }

    /// Takes the report that a fetch in flight has completed, with all it
    /// discovered already pushed: frees its slot, launches what the budget allows,
    /// and finishes when nothing is in flight any more.
    pub fn on_completed(&mut self) -> (step: Step)
        requires
            old(self).wf(),
            old(self).status() == Status::Running,
            old(self).running() > 0,
        ensures
            old(self).advances(*final(self), step, old(self).running() - 1),
    {
        self.running = self.running - 1;
        self.decide()
    }

    fn decide(&mut self) -> (step: Step)
        requires
            old(self).frontier().wf(),
            1 <= old(self).max_tasks(),
            0 <= old(self).running() <= old(self).max_tasks(),
            old(self).status() == Status::Running,
        ensures
            old(self).advances(*final(self), step, old(self).running()),
    {
        let launched = self.top_up();
        if self.running == 0 {
            self.status = Status::Finished;
            proof {
                assert(launched@ =~= Seq::<Url>::empty());
            }
            Step::Finished
        } else {
            Step::Launch(launched)
        }
    }
}

} // verus!
