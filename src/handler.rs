//! Classified content and the order in which handlers see it.
use vstd::prelude::*;
use bytes::Bytes;

verus! {

#[verifier::external_type_specification]
#[verifier::external_body]
pub struct ExBytes(Bytes);

/// The classified content of a successful fetch.
#[derive(Debug)]
#[allow(inconsistent_fields)]
pub enum Element {
    /// A markup (`text/html`) body.
    HTML(String),
    /// A structured (`application/json`) body.
    JSON(String),
    /// Another `text/*` body, with the media subtype.
    TEXT { body: String, subtype: String },
    /// An `image/*` body, with the media subtype.
    IMAGE { body: Bytes, subtype: String },
    /// Any other body, with the top-level media type and the subtype.
    OTHER { body: Bytes, c_type: String, subtype: String },
}

/// A handler invocation within the handling of one fetch.
#[derive(Debug, Clone, Copy, PartialEq, Eq, Structural)]
pub enum Call {
    /// Run the element handler at this index.
    Element(usize),
    /// Run the error handler at this index on the error at hand.
    Error(usize),
    /// The handling is over.
    Done,
}

/// Every error handler, in registration order.
pub open spec fn error_calls(n_error: nat) -> Seq<Call> {
    Seq::new(n_error, |j: int| Call::Error(j as usize))
}

/// The calls made when the element handlers, in order, end with `outcomes`
/// (`false` for a failure): each element handler, followed, when it failed, by
/// every error handler.
pub open spec fn element_calls(outcomes: Seq<bool>, n_error: nat) -> Seq<Call>
    decreases outcomes.len(),
{
    if outcomes.len() == 0 {
        Seq::empty()
    } else {
        element_calls(outcomes.drop_last(), n_error) + seq![
            Call::Element((outcomes.len() - 1) as usize),
        ] + if outcomes.last() {
            Seq::empty()
        } else {
            error_calls(n_error)
        }
    }
}

/// How many times `c` occurs in `s`.
pub open spec fn count_of(s: Seq<Call>, c: Call) -> nat
    decreases s.len(),
{
    if s.len() == 0 {
        0
    } else {
        count_of(s.drop_last(), c) + if s.last() == c {
            1nat
        } else {
            0nat
        }
    }
}

/// How many of `outcomes` are failures.
pub open spec fn failures(outcomes: Seq<bool>) -> nat
    decreases outcomes.len(),
{
    if outcomes.len() == 0 {
        0
    } else {
        failures(outcomes.drop_last()) + if outcomes.last() {
            0nat
        } else {
            1nat
        }
    }
}

proof fn lemma_count_concat(a: Seq<Call>, b: Seq<Call>, c: Call)
    ensures
        count_of(a + b, c) == count_of(a, c) + count_of(b, c),
    decreases b.len(),
{
    if b.len() > 0 {
        assert((a + b).drop_last() =~= a + b.drop_last());
        lemma_count_concat(a, b.drop_last(), c);
    } else {
        assert(a + b =~= a);
    }
}

proof fn lemma_count_errors(n: nat, c: Call)
    requires
        n <= usize::MAX,
    ensures
        count_of(error_calls(n), c) == match c {
            Call::Error(j) => if j < n {
                1nat
            } else {
                0nat
            },
            _ => 0nat,
        },
    decreases n,
{
    if n > 0 {
        assert(error_calls(n).drop_last() =~= error_calls((n - 1) as nat));
        lemma_count_errors((n - 1) as nat, c);
    }
}

proof fn lemma_count_single(x: Call, c: Call)
    ensures
        count_of(seq![x], c) == if x == c {
            1nat
        } else {
            0nat
        },
{
    let s = seq![x];
    assert(s.drop_last() =~= Seq::<Call>::empty());
    assert(s.last() == x);
    assert(count_of(s.drop_last(), c) == 0);
}

/// Error routing: when the element handlers, in order, end with `outcomes`, every
/// element handler is called exactly once, whatever the others did, and every
/// error handler is called exactly once per failure.
pub proof fn lemma_error_routing(outcomes: Seq<bool>, n_error: nat)
    requires
        outcomes.len() <= usize::MAX,
        n_error <= usize::MAX,
    ensures
        forall|i: int|
            0 <= i < outcomes.len() ==> #[trigger] count_of(
                element_calls(outcomes, n_error),
                Call::Element(i as usize),
            ) == 1,
        forall|j: int|
            0 <= j < n_error ==> #[trigger] count_of(
                element_calls(outcomes, n_error),
                Call::Error(j as usize),
            ) == failures(outcomes),
        count_of(element_calls(outcomes, n_error), Call::Done) == 0,
{
    lemma_routing_counts(outcomes, n_error);
}

proof fn lemma_routing_counts(outcomes: Seq<bool>, n_error: nat)
    requires
        outcomes.len() <= usize::MAX,
        n_error <= usize::MAX,
    ensures
        forall|i: int|
            0 <= i <= usize::MAX ==> #[trigger] count_of(
                element_calls(outcomes, n_error),
                Call::Element(i as usize),
            ) == if i < outcomes.len() {
                1nat
            } else {
                0nat
            },
        forall|j: int|
            0 <= j < n_error ==> #[trigger] count_of(
                element_calls(outcomes, n_error),
                Call::Error(j as usize),
            ) == failures(outcomes),
        count_of(element_calls(outcomes, n_error), Call::Done) == 0,
    decreases outcomes.len(),
{
    if outcomes.len() > 0 {
        let init = outcomes.drop_last();
        let n = outcomes.len() - 1;
        let head = element_calls(init, n_error);
        let mid = seq![Call::Element(n as usize)];
        let tail: Seq<Call> = if outcomes.last() {
            Seq::empty()
        } else {
            error_calls(n_error)
        };
        lemma_routing_counts(init, n_error);
        assert(element_calls(outcomes, n_error) == head + mid + tail);
        assert forall|c: Call|
            count_of(element_calls(outcomes, n_error), c) == count_of(head, c) + count_of(mid, c)
                + count_of(tail, c) by {
            lemma_count_concat(head + mid, tail, c);
            lemma_count_concat(head, mid, c);
            lemma_count_single(Call::Element(n as usize), c);
            lemma_count_errors(n_error, c);
        }
        assert forall|i: int| 0 <= i <= usize::MAX implies #[trigger] count_of(
            element_calls(outcomes, n_error),
            Call::Element(i as usize),
        ) == if i < outcomes.len() {
            1nat
        } else {
            0nat
        } by {
            let c = Call::Element(i as usize);
            lemma_count_single(Call::Element(n as usize), c);
            lemma_count_errors(n_error, c);
            assert(count_of(Seq::<Call>::empty(), c) == 0);
            assert(count_of(head, c) == if i < init.len() {
                1nat
            } else {
                0nat
            });
        }
        assert forall|j: int| 0 <= j < n_error implies #[trigger] count_of(
            element_calls(outcomes, n_error),
            Call::Error(j as usize),
        ) == failures(outcomes) by {
            let c = Call::Error(j as usize);
            lemma_count_single(Call::Element(n as usize), c);
            lemma_count_errors(n_error, c);
            assert(count_of(Seq::<Call>::empty(), c) == 0);
            assert(count_of(head, c) == failures(init));
        }
        lemma_count_single(Call::Element(n as usize), Call::Done);
        lemma_count_errors(n_error, Call::Done);
        assert(count_of(Seq::<Call>::empty(), Call::Done) == 0);
    }
}

/// The order in which the handlers of one fetch run: after a successful fetch,
/// each element handler, followed by the whole error chain whenever it fails; after
/// a failed fetch, the error chain once.
pub struct HandlerChain {
    n_element: usize,
    n_error: usize,
    current: Call,
    resume: usize,
    fetch_failed: bool,
    outcomes: Ghost<Seq<bool>>,
    calls: Ghost<Seq<Call>>,
}

impl HandlerChain {
    /// The call to make now.
    pub closed spec fn current(&self) -> Call {
        self.current
    }

    /// The outcomes of the element handlers run so far.
    pub closed spec fn outcomes(&self) -> Seq<bool> {
        self.outcomes@
    }

    /// The calls made so far.
    pub closed spec fn calls(&self) -> Seq<Call> {
        self.calls@
    }

    /// How many element handlers are registered.
    pub closed spec fn element_count(&self) -> nat {
        self.n_element as nat
    }

    /// How many error handlers are registered.
    pub closed spec fn error_count(&self) -> nat {
        self.n_error as nat
    }

    /// Whether the fetch failed, so that only the error chain runs.
    pub closed spec fn for_failed_fetch(&self) -> bool {
        self.fetch_failed
    }

    /// The calls made so far are those that `element_calls` (or `error_calls`, after
    /// a failed fetch) prescribes for the outcomes seen so far, up to the current call.
    pub closed spec fn wf(&self) -> bool {
        match self.current {
            Call::Element(i) => {
                &&& !self.fetch_failed
                &&& i < self.n_element
                &&& self.outcomes@.len() == i
                &&& self.calls@ == element_calls(self.outcomes@, self.n_error as nat)
            },
            Call::Error(j) => {
                &&& j < self.n_error
                &&& self.fetch_failed ==> self.calls@ == error_calls(j as nat) && self.outcomes@.len() == 0
                &&& !self.fetch_failed ==> {
                    &&& 1 <= self.resume <= self.n_element
                    &&& self.outcomes@.len() == self.resume
                    &&& !self.outcomes@.last()
                    &&& self.calls@ == element_calls(self.outcomes@.drop_last(), self.n_error as nat)
                        + seq![Call::Element((self.resume - 1) as usize)] + error_calls(j as nat)
                }
            },
            Call::Done => {
                &&& self.fetch_failed ==> self.calls@ == error_calls(self.n_error as nat)
                    && self.outcomes@.len() == 0
                &&& !self.fetch_failed ==> self.outcomes@.len() == self.n_element && self.calls@
                    == element_calls(self.outcomes@, self.n_error as nat)
            },
        }
    }

    /// When the handling is over, the calls made were exactly: after a failed
    /// fetch, every error handler once; after a successful one, every element
    /// handler in order, each followed by every error handler when it failed.
    pub proof fn lemma_done_calls(&self)
        requires
            self.wf(),
            self.current() == Call::Done,
        ensures
            self.for_failed_fetch() ==> self.calls() == error_calls(self.error_count()),
            !self.for_failed_fetch() ==> self.outcomes().len() == self.element_count()
                && self.calls() == element_calls(self.outcomes(), self.error_count()),
    {
    }

    /// The handling of a successful fetch.
    pub fn for_element(n_element: usize, n_error: usize) -> (r: HandlerChain)
        ensures
            r.wf(),
            !r.for_failed_fetch(),
            r.element_count() == n_element,
            r.error_count() == n_error,
            r.outcomes() == Seq::<bool>::empty(),
            r.calls() == Seq::<Call>::empty(),
            r.current() == if n_element > 0 {
                Call::Element(0)
            } else {
                Call::Done
            },
    {
        let current = if n_element > 0 {
            Call::Element(0)
        } else {
            Call::Done
        };
        HandlerChain {
            n_element,
            n_error,
            current,
            resume: 0,
            fetch_failed: false,
            outcomes: Ghost(Seq::empty()),
            calls: Ghost(Seq::empty()),
        }
    }

    /// The handling of a failed fetch.
    pub fn for_error(n_element: usize, n_error: usize) -> (r: HandlerChain)
        ensures
            r.wf(),
            r.for_failed_fetch(),
            r.element_count() == n_element,
            r.error_count() == n_error,
            r.outcomes() == Seq::<bool>::empty(),
            r.calls() == Seq::<Call>::empty(),
            r.current() == if n_error > 0 {
                Call::Error(0)
            } else {
                Call::Done
            },
    {
        let current = if n_error > 0 {
            Call::Error(0)
        } else {
            Call::Done
        };
        let r = HandlerChain {
            n_element,
            n_error,
            current,
            resume: 0,
            fetch_failed: true,
            outcomes: Ghost(Seq::empty()),
            calls: Ghost(Seq::empty()),
        };
        proof {
            assert(error_calls(0) =~= Seq::<Call>::empty());
        }
        r
    }

    /// The call to make now.
    pub fn next_call(&self) -> (r: Call)
        ensures
            r == self.current(),
    {
        self.current
    }

    /// Records the outcome of the element handler that was called.
    pub fn element_done(&mut self, ok: bool)
        requires
            old(self).wf(),
            old(self).current() is Element,
        ensures
            final(self).wf(),
            final(self).outcomes() == old(self).outcomes().push(ok),
            final(self).calls() == old(self).calls().push(old(self).current()),
            final(self).for_failed_fetch() == old(self).for_failed_fetch(),
            final(self).element_count() == old(self).element_count(),
            final(self).error_count() == old(self).error_count(),
            final(self).current() == if !ok && old(self).error_count() > 0 {
                Call::Error(0)
            } else if old(self).outcomes().len() + 1 < old(self).element_count() {
                Call::Element((old(self).outcomes().len() + 1) as usize)
            } else {
                Call::Done
            },
    {
        let i = match self.current {
            Call::Element(i) => i,
            _ => 0,
        };
        let ghost prev = self.outcomes@;
        self.outcomes = Ghost(self.outcomes@.push(ok));
        self.calls = Ghost(self.calls@.push(Call::Element(i)));
        proof {
            assert(self.outcomes@.drop_last() =~= prev);
        }
        if !ok && self.n_error > 0 {
            self.current = Call::Error(0);
            self.resume = i + 1;
            proof {
                assert(self.calls@ =~= element_calls(prev, self.n_error as nat) + seq![
                    Call::Element(i),
                ] + error_calls(0));
            }
        } else {
            proof {
                if !ok {
                    assert(error_calls(self.n_error as nat) =~= Seq::<Call>::empty());
                }
                assert(self.calls@ =~= element_calls(self.outcomes@, self.n_error as nat));
            }
            if i + 1 < self.n_element {
                self.current = Call::Element(i + 1);
            } else {
                self.current = Call::Done;
            }
        }
    }

    /// Records that the error handler that was called has run.
    pub fn error_done(&mut self)
        requires
            old(self).wf(),
            old(self).current() is Error,
        ensures
            final(self).wf(),
            final(self).outcomes() == old(self).outcomes(),
            final(self).calls() == old(self).calls().push(old(self).current()),
            final(self).for_failed_fetch() == old(self).for_failed_fetch(),
            final(self).element_count() == old(self).element_count(),
            final(self).error_count() == old(self).error_count(),
            match old(self).current() {
                Call::Error(j) => final(self).current() == if j + 1 < old(self).error_count() {
                    Call::Error((j + 1) as usize)
                } else if old(self).for_failed_fetch() || old(self).outcomes().len()
                    == old(self).element_count() {
                    Call::Done
                } else {
                    Call::Element(old(self).outcomes().len() as usize)
                },
                _ => true,
            },
    {
        let j = match self.current {
            Call::Error(j) => j,
            _ => 0,
        };
        self.calls = Ghost(self.calls@.push(Call::Error(j)));
        proof {
            if self.fetch_failed {
                assert(self.calls@ =~= error_calls((j + 1) as nat));
            } else {
                let head = element_calls(self.outcomes@.drop_last(), self.n_error as nat) + seq![
                    Call::Element((self.resume - 1) as usize),
                ];
                assert(self.calls@ =~= head + error_calls((j + 1) as nat));
            }
        }
        if j + 1 < self.n_error {
            self.current = Call::Error(j + 1);
        } else if self.fetch_failed || self.resume >= self.n_element {
            self.current = Call::Done;
        } else {
            self.current = Call::Element(self.resume);
        }
    }
}

} // verus!
