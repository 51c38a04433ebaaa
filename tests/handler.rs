use web_snapshot::handler::{Call, HandlerChain};

/// Drives a chain, answering element calls with `outcomes` in order.
fn run(mut chain: HandlerChain, outcomes: &[bool]) -> Vec<Call> {
    let mut calls = Vec::new();
    let mut next = outcomes.iter();
    loop {
        let c = chain.next_call();
        match c {
            Call::Element(_) => chain.element_done(*next.next().unwrap()),
            Call::Error(_) => chain.error_done(),
            Call::Done => return calls,
        }
        calls.push(c);
    }
}

#[test]
fn failing_handler_reports_each_failure_once_and_the_rest_still_run() {
    let calls = run(HandlerChain::for_element(3, 2), &[true, false, true]);
    assert_eq!(
        calls,
        vec![
            Call::Element(0),
            Call::Element(1),
            Call::Error(0),
            Call::Error(1),
            Call::Element(2),
        ]
    );
}

#[test]
fn always_failing_handlers_report_every_time() {
    let calls = run(HandlerChain::for_element(2, 1), &[false, false]);
    assert_eq!(calls, vec![Call::Element(0), Call::Error(0), Call::Element(1), Call::Error(0)]);
}

#[test]
fn last_handler_failing_still_reports() {
    let calls = run(HandlerChain::for_element(1, 3), &[false]);
    assert_eq!(calls, vec![Call::Element(0), Call::Error(0), Call::Error(1), Call::Error(2)]);
}

#[test]
fn failure_without_error_handlers_goes_on() {
    let calls = run(HandlerChain::for_element(2, 0), &[false, true]);
    assert_eq!(calls, vec![Call::Element(0), Call::Element(1)]);
}

#[test]
fn failed_fetch_runs_error_chain_once_and_no_element_handler() {
    let calls = run(HandlerChain::for_error(3, 2), &[]);
    assert_eq!(calls, vec![Call::Error(0), Call::Error(1)]);
    let none = run(HandlerChain::for_error(3, 0), &[]);
    assert!(none.is_empty());
}

#[test]
fn no_element_handlers_is_done_at_once() {
    assert_eq!(HandlerChain::for_element(0, 4).next_call(), Call::Done);
}
