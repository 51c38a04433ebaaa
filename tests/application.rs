use web_snapshot::application::{StartError, Step};
use web_snapshot::{BreadthFirstUrlManager, Scheduler, Url};

fn launched(step: Step) -> Vec<String> {
    match step {
        Step::Launch(v) => v.into_iter().map(|u| u.url).collect(),
        Step::Finished => panic!("finished early"),
    }
}

#[test]
fn crawl_without_discoveries_finishes_after_one_round() {
    let mut s = Scheduler::new(BreadthFirstUrlManager::new(5), 10);
    for name in ["a", "b", "c"] {
        assert!(s.push_url(Url::new(name.to_string(), 0)));
    }
    let first = launched(s.start(1).unwrap());
    assert_eq!(first.len(), 3);
    assert!(matches!(s.on_completed(), Step::Launch(v) if v.is_empty()));
    assert!(matches!(s.on_completed(), Step::Launch(v) if v.is_empty()));
    assert!(matches!(s.on_completed(), Step::Finished));
}

#[test]
fn end_to_end_two_levels() {
    let mut s = Scheduler::new(BreadthFirstUrlManager::new(1), 10);
    assert!(s.push_url(Url::new("A".to_string(), 0)));
    assert_eq!(launched(s.start(1).unwrap()), vec!["A".to_string()]);
    // A's handler discovers B
    assert!(s.push_url(Url::new("B".to_string(), 1)));
    assert_eq!(launched(s.on_completed()), vec!["B".to_string()]);
    // B's handler discovers C, beyond the maximum depth: stored, never popped
    assert!(s.push_url(Url::new("C".to_string(), 2)));
    assert!(matches!(s.on_completed(), Step::Finished));
}

#[test]
fn budget_bounds_fetches_in_flight() {
    let mut s = Scheduler::new(BreadthFirstUrlManager::new(9), 2);
    for (i, d) in [3, 1, 2, 0, 4].iter().enumerate() {
        assert!(s.push_url(Url::new(format!("u{}", i), *d)));
    }
    assert_eq!(launched(s.start(1).unwrap()), vec!["u3".to_string(), "u1".to_string()]);
    assert_eq!(launched(s.on_completed()), vec!["u2".to_string()]);
    assert_eq!(launched(s.on_completed()), vec!["u0".to_string()]);
    assert_eq!(launched(s.on_completed()), vec!["u4".to_string()]);
    assert!(matches!(s.on_completed(), Step::Launch(v) if v.is_empty()));
    assert!(matches!(s.on_completed(), Step::Finished));
}

#[test]
fn start_with_empty_frontier_finishes_at_once() {
    let mut s = Scheduler::new(BreadthFirstUrlManager::new(3), 4);
    assert!(matches!(s.start(1), Ok(Step::Finished)));
}

#[test]
fn start_without_handlers_is_refused() {
    let mut s = Scheduler::new(BreadthFirstUrlManager::new(3), 4);
    assert!(s.push_url(Url::new("a".to_string(), 0)));
    assert!(matches!(s.start(0), Err(StartError::NoHandler)));
    assert_eq!(launched(s.start(2).unwrap()), vec!["a".to_string()]);
}

#[test]
fn second_start_is_refused() {
    let mut s = Scheduler::new(BreadthFirstUrlManager::new(3), 4);
    assert!(s.push_url(Url::new("a".to_string(), 0)));
    assert!(s.start(1).is_ok());
    assert!(matches!(s.start(1), Err(StartError::AlreadyRunning)));
    assert!(matches!(s.on_completed(), Step::Finished));
    assert!(matches!(s.start(1), Err(StartError::AlreadyRunning)));
}

#[test]
fn seed_beyond_max_depth_is_never_launched() {
    let mut s = Scheduler::new(BreadthFirstUrlManager::new(0), 4);
    assert!(s.push_url(Url::new("a".to_string(), 1)));
    assert!(matches!(s.start(1), Ok(Step::Finished)));
}
