use web_snapshot::{BreadthFirstUrlManager, Url};

#[test]
fn breadth_first_url_manager_test() {
    let mut um = BreadthFirstUrlManager::new(3);

    um.push_url(Url::new("google".to_string(), 3));
    um.push_url(Url::new("bing".to_string(), 2));
    um.push_url(Url::new("apple".to_string(), 4));

    assert_eq!(um.next_url().unwrap().url, "bing");
    assert_eq!(um.next_url().unwrap().url, "google");
    assert!(um.next_url().is_none());
}

#[test]
fn lower_depth_replaces_stored_depth() {
    let mut um = BreadthFirstUrlManager::new(10);
    assert!(um.push_url(Url::new("a".to_string(), 5)));
    assert!(!um.push_url(Url::new("a".to_string(), 7)));
    assert!(um.push_url(Url::new("a".to_string(), 2)));
    assert!(!um.push_url(Url::new("a".to_string(), 2)));
    assert!(um.push_url(Url::new("b".to_string(), 3)));
    let first = um.next_url().unwrap();
    assert_eq!(first.url, "a");
    assert_eq!(first.deep, 2);
    assert_eq!(um.next_url().unwrap().url, "b");
    assert!(um.next_url().is_none());
}

#[test]
fn same_pair_pushed_twice_is_accepted_once() {
    let mut um = BreadthFirstUrlManager::new(5);
    assert!(um.push_url(Url::new("x".to_string(), 1)));
    assert!(!um.push_url(Url::new("x".to_string(), 1)));
    assert_eq!(um.next_url().unwrap().url, "x");
    assert!(um.next_url().is_none());
}

#[test]
fn popped_address_is_not_popped_again_at_same_or_greater_depth() {
    let mut um = BreadthFirstUrlManager::new(5);
    assert!(um.push_url(Url::new("x".to_string(), 3)));
    assert_eq!(um.next_url().unwrap().url, "x");
    assert!(!um.push_url(Url::new("x".to_string(), 3)));
    assert!(!um.push_url(Url::new("x".to_string(), 4)));
    assert!(um.next_url().is_none());
    assert!(um.push_url(Url::new("x".to_string(), 1)));
    let again = um.next_url().unwrap();
    assert_eq!(again.url, "x");
    assert_eq!(again.deep, 1);
}

#[test]
fn entries_beyond_max_depth_are_never_popped() {
    let mut um = BreadthFirstUrlManager::new(1);
    assert!(um.push_url(Url::new("deep".to_string(), 2)));
    for _ in 0..5 {
        assert!(um.next_url().is_none());
    }
    assert!(!um.push_url(Url::new("deep".to_string(), 2)));
    assert!(um.next_url().is_none());
}

#[test]
fn empty_frontier_pops_nothing() {
    let mut um = BreadthFirstUrlManager::new(100);
    assert!(um.next_url().is_none());
}

#[test]
fn pops_come_out_in_depth_order() {
    let mut um = BreadthFirstUrlManager::new(100);
    let depths = [7, 3, 9, 0, 5, 3, 1];
    for (i, d) in depths.iter().enumerate() {
        assert!(um.push_url(Url::new(format!("u{}", i), *d)));
    }
    let mut last = -1;
    let mut n = 0;
    while let Some(u) = um.next_url() {
        assert!(u.deep >= last);
        last = u.deep;
        n += 1;
    }
    assert_eq!(n, depths.len());
}

#[test]
fn popped_location_keeps_its_data() {
    let mut um = BreadthFirstUrlManager::new(3);
    let data = serde_json::Value::String("provenance".to_string());
    assert!(um.push_url(Url::new_with_data("p".to_string(), 1, data.clone())));
    let u = um.next_url().unwrap();
    assert_eq!(u.url, "p");
    assert_eq!(u.deep, 1);
    assert_eq!(u.data, data);
}

#[test]
fn locations_are_equal_by_address() {
    let a = Url::new("same".to_string(), 1);
    let b = Url::new_with_data("same".to_string(), 4, serde_json::Value::Bool(true));
    let c = Url::new("other".to_string(), 1);
    assert!(a == b);
    assert!(a != c);
    assert!(a.data.is_null());
    let d = b.clone();
    assert_eq!(d.url, "same");
    assert_eq!(d.deep, 4);
    assert_eq!(d.data, serde_json::Value::Bool(true));
}
