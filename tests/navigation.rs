use makepad_router::{live_id, NavigationHistory, Route};

fn id(route: Option<&Route>) -> u64 {
    route.unwrap().id
}

#[test]
fn test_navigation_push() {
    let mut history = NavigationHistory::new(Route::new(live_id("home")));
    assert_eq!(id(history.current()), live_id("home"));

    history.push(Route::new(live_id("settings")));
    assert_eq!(id(history.current()), live_id("settings"));
    assert_eq!(history.depth(), 2);
}

#[test]
fn test_navigation_back() {
    let mut history = NavigationHistory::new(Route::new(live_id("home")));
    history.push(Route::new(live_id("settings")));

    assert!(history.can_go_back());
    assert!(history.back());
    assert_eq!(id(history.current()), live_id("home"));
    assert!(!history.can_go_back());
}

#[test]
fn test_navigation_replace() {
    let mut history = NavigationHistory::new(Route::new(live_id("home")));
    history.replace(Route::new(live_id("settings")));

    assert_eq!(id(history.current()), live_id("settings"));
    assert_eq!(history.depth(), 1);
    assert!(!history.can_go_back());
}

#[test]
fn test_stack_pop() {
    let mut history = NavigationHistory::new(Route::new(live_id("home")));
    history.push(Route::new(live_id("settings")));
    history.push(Route::new(live_id("profile")));

    assert!(history.pop());
    assert_eq!(id(history.current()), live_id("settings"));
    assert_eq!(history.depth(), 2);
    assert!(!history.can_go_forward());
}

#[test]
fn test_stack_pop_to() {
    let mut history = NavigationHistory::new(Route::new(live_id("home")));
    history.push(Route::new(live_id("settings")));
    history.push(Route::new(live_id("profile")));

    assert!(history.pop_to(live_id("home")));
    assert_eq!(id(history.current()), live_id("home"));
    assert_eq!(history.depth(), 1);
}

#[test]
fn test_stack_set_stack() {
    let mut history = NavigationHistory::empty();
    history.set_stack(vec![Route::new(live_id("home")), Route::new(live_id("settings"))]);
    assert_eq!(id(history.current()), live_id("settings"));
    assert_eq!(history.depth(), 2);
    assert!(!history.can_go_forward());
}

#[test]
fn push_then_back_allows_forward() {
    let mut history = NavigationHistory::new(Route::new(live_id("home")));
    history.push(Route::new(live_id("profile")));
    assert!(history.back());
    assert_eq!(id(history.current()), live_id("home"));
    assert!(history.can_go_forward());
    assert!(history.forward());
    assert_eq!(id(history.current()), live_id("profile"));
    assert!(!history.forward());
}

#[test]
fn push_discards_forward_history() {
    let mut history = NavigationHistory::new(Route::new(1));
    history.push(Route::new(2));
    history.push(Route::new(3));
    assert!(history.back());
    assert!(history.back());
    history.push(Route::new(4));
    let ids: Vec<u64> = history.all_routes().iter().map(|r| r.id).collect();
    assert_eq!(ids, vec![1, 4]);
    assert_eq!(history.current_index(), 1);
}

#[test]
fn set_stack_then_pop_to_middle() {
    let mut history = NavigationHistory::empty();
    history.set_stack(vec![Route::new(1), Route::new(2), Route::new(3)]);
    assert!(history.pop_to(2));
    let ids: Vec<u64> = history.all_routes().iter().map(|r| r.id).collect();
    assert_eq!(ids, vec![1, 2]);
    assert_eq!(id(history.current()), 2);
    assert!(!history.can_go_forward());
}

#[test]
fn pop_to_twice_fails_the_second_time() {
    let mut history = NavigationHistory::empty();
    history.set_stack(vec![Route::new(1), Route::new(2), Route::new(3)]);
    assert!(history.pop_to(2));
    assert!(!history.pop_to(2));
    assert_eq!(history.depth(), 2);
    assert_eq!(history.current_index(), 1);
}

#[test]
fn pop_to_takes_nearest_preceding_occurrence() {
    let mut history = NavigationHistory::empty();
    history.set_stack(vec![Route::new(1), Route::new(2), Route::new(1), Route::new(3), Route::new(1), Route::new(4)]);
    assert!(history.back());
    assert!(history.back());
    assert_eq!(history.current_index(), 3);
    assert!(history.pop_to(1));
    assert_eq!(history.current_index(), 2);
    assert_eq!(history.depth(), 3);
    assert!(!history.pop_to(4));
    assert!(!history.pop_to(9));
}

#[test]
fn pop_and_pop_to_root_edges() {
    let mut history = NavigationHistory::new(Route::new(1));
    assert!(!history.pop());
    assert!(!history.pop_to_root());
    history.push(Route::new(2));
    history.push(Route::new(3));
    assert!(history.pop_to_root());
    assert_eq!(history.depth(), 1);
    assert_eq!(id(history.current()), 1);
    let mut empty = NavigationHistory::empty();
    assert!(empty.current().is_none());
    assert!(!empty.back());
    assert!(!empty.forward());
    assert!(!empty.pop_to(1));
    empty.replace(Route::new(5));
    assert_eq!(id(empty.current()), 5);
}

#[test]
fn clear_and_reset() {
    let mut history = NavigationHistory::new(Route::new(1));
    history.push(Route::new(2));
    history.push(Route::new(3));
    assert!(history.back());
    history.clear();
    assert_eq!(history.depth(), 1);
    assert_eq!(id(history.current()), 2);
    history.reset(Route::new(7));
    assert_eq!(history.depth(), 1);
    assert_eq!(id(history.current()), 7);
}

#[test]
fn parts_round_trip_clamps_index() {
    for idx in [0usize, 1, 2, 5, usize::MAX] {
        let history = NavigationHistory::from_parts(vec![Route::new(1), Route::new(2), Route::new(3)], idx);
        let (stack, current) = history.into_parts();
        let ids: Vec<u64> = stack.iter().map(|r| r.id).collect();
        assert_eq!(ids, vec![1, 2, 3]);
        assert_eq!(current, idx.clamp(0, 2));
    }
    let empty = NavigationHistory::from_parts(Vec::new(), 4);
    assert_eq!(empty.depth(), 0);
    assert_eq!(empty.current_index(), 0);
}

#[test]
fn histories_and_routes_compare_by_value() {
    let a = Route::new(1).param(live_id("id"), "7".to_string());
    let b = Route::new(1).param(live_id("id"), "7".to_string());
    assert!(a == b);
    assert!(a != Route::new(1));
    let with_pattern = Route::from_pattern("/u/:id", 1).unwrap();
    assert!(with_pattern == Route::from_pattern("/u/:id", 1).unwrap());
    assert!(with_pattern != Route::from_pattern("/u/*", 1).unwrap());
    let h1 = NavigationHistory::from_parts(vec![Route::new(1), a], 1);
    let h2 = NavigationHistory::from_parts(vec![Route::new(1), b], 1);
    assert!(h1 == h2);
    let h3 = NavigationHistory::from_parts(vec![Route::new(1), Route::new(1)], 1);
    assert!(h1 != h3);
    let s1 = makepad_router::RouterState { history: h1, url_path_override: Some("/x".to_string()) };
    let s2 = makepad_router::RouterState { history: h2, url_path_override: Some("/x".to_string()) };
    assert!(s1 == s2);
}
