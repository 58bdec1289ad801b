use makepad_router::parse::{parse_flag, parse_i64, parse_u64};
use makepad_router::{live_id, Route, Router};

#[test]
fn router_test_router_navigate() {
    let mut router = Router::new(Route::new(live_id("home")));
    assert_eq!(router.current_route_id(), Some(live_id("home")));

    router.navigate_to(live_id("settings"));
    assert_eq!(router.current_route_id(), Some(live_id("settings")));
    assert_eq!(router.depth(), 2);
}

#[test]
fn router_test_router_back() {
    let mut router = Router::new(Route::new(live_id("home")));
    router.navigate_to(live_id("settings"));
    router.navigate_to(live_id("profile"));

    assert!(router.can_go_back());
    assert!(router.back());
    assert_eq!(router.current_route_id(), Some(live_id("settings")));

    assert!(router.back());
    assert_eq!(router.current_route_id(), Some(live_id("home")));
    assert!(!router.can_go_back());
}

#[test]
fn router_test_router_replace() {
    let mut router = Router::new(Route::new(live_id("home")));
    router.replace_with(live_id("settings"));

    assert_eq!(router.current_route_id(), Some(live_id("settings")));
    assert_eq!(router.depth(), 1);
    assert!(!router.can_go_back());
}

#[test]
fn router_test_router_navigate_by_path() {
    let mut router = Router::new(Route::new(live_id("home")));
    router.register_route_pattern("/user/:id", live_id("user_profile")).unwrap();

    router.navigate_by_path("/user/123").unwrap();
    let route = router.current_route().unwrap();
    assert_eq!(route.id, live_id("user_profile"));
    assert_eq!(route.get_param(live_id("id")), Some(live_id("123")));
}

#[test]
fn router_test_route_registry_register_pattern() {
    let mut router = Router::new(Route::new(live_id("home")));
    router.register_route_pattern("/user/:id", live_id("user_profile")).unwrap();
    assert!(router.route_registry.has_route(live_id("user_profile")));
}

#[test]
fn router_test_route_registry_resolve_path() {
    let mut router = Router::new(Route::new(live_id("home")));
    router.register_route_pattern("/user/:id", live_id("user_profile")).unwrap();
    let route = router.route_registry.resolve_path("/user/123").unwrap();
    assert_eq!(route.id, live_id("user_profile"));
    assert_eq!(route.get_param(live_id("id")), Some(live_id("123")));
}

#[test]
fn router_test_route_registry_priority() {
    let mut router = Router::new(Route::new(live_id("home")));
    router.register_route_pattern("/user/**", live_id("user_wildcard")).unwrap();
    router.register_route_pattern("/user/*", live_id("user_single")).unwrap();
    router.register_route_pattern("/user/:id", live_id("user_dynamic")).unwrap();
    router.register_route_pattern("/user/profile", live_id("user_static")).unwrap();
    let r = &router.route_registry;
    assert_eq!(r.resolve_path("/user/profile").unwrap().id, live_id("user_static"));
    assert_eq!(r.resolve_path("/user/123").unwrap().id, live_id("user_dynamic"));
    assert_eq!(r.resolve_path("/user/other").unwrap().id, live_id("user_dynamic"));
    assert_eq!(r.resolve_path("/user/123/posts").unwrap().id, live_id("user_wildcard"));
}

#[test]
fn navigate_by_path_miss_keeps_history() {
    let mut router = Router::with_persistence(Route::new(live_id("home")));
    assert!(router.persist_state);
    let err = router.navigate_by_path("/nowhere").unwrap_err();
    assert_eq!(err, "No route found for path: /nowhere");
    assert_eq!(router.depth(), 1);
}

#[test]
fn test_route_from_pattern() {
    let route = Route::from_pattern("/user/:id", live_id("user_profile")).unwrap();
    assert_eq!(route.id, live_id("user_profile"));
    assert!(route.pattern.is_some());
    assert!(Route::from_pattern("", 1).is_err());
}

#[test]
fn stack_operations_through_router() {
    let mut router = Router::new(Route::new(1));
    router.push(Route::new(2).param(live_id("k"), "v".to_string()));
    router.push(Route::new(3));
    assert!(router.pop());
    assert_eq!(router.current_route().unwrap().get_param_string(live_id("k")).unwrap(), "v");
    assert!(router.pop_to(1));
    assert!(!router.pop_to(1));
    router.set_stack(vec![Route::new(5), Route::new(6)]);
    assert!(router.pop_to_root());
    assert_eq!(router.current_route_id(), Some(5));
    router.reset(Route::new(9));
    router.clear_history();
    assert_eq!(router.depth(), 1);
    assert!(!router.forward());
    assert!(!router.can_go_forward());
    router.replace(Route::new(10));
    router.navigate(Route::new(11));
    assert_eq!(router.current_route_id(), Some(11));
}

#[test]
fn typed_param_and_query_getters() {
    let route = Route::new(1)
        .param(live_id("n"), "-42".to_string())
        .param(live_id("u"), "+7".to_string())
        .param(live_id("b"), "YeS".to_string());
    assert_eq!(route.get_param_i64(live_id("n")), Some(-42));
    assert_eq!(route.get_param_u64(live_id("n")), None);
    assert_eq!(route.get_param_u64(live_id("u")), Some(7));
    assert_eq!(route.get_param_bool(live_id("b")), Some(true));
    assert_eq!(route.get_param_bool(live_id("missing")), None);
    assert_eq!(parse_u64("18446744073709551615"), Some(u64::MAX));
    assert_eq!(parse_u64("18446744073709551616"), None);
    assert_eq!(parse_i64("-9223372036854775808"), Some(i64::MIN));
    assert_eq!(parse_i64("9223372036854775808"), None);
    assert_eq!(parse_i64(""), None);
    assert_eq!(parse_i64("+"), None);
    assert_eq!(parse_i64(" 1"), None);
    assert_eq!(parse_flag("OFF"), Some(false));
    assert_eq!(parse_flag("maybe"), None);
    let mut with_query = Route::new(2);
    with_query.query.set("page".to_string(), "3".to_string());
    with_query.query.set("on".to_string(), "0".to_string());
    assert_eq!(with_query.query_get_u64("page"), Some(3));
    assert_eq!(with_query.query_get_i64("page"), Some(3));
    assert_eq!(with_query.query_get_bool("on"), Some(false));
    assert_eq!(with_query.query_get_string("page").unwrap(), "3");
    assert_eq!(with_query.query_get("zzz"), None);
    assert_eq!(with_query.query_string(), "?on=0&page=3");
}
