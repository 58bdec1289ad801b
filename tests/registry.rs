use makepad_router::{live_id, RouteRegistry};

#[test]
fn registry_test_route_registry_register_pattern() {
    let mut registry = RouteRegistry::new();
    registry.register_pattern("/user/:id", live_id("user_profile")).unwrap();
    assert!(registry.has_route(live_id("user_profile")));
}

#[test]
fn registry_test_route_registry_resolve_path() {
    let mut registry = RouteRegistry::new();
    registry.register_pattern("/user/:id", live_id("user_profile")).unwrap();

    let route = registry.resolve_path("/user/123").unwrap();
    assert_eq!(route.id, live_id("user_profile"));
    assert_eq!(route.get_param(live_id("id")), Some(live_id("123")));
}

#[test]
fn registry_test_route_registry_priority() {
    let mut registry = RouteRegistry::new();
    registry.register_pattern("/user/**", live_id("user_wildcard")).unwrap();
    registry.register_pattern("/user/*", live_id("user_single")).unwrap();
    registry.register_pattern("/user/:id", live_id("user_dynamic")).unwrap();
    registry.register_pattern("/user/profile", live_id("user_static")).unwrap();

    let route = registry.resolve_path("/user/profile").unwrap();
    assert_eq!(route.id, live_id("user_static"));

    let route = registry.resolve_path("/user/123").unwrap();
    assert_eq!(route.id, live_id("user_dynamic"));

    let route = registry.resolve_path("/user/other").unwrap();
    assert_eq!(route.id, live_id("user_dynamic"));

    let route = registry.resolve_path("/user/123/posts").unwrap();
    assert_eq!(route.id, live_id("user_wildcard"));
}

fn permutations(items: &[usize]) -> Vec<Vec<usize>> {
    if items.len() <= 1 {
        return vec![items.to_vec()];
    }
    let mut out = Vec::new();
    for i in 0..items.len() {
        let mut rest = items.to_vec();
        let first = rest.remove(i);
        for mut tail in permutations(&rest) {
            tail.insert(0, first);
            out.push(tail);
        }
    }
    out
}

#[test]
fn resolution_is_independent_of_registration_order() {
    let patterns = [
        ("/user/**", "user_wildcard"),
        ("/user/*", "user_single"),
        ("/user/:id", "user_dynamic"),
        ("/user/profile", "user_static"),
    ];
    for order in permutations(&[0, 1, 2, 3]) {
        let mut registry = RouteRegistry::new();
        for &k in &order {
            registry.register_pattern(patterns[k].0, live_id(patterns[k].1)).unwrap();
        }
        assert_eq!(registry.resolve_path("/user/profile").unwrap().id, live_id("user_static"));
        assert_eq!(registry.resolve_path("/user/123").unwrap().id, live_id("user_dynamic"));
        assert_eq!(registry.resolve_path("/user/123/posts").unwrap().id, live_id("user_wildcard"));
    }
}

#[test]
fn resolve_home_profile_and_miss() {
    let mut registry = RouteRegistry::new();
    registry.register_pattern("/", live_id("home")).unwrap();
    registry.register_pattern("/user/:id", live_id("profile")).unwrap();
    let route = registry.resolve_path("/user/42").unwrap();
    assert_eq!(route.id, live_id("profile"));
    assert_eq!(route.get_param_string(live_id("id")).unwrap(), "42");
    assert_eq!(route.params.len(), 1);
    assert!(registry.resolve_path("/missing").is_none());
    assert_eq!(registry.resolve_path("/").unwrap().id, live_id("home"));
    assert_eq!(registry.resolve_path("").unwrap().id, live_id("home"));
}

#[test]
fn resolve_normalizes_input() {
    let mut registry = RouteRegistry::new();
    registry.register_pattern("/admin/dashboard", live_id("dash")).unwrap();
    registry.register_pattern("/:lang/docs", live_id("docs")).unwrap();
    registry.register_pattern("/**", live_id("fallback")).unwrap();
    let r = registry.resolve_path("https://example.com/admin/dashboard/?tab=1#top").unwrap();
    assert_eq!(r.id, live_id("dash"));
    assert!(r.params.is_empty());
    assert!(r.pattern.is_some());
    assert_eq!(registry.resolve_path("admin/dashboard").unwrap().id, live_id("dash"));
    let d = registry.resolve_path("/en/docs").unwrap();
    assert_eq!(d.id, live_id("docs"));
    assert_eq!(d.get_param_string(live_id("lang")).unwrap(), "en");
    assert_eq!(registry.resolve_path("/en/other").unwrap().id, live_id("fallback"));
    assert_eq!(registry.resolve_path("/admin/other").unwrap().id, live_id("fallback"));
}

#[test]
fn register_errors_leave_registry_unchanged() {
    let mut registry = RouteRegistry::new();
    assert_eq!(registry.register_pattern("", 1).unwrap_err(), "Pattern cannot be empty");
    assert!(!registry.has_route(1));
    registry.register_by_id(2);
    assert!(registry.has_route(2));
    assert!(registry.get_pattern(2).is_none());
    registry.register_pattern("/x", 3).unwrap();
    assert_eq!(registry.get_pattern(3).unwrap().get().segments.len(), 1);
}
