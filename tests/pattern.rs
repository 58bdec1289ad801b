use makepad_router::{live_id, RoutePattern, RouteSegment};

#[test]
fn pattern_test_pattern_parse_static() {
    let pattern = RoutePattern::parse("/user/profile").unwrap();
    assert_eq!(pattern.segments.len(), 2);
    assert!(matches!(pattern.segments[0], RouteSegment::Static(ref s) if s == "user"));
    assert!(matches!(pattern.segments[1], RouteSegment::Static(ref s) if s == "profile"));
}

#[test]
fn pattern_test_pattern_parse_dynamic() {
    let pattern = RoutePattern::parse("/user/:id").unwrap();
    assert_eq!(pattern.segments.len(), 2);
    assert!(matches!(pattern.segments[0], RouteSegment::Static(ref s) if s == "user"));
    assert!(matches!(pattern.segments[1], RouteSegment::Dynamic { ref name, .. } if name == "id"));
}

#[test]
fn pattern_test_pattern_parse_wildcard_single() {
    let pattern = RoutePattern::parse("/admin/*").unwrap();
    assert_eq!(pattern.segments.len(), 2);
    assert!(matches!(pattern.segments[0], RouteSegment::Static(ref s) if s == "admin"));
    assert!(matches!(pattern.segments[1], RouteSegment::WildcardSingle));
}

#[test]
fn pattern_test_pattern_parse_wildcard_multi() {
    let pattern = RoutePattern::parse("/admin/**").unwrap();
    assert_eq!(pattern.segments.len(), 2);
    assert!(matches!(pattern.segments[0], RouteSegment::Static(ref s) if s == "admin"));
    assert!(matches!(pattern.segments[1], RouteSegment::WildcardMulti));
}

#[test]
fn pattern_test_pattern_parse_mixed() {
    let pattern = RoutePattern::parse("/user/:id/posts/*").unwrap();
    assert_eq!(pattern.segments.len(), 4);
    assert!(matches!(pattern.segments[0], RouteSegment::Static(ref s) if s == "user"));
    assert!(matches!(pattern.segments[1], RouteSegment::Dynamic { ref name, .. } if name == "id"));
    assert!(matches!(pattern.segments[2], RouteSegment::Static(ref s) if s == "posts"));
    assert!(matches!(pattern.segments[3], RouteSegment::WildcardSingle));
}

#[test]
fn pattern_test_pattern_match_static() {
    let pattern = RoutePattern::parse("/user/profile").unwrap();
    assert!(pattern.matches("/user/profile").is_some());
    assert!(pattern.matches("/user/settings").is_none());
}

#[test]
fn pattern_test_pattern_match_dynamic() {
    let pattern = RoutePattern::parse("/user/:id").unwrap();
    let params = pattern.matches("/user/123").unwrap();
    assert_eq!(params.get(live_id("id")), Some(live_id("123")));

    let params = pattern.matches("/user/john").unwrap();
    assert_eq!(params.get(live_id("id")), Some(live_id("john")));
}

#[test]
fn pattern_test_pattern_match_multiple_dynamic() {
    let pattern = RoutePattern::parse("/post/:postId/:slug").unwrap();
    let params = pattern.matches("/post/123/my-post").unwrap();
    assert_eq!(params.get(live_id("postId")), Some(live_id("123")));
    assert_eq!(params.get(live_id("slug")), Some(live_id("my-post")));
}

#[test]
fn pattern_test_pattern_match_wildcard_single() {
    let pattern = RoutePattern::parse("/admin/*").unwrap();
    assert!(pattern.matches("/admin/users").is_some());
    assert!(pattern.matches("/admin/settings").is_some());
    assert!(pattern.matches("/admin/users/123").is_none());
}

#[test]
fn pattern_test_pattern_match_wildcard_multi() {
    let pattern = RoutePattern::parse("/admin/**").unwrap();
    assert!(pattern.matches("/admin/users").is_some());
    assert!(pattern.matches("/admin/users/123").is_some());
    assert!(pattern.matches("/admin/users/123/edit").is_some());
    assert!(pattern.matches("/admin").is_some());
}

#[test]
fn pattern_test_pattern_prefix_tail_static() {
    let pattern = RoutePattern::parse("/admin").unwrap();
    let (params, tail) = pattern.matches_prefix_with_tail("/admin/dashboard").unwrap();
    assert!(params.is_empty());
    assert_eq!(tail, "/dashboard");
}

#[test]
fn pattern_test_pattern_prefix_tail_wildcard_single() {
    let pattern = RoutePattern::parse("/admin/*").unwrap();
    let (_params, tail) = pattern.matches_prefix_with_tail("/admin/dashboard").unwrap();
    assert_eq!(tail, "/dashboard");
}

#[test]
fn pattern_test_pattern_prefix_tail_wildcard_multi() {
    let pattern = RoutePattern::parse("/admin/**").unwrap();
    let (_params, tail) = pattern.matches_prefix_with_tail("/admin/a/b").unwrap();
    assert_eq!(tail, "/a/b");
}

#[test]
fn pattern_test_pattern_prefix_tail_dynamic() {
    let pattern = RoutePattern::parse("/user/:id/**").unwrap();
    let (params, tail) = pattern.matches_prefix_with_tail("/user/42/profile/settings").unwrap();
    assert_eq!(params.get(live_id("id")), Some(live_id("42")));
    assert_eq!(tail, "/profile/settings");
}

#[test]
fn pattern_test_pattern_priority() {
    let static_pattern = RoutePattern::parse("/user/profile").unwrap();
    let dynamic_pattern = RoutePattern::parse("/user/:id").unwrap();
    let wildcard_single = RoutePattern::parse("/user/*").unwrap();
    let wildcard_multi = RoutePattern::parse("/user/**").unwrap();

    assert!(static_pattern.priority() < dynamic_pattern.priority());
    assert!(dynamic_pattern.priority() < wildcard_single.priority());
    assert!(wildcard_single.priority() < wildcard_multi.priority());
}

#[test]
fn pattern_test_pattern_types_exist() {
    let _pattern = RoutePattern::parse("/user/:id").unwrap();
}

#[test]
fn priority_values_are_weight_sums() {
    assert_eq!(RoutePattern::parse("/user/profile").unwrap().priority(), 2);
    assert_eq!(RoutePattern::parse("/user/:id").unwrap().priority(), 101);
    assert_eq!(RoutePattern::parse("/user/*").unwrap().priority(), 10001);
    assert_eq!(RoutePattern::parse("/user/**").unwrap().priority(), 100001);
    assert_eq!(RoutePattern::parse("/").unwrap().priority(), 0);
}

#[test]
fn priority_same_shape_orders_kinds() {
    let p = |t: &str| RoutePattern::parse(t).unwrap().priority();
    assert!(p("/a/b/c") < p("/a/:x/c"));
    assert!(p("/:x/:y/:z") < p("/a/*/c"));
    assert!(p("/*/*/*") < p("/a/b/**"));
}

#[test]
fn parse_errors() {
    assert_eq!(RoutePattern::parse("").unwrap_err(), "Pattern cannot be empty");
    assert_eq!(RoutePattern::parse("   ").unwrap_err(), "Pattern cannot be empty");
    assert_eq!(
        RoutePattern::parse("/a/**/b").unwrap_err(),
        "Multi-segment wildcard (**) must be the last segment"
    );
    assert_eq!(
        RoutePattern::parse("/a/:/b").unwrap_err(),
        "Dynamic segment parameter name cannot be empty"
    );
    assert_eq!(
        RoutePattern::parse("/:/**/b").unwrap_err(),
        "Dynamic segment parameter name cannot be empty"
    );
}

#[test]
fn parse_ignores_empty_segments_and_whitespace() {
    let pattern = RoutePattern::parse("  user//:id/ ").unwrap();
    assert_eq!(pattern.segments.len(), 2);
    assert!(matches!(pattern.segments[1], RouteSegment::Dynamic { ref name, key } if name == "id" && key == live_id("id")));
}

#[test]
fn match_edge_cases() {
    let root = RoutePattern::parse("/").unwrap();
    assert!(root.matches("/").is_some());
    assert!(root.matches("").is_some());
    assert!(root.matches("/a").is_none());
    let user = RoutePattern::parse("/user/:id").unwrap();
    assert!(user.matches("/user").is_none());
    assert!(user.matches("user/7/").is_some());
    let params = user.matches("/user/7").unwrap();
    assert_eq!(params.len(), 1);
    assert_eq!(params.get_text(live_id("id")).map(|s| s.as_str()), Some("7"));
    assert_eq!(params.get(live_id("other")), None);
}

#[test]
fn prefix_match_edge_cases() {
    let admin = RoutePattern::parse("/admin").unwrap();
    let (_, tail) = admin.matches_prefix_with_tail("/admin").unwrap();
    assert_eq!(tail, "");
    assert!(admin.matches_prefix_with_tail("/other/x").is_none());
    let multi = RoutePattern::parse("/admin/**").unwrap();
    let (_, tail) = multi.matches_prefix_with_tail("/admin").unwrap();
    assert_eq!(tail, "");
    let single = RoutePattern::parse("/admin/*/x").unwrap();
    let (_, tail) = single.matches_prefix_with_tail("/admin/a/x/y/z").unwrap();
    assert_eq!(tail, "/y/z");
}

#[test]
fn format_paths() {
    let pattern = RoutePattern::parse("/user/:id/posts").unwrap();
    let params = pattern.matches("/user/42/posts").unwrap();
    assert_eq!(pattern.format_path(&params).unwrap(), "/user/42/posts");
    let empty = makepad_router::RouteParams::new();
    assert!(pattern.format_path(&empty).is_none());
    assert_eq!(pattern.format_base_path(&empty), "/user");
    let nested = RoutePattern::parse("/admin/**").unwrap();
    assert!(nested.format_path(&empty).is_none());
    assert_eq!(nested.format_base_path(&empty), "/admin");
    let wild = RoutePattern::parse("/*").unwrap();
    assert_eq!(wild.format_base_path(&empty), "/");
    let root = RoutePattern::parse("/").unwrap();
    assert_eq!(root.format_path(&empty).unwrap(), "/");
}

#[test]
fn live_id_matches_makepad_hash() {
    assert_eq!(live_id("home"), makepad_live_id::LiveId::from_str("home").0);
    assert_ne!(live_id("home"), live_id("settings"));
}

#[test]
fn params_add_replaces() {
    let mut params = makepad_router::RouteParams::new();
    assert!(params.is_empty());
    params.add(1, "a".to_string());
    params.add(2, "b".to_string());
    params.add(1, "c".to_string());
    assert_eq!(params.len(), 2);
    assert_eq!(params.get_text(1).map(|s| s.as_str()), Some("c"));
    assert_eq!(params.get(2), Some(live_id("b")));
}

#[test]
fn params_equality_ignores_order() {
    let mut a = makepad_router::RouteParams::new();
    a.add(1, "x".to_string());
    a.add(2, "y".to_string());
    let mut b = makepad_router::RouteParams::new();
    b.add(2, "y".to_string());
    b.add(1, "x".to_string());
    assert!(a == b);
    b.add(1, "z".to_string());
    assert!(a != b);
    b.add(3, "x".to_string());
    assert!(a != b);
}

#[test]
fn params_move_to_a_map_past_four() {
    let mut a = makepad_router::RouteParams::new();
    for k in 1..=4u64 {
        a.add(k, format!("v{}", k));
    }
    assert!(matches!(a.data, makepad_router::params::RouteParamStore::Small(_)));
    a.add(2, "again".to_string());
    assert!(matches!(a.data, makepad_router::params::RouteParamStore::Small(_)));
    a.add(5, "v5".to_string());
    assert!(matches!(a.data, makepad_router::params::RouteParamStore::Hashed(_)));
    assert_eq!(a.len(), 5);
    assert_eq!(a.get_text(2).map(|s| s.as_str()), Some("again"));
    assert_eq!(a.get_text(5).map(|s| s.as_str()), Some("v5"));
    assert_eq!(a.get_text(6), None);
    a.add(5, "w".to_string());
    assert_eq!(a.len(), 5);
    assert_eq!(a.get(5), Some(live_id("w")));
    let mut b = makepad_router::RouteParams::new();
    for k in (1..=5u64).rev() {
        b.add(k, format!("v{}", k));
    }
    b.add(2, "again".to_string());
    b.add(5, "w".to_string());
    assert!(a == b);
    let mut small = makepad_router::RouteParams::new();
    small.add(1, "v1".to_string());
    assert!(a != small);
    assert!(small != a);
    let copy = a.duplicate();
    assert!(copy == a);
}
