use makepad_router::url::{
    decode_www_form_component, encode_www_form_component, hex_char, hex_val, normalize_path,
};
use makepad_router::{build_query_string, parse_query_map, RouteQuery, RouterUrl};

#[test]
fn url_regression_router_url_parses_path_query_hash() {
    let u = RouterUrl::parse("/admin/dashboard?tab=settings#section");
    assert_eq!(u.path, "/admin/dashboard");
    assert_eq!(u.query, "?tab=settings");
    assert_eq!(u.hash, "#section");
    assert_eq!(u.to_string(), "/admin/dashboard?tab=settings#section");
}

#[test]
fn url_regression_router_url_parses_full_url() {
    let u = RouterUrl::parse("https://example.com/admin/dashboard?tab=settings#section");
    assert_eq!(u.to_string(), "/admin/dashboard?tab=settings#section");
}

#[test]
fn url_regression_router_url_normalizes_empty_and_missing_slash() {
    assert_eq!(RouterUrl::parse("").to_string(), "/");
    assert_eq!(RouterUrl::parse("home").to_string(), "/home");
    assert_eq!(RouterUrl::parse("http://example.com").to_string(), "/");
}

#[test]
fn normalize_path_rewrites() {
    assert_eq!(normalize_path("https://example.com/a/b/?q=1#x"), "/a/b");
    assert_eq!(normalize_path("/already/normalized"), "/already/normalized");
    assert_eq!(normalize_path("  a//b///  "), "/a//b");
    assert_eq!(normalize_path(""), "/");
    assert_eq!(normalize_path("///"), "/");
    assert_eq!(normalize_path("http://host"), "/");
}

#[test]
fn url_parse_hash_before_query() {
    let u = RouterUrl::parse("  /a#h?x ");
    assert_eq!(u.path, "/a");
    assert_eq!(u.query, "");
    assert_eq!(u.hash, "#h?x");
    let v = RouterUrl::parse("?q=1");
    assert_eq!(v.path, "/");
    assert_eq!(v.query, "?q=1");
}

#[test]
fn url_regression_query_map_decodes_and_builds() {
    let map = parse_query_map("?q=hello+world&x=%2F&empty=&flag");
    assert_eq!(map.len(), 4);
    assert_eq!(map.get("q").map(|s| s.as_str()), Some("hello world"));
    assert_eq!(map.get("x").map(|s| s.as_str()), Some("/"));
    assert_eq!(map.get("empty").map(|s| s.as_str()), Some(""));
    assert_eq!(map.get("flag").map(|s| s.as_str()), Some(""));

    let rebuilt = build_query_string(&map);
    assert_eq!(rebuilt, "?empty&flag&q=hello+world&x=%2F");
}

#[test]
fn query_edge_cases() {
    assert!(parse_query_map("").is_empty());
    assert!(parse_query_map("  ?  ").is_empty());
    let m = parse_query_map("a=1&&=x&a=2&b=%ZZ&c=%C3%A9&d=%FF");
    assert_eq!(m.len(), 4);
    assert_eq!(m.get("a").map(|s| s.as_str()), Some("2"));
    assert_eq!(m.get("b").map(|s| s.as_str()), Some(""));
    assert_eq!(m.get("c").map(|s| s.as_str()), Some("é"));
    assert_eq!(m.get("d").map(|s| s.as_str()), Some("%FF"));
    assert_eq!(build_query_string(&RouteQuery::new()), "");
    let u = RouterUrl::parse("/p?k=v+w#h");
    assert_eq!(u.parse_query_map().get("k").map(|s| s.as_str()), Some("v w"));
}

#[test]
fn form_component_codec() {
    assert_eq!(encode_www_form_component("a b/é~"), "a+b%2F%C3%A9~");
    assert_eq!(decode_www_form_component("a+b%2f%C3%A9"), "a b/é");
    assert_eq!(decode_www_form_component("%"), "");
    assert_eq!(decode_www_form_component("x%4"), "x");
    assert_eq!(hex_val(b'a'), Some(10));
    assert_eq!(hex_val(b'F'), Some(15));
    assert_eq!(hex_val(b'7'), Some(7));
    assert_eq!(hex_val(b'g'), None);
    assert_eq!(hex_char(11), 'B');
    assert_eq!(hex_char(3), '3');
    assert_eq!(hex_char(16), '0');
}

#[test]
fn route_query_set_remove() {
    let mut q = RouteQuery::new();
    q.set("b".to_string(), "2".to_string());
    q.set("a".to_string(), "1".to_string());
    q.set("b".to_string(), "3".to_string());
    assert_eq!(build_query_string(&q), "?a=1&b=3");
    assert!(q.remove("a"));
    assert!(!q.remove("a"));
    assert_eq!(q.len(), 1);
    q.clear();
    assert!(q.is_empty());
    let from = RouteQuery::from_query_string("?z=1&y");
    assert_eq!(build_query_string(&from), "?y&z=1");
}

#[test]
fn normalize_path_cow_borrows_when_possible() {
    let normalized = normalize_path("/already/normalized");
    assert_eq!(normalized, "/already/normalized");
}

#[test]
fn normalize_path_cow_owns_when_rewrite_needed() {
    let normalized = normalize_path("https://example.com/a/b/?q=1#x");
    assert_eq!(normalized, "/a/b");
}
