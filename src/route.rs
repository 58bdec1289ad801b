//! A route: an id with its parameters, query, hash and the pattern it was
//! resolved through.

use std::sync::Arc;
use vstd::prelude::*;
use crate::params::RouteParams;
use crate::live_id::live_id_of;
use crate::pattern::{parse_error, parses, path_segments, same_pattern, segment_reads_as, RoutePattern};
use crate::parse::{parse_flag, parse_i64, parse_u64, parsed_flag, parsed_i64, parsed_u64};
use crate::query::{query_map, RouteQuery};

verus! {

/// Relies on `Arc::clone`: a second handle to the same pattern.
#[verifier::external_body]
fn share_pattern(p: &Arc<RoutePattern>) -> (r: Arc<RoutePattern>)
    ensures
        r == *p,
{
    Arc::clone(p)
}

/// A parsed pattern shared between the registry and the routes resolved
/// through it.
#[derive(Debug)]
pub struct RoutePatternRef(pub Arc<RoutePattern>);

impl RoutePatternRef {
    /// Shares `pattern`.
    pub fn new(pattern: RoutePattern) -> (r: RoutePatternRef)
        ensures
            *r.0 == pattern,
    {
        RoutePatternRef(Arc::new(pattern))
    }

    /// The shared pattern.
    pub fn get(&self) -> (r: &RoutePattern)
        ensures
            *r == *self.0,
    {
        &*self.0
    }
}

impl PartialEq for RoutePatternRef {
    fn eq(&self, other: &RoutePatternRef) -> (r: bool) {
        self.get().eq(other.get())
    }
}

impl vstd::std_specs::cmp::PartialEqSpecImpl for RoutePatternRef {
    open spec fn obeys_eq_spec() -> bool {
        true
    }

    open spec fn eq_spec(&self, other: &RoutePatternRef) -> bool {
        same_pattern(*self.0, *other.0)
    }
}

/// Two routes hold the same values.
pub open spec fn same_route(a: Route, b: Route) -> bool {
    &&& a.id == b.id
    &&& a.params@ == b.params@
    &&& a.query@ == b.query@
    &&& a.hash@ == b.hash@
    &&& match (a.pattern, b.pattern) {
        (Some(p), Some(q)) => same_pattern(*p.0, *q.0),
        (None, None) => true,
        _ => false,
    }
}

impl PartialEq for Route {
    fn eq(&self, other: &Route) -> (r: bool) {
        let same_pattern = match (&self.pattern, &other.pattern) {
            (Some(p), Some(q)) => p.eq(q),
            (None, None) => true,
            _ => false,
        };
        self.id == other.id && self.params.eq(&other.params) && self.query.eq(&other.query)
            && self.hash == other.hash && same_pattern
    }
}

impl vstd::std_specs::cmp::PartialEqSpecImpl for Route {
    open spec fn obeys_eq_spec() -> bool {
        true
    }

    open spec fn eq_spec(&self, other: &Route) -> bool {
        same_route(*self, *other)
    }
}

impl Clone for RoutePatternRef {
    fn clone(&self) -> (r: RoutePatternRef)
        ensures
            r == *self,
    {
        RoutePatternRef(share_pattern(&self.0))
    }
}

/// A route in the application.
#[derive(Debug)]
pub struct Route {
    /// The route's id.
    pub id: u64,
    /// The parameters captured for it.
    pub params: RouteParams,
    /// Its query parameters.
    pub query: RouteQuery,
    /// Its hash fragment, with the leading `#`, or empty.
    pub hash: String,
    /// The pattern it was resolved through, if any.
    pub pattern: Option<RoutePatternRef>,
}

/// What a route holds, as values.
pub struct RouteView {
    pub id: u64,
    pub params: Map<u64, Seq<char>>,
    pub query: Seq<(Seq<char>, Seq<char>)>,
    pub hash: Seq<char>,
    pub pattern: Option<RoutePatternRef>,
}

impl View for Route {
    type V = RouteView;

    open spec fn view(&self) -> RouteView {
        RouteView {
            id: self.id,
            params: self.params@,
            query: self.query@,
            hash: self.hash@,
            pattern: self.pattern,
        }
    }
}

/// The view of a bare route for `id`.
pub open spec fn bare_view(id: u64) -> RouteView {
    RouteView {
        id,
        params: Map::empty(),
        query: Seq::empty(),
        hash: Seq::empty(),
        pattern: None,
    }
}

/// `route` is a bare route for `id`: no parameters, query, hash or pattern.
pub open spec fn is_bare_route(route: Route, id: u64) -> bool {
    &&& route.id == id
    &&& route.params@ == Map::<u64, Seq<char>>::empty()
    &&& route.query@ == Seq::<(Seq<char>, Seq<char>)>::empty()
    &&& route.hash@ == Seq::<char>::empty()
    &&& route.pattern is None
}

impl Route {
    /// A route for `id` with nothing else set.
    pub fn new(id: u64) -> (r: Route)
        ensures
            is_bare_route(r, id),
    {
        Route {
            id,
            params: RouteParams::new(),
            query: RouteQuery::new(),
            hash: String::new(),
            pattern: None,
        }
    }
}

impl Route {
    /// A route for `id` whose pattern is parsed from `pattern`.
    pub fn from_pattern(pattern: &str, id: u64) -> (r: Result<Route, String>)
        ensures
            match r {
                Ok(route) => {
                    &&& parses(pattern@)
                    &&& route.id == id
                    &&& route.params@ == Map::<u64, Seq<char>>::empty()
                    &&& route.query@ == Seq::<(Seq<char>, Seq<char>)>::empty()
                    &&& route.hash@ == Seq::<char>::empty()
                    &&& route.pattern matches Some(p) && p.0.segments.len() == path_segments(
                        pattern@,
                    ).len() && forall|i: int|
                        0 <= i < p.0.segments.len() ==> segment_reads_as(
                            #[trigger] p.0.segments@[i],
                            path_segments(pattern@)[i],
                        )
                },
                Err(e) => !parses(pattern@) && parse_error(pattern@, e@),
            },
    {
        match RoutePattern::parse(pattern) {
            Ok(p) => Ok(
                Route {
                    id,
                    params: RouteParams::new(),
                    query: RouteQuery::new(),
                    hash: String::new(),
                    pattern: Some(RoutePatternRef::new(p)),
                },
            ),
            Err(e) => Err(e),
        }
    }

    /// Sets parameter `key` to `value` (builder style).
    pub fn param(self, key: u64, value: String) -> (r: Route)
        ensures
            r.id == self.id,
            r.params@ == self.params@.insert(key, value@),
            r.query@ == self.query@,
            r.hash == self.hash,
            r.pattern == self.pattern,
    {
        let mut route = self;
        route.params.add(key, value);
        route
    }

    /// The id of parameter `key`'s text.
    pub fn get_param(&self, key: u64) -> (r: Option<u64>)
        ensures
            r is Some <==> self.params@.contains_key(key),
            r is Some ==> r->0 == live_id_of(self.params@[key]),
    {
        self.params.get(key)
    }

    /// The route's query written out in key order.
    pub fn query_string(&self) -> (r: String)
        ensures
            r@ == crate::url::query_string_of(self.query@),
    {
        crate::url::build_query_string(&self.query)
    }

    /// The value of query parameter `key`.
    pub fn query_get(&self, key: &str) -> (r: Option<&String>)
        ensures
            r is Some <==> crate::query::query_map(self.query@).contains_key(key@),
            r is Some ==> r->0@ == crate::query::query_map(self.query@)[key@],
    {
        self.query.get(key)
    }

    /// Parameter `key` read as an `i64`.
    pub fn get_param_i64(&self, key: u64) -> (r: Option<i64>)
        ensures
            r == (if self.params@.contains_key(key) {
                parsed_i64(self.params@[key])
            } else {
                None
            }),
    {
        match self.params.get_text(key) {
            Some(t) => parse_i64(t.as_str()),
            None => None,
        }
    }

    /// Parameter `key` read as a `u64`.
    pub fn get_param_u64(&self, key: u64) -> (r: Option<u64>)
        ensures
            r == (if self.params@.contains_key(key) {
                parsed_u64(self.params@[key])
            } else {
                None
            }),
    {
        match self.params.get_text(key) {
            Some(t) => parse_u64(t.as_str()),
            None => None,
        }
    }

    /// Parameter `key` read as a flag (`1`/`true`/`yes`/`on`,
    /// `0`/`false`/`no`/`off`).
    pub fn get_param_bool(&self, key: u64) -> (r: Option<bool>)
        ensures
            r == (if self.params@.contains_key(key) {
                parsed_flag(self.params@[key])
            } else {
                None
            }),
    {
        match self.params.get_text(key) {
            Some(t) => parse_flag(t.as_str()),
            None => None,
        }
    }

    /// A copy of query parameter `key`.
    pub fn query_get_string(&self, key: &str) -> (r: Option<String>)
        ensures
            r is Some <==> query_map(self.query@).contains_key(key@),
            r is Some ==> r->0@ == query_map(self.query@)[key@],
    {
        match self.query.get(key) {
            Some(v) => Some(v.clone()),
            None => None,
        }
    }

    /// Query parameter `key` read as an `i64`.
    pub fn query_get_i64(&self, key: &str) -> (r: Option<i64>)
        ensures
            r == (if query_map(self.query@).contains_key(key@) {
                parsed_i64(query_map(self.query@)[key@])
            } else {
                None
            }),
    {
        match self.query.get(key) {
            Some(v) => parse_i64(v.as_str()),
            None => None,
        }
    }

    /// Query parameter `key` read as a `u64`.
    pub fn query_get_u64(&self, key: &str) -> (r: Option<u64>)
        ensures
            r == (if query_map(self.query@).contains_key(key@) {
                parsed_u64(query_map(self.query@)[key@])
            } else {
                None
            }),
    {
        match self.query.get(key) {
            Some(v) => parse_u64(v.as_str()),
            None => None,
        }
    }

    /// Query parameter `key` read as a flag.
    pub fn query_get_bool(&self, key: &str) -> (r: Option<bool>)
        ensures
            r == (if query_map(self.query@).contains_key(key@) {
                parsed_flag(query_map(self.query@)[key@])
            } else {
                None
            }),
    {
        match self.query.get(key) {
            Some(v) => parse_flag(v.as_str()),
            None => None,
        }
    }

    /// The text of parameter `key`.
    pub fn get_param_string(&self, key: u64) -> (r: Option<String>)
        ensures
            r is Some <==> self.params@.contains_key(key),
            r is Some ==> r->0@ == self.params@[key],
    {
        match self.params.get_text(key) {
            Some(t) => Some(t.clone()),
            None => None,
        }
    }
}

impl Clone for RouteParams {
    fn clone(&self) -> (r: RouteParams)
        ensures
            r@ == self@,
    {
        self.duplicate()
    }
}

impl Clone for Route {
    fn clone(&self) -> (r: Route)
        ensures
            r@ == self@,
    {
        let pattern = match &self.pattern {
            Some(p) => Some(p.clone()),
            None => None,
        };
        Route {
            id: self.id,
            params: self.params.clone(),
            query: self.query.clone(),
            hash: self.hash.clone(),
            pattern,
        }
    }
}

} // verus!
