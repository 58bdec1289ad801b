//! The route registry: patterns by route id and in priority order, and the
//! resolution of a path to the route it names.

use std::collections::HashMap;
use vstd::prelude::*;
use crate::params::RouteParams;
use crate::pattern::{
    match_params, parse_error, parses, path_from_values, path_segments, segment_reads_as,
    capped_priority, RoutePattern, RouteSegment,
};
use crate::query::RouteQuery;
use crate::route::{Route, RoutePatternRef};
use crate::text::{chars_of, find, find_char_from, push_char, slice_of, string_of};
use crate::url::{normalize_path, normalized_path};

verus! {

broadcast use vstd::std_specs::hash::group_hash_axioms;

/// A registered route.
#[derive(Debug)]
pub struct RouteEntry {
    /// The route's id.
    pub route_id: u64,
    /// Its pattern, if registered with one.
    pub pattern: Option<RoutePatternRef>,
    /// The pattern's priority; 0 without a pattern.
    pub priority: usize,
}

/// What resolution needs to know of a pattern, computed once per change.
#[derive(Debug)]
struct RouteEntryMeta {
    first_static_segment: Option<String>,
    has_wildcard: bool,
    exact_static_path: Option<String>,
}

/// The segments of an entry's pattern (none without a pattern).
pub open spec fn entry_segments(e: RouteEntry) -> Seq<RouteSegment> {
    match e.pattern {
        Some(p) => p.0.segments@,
        None => Seq::empty(),
    }
}

/// The text of the first segment, when it is static.
pub open spec fn first_static(segs: Seq<RouteSegment>) -> Option<Seq<char>> {
    if segs.len() > 0 {
        match segs[0] {
            RouteSegment::Static(s) => Some(s@),
            _ => None,
        }
    } else {
        None
    }
}

/// Some segment is `*` or `**`.
pub open spec fn has_wildcard(segs: Seq<RouteSegment>) -> bool {
    exists|i: int| 0 <= i < segs.len() && (segs[i] is WildcardSingle || segs[i] is WildcardMulti)
}

/// Every segment is static.
pub open spec fn all_static(segs: Seq<RouteSegment>) -> bool {
    forall|i: int| 0 <= i < segs.len() ==> segs[i] is Static
}

/// The texts of static segments.
pub open spec fn static_texts(segs: Seq<RouteSegment>) -> Seq<Seq<char>> {
    segs.map_values(
        |s: RouteSegment|
            match s {
                RouteSegment::Static(t) => t@,
                _ => Seq::empty(),
            },
    )
}

/// The first segment of a path (without its leading `/`).
pub open spec fn first_segment(path: Seq<char>) -> Seq<char> {
    let t = if path.len() > 0 && path[0] == '/' {
        path.drop_first()
    } else {
        path
    };
    t.take(find(t, '/'))
}

/// Entry `e` resolves normalized path `norm` in pass `phase`: 0 the exact
/// static paths, 1 the patterns whose first segment is the path's first
/// segment, 2 the other patterns without wildcards, 3 those with one.
pub open spec fn entry_hit(e: RouteEntry, norm: Seq<char>, phase: int) -> bool {
    let segs = entry_segments(e);
    if phase == 0 {
        all_static(segs) && path_from_values(static_texts(segs)) == norm
    } else if phase == 1 {
        first_static(segs) == Some(first_segment(norm)) && match_params(segs, norm) is Some
    } else if phase == 2 {
        first_static(segs) is None && !has_wildcard(segs) && match_params(segs, norm) is Some
    } else {
        first_static(segs) is None && has_wildcard(segs) && match_params(segs, norm) is Some
    }
}

/// Entry `i` is the first hit of pass `phase`, and no earlier pass hits.
pub open spec fn first_hit(entries: Seq<RouteEntry>, norm: Seq<char>, phase: int, i: int) -> bool {
    &&& 0 <= phase < 4
    &&& 0 <= i < entries.len()
    &&& entry_hit(entries[i], norm, phase)
    &&& forall|j: int| 0 <= j < i ==> !entry_hit(entries[j], norm, phase)
    &&& forall|q: int, j: int| 0 <= q < phase && 0 <= j < entries.len() ==> !entry_hit(entries[j], norm, q)
}

/// `route` is what resolving `norm` gives when pass `phase` hits entry `e`;
/// `registered` is the pattern registered last for the entry's id.
pub open spec fn resolved_as(
    route: crate::route::RouteView,
    registered: Option<RoutePatternRef>,
    e: RouteEntry,
    norm: Seq<char>,
    phase: int,
) -> bool {
    &&& resolved_core(route, registered, e, norm, phase)
    &&& route.query == Seq::<(Seq<char>, Seq<char>)>::empty()
    &&& route.hash == Seq::<char>::empty()
}

/// Id, parameters and pattern of `route` are what resolving `norm` gives
/// when pass `phase` hits entry `e`.
pub open spec fn resolved_core(
    route: crate::route::RouteView,
    registered: Option<RoutePatternRef>,
    e: RouteEntry,
    norm: Seq<char>,
    phase: int,
) -> bool {
    &&& route.id == e.route_id
    &&& phase == 0 ==> route.params == Map::<u64, Seq<char>>::empty() && route.pattern == registered
    &&& phase != 0 ==> route.params == match_params(entry_segments(e), norm)->0 && route.pattern
        == e.pattern
}

/// `k` is where an entry of priority `p` goes: after all entries of
/// priority at most `p`.
pub open spec fn insert_position(entries: Seq<RouteEntry>, p: usize, k: int) -> bool {
    &&& 0 <= k <= entries.len()
    &&& forall|j: int| 0 <= j < k ==> entries[j].priority <= p
    &&& k < entries.len() ==> entries[k].priority > p
}

/// The pattern of `e` is the one that `text` parses to.
pub open spec fn pattern_from_text(e: RouteEntry, text: Seq<char>) -> bool {
    let segs = entry_segments(e);
    &&& e.pattern is Some
    &&& segs.len() == path_segments(text).len()
    &&& forall|i: int| 0 <= i < segs.len() ==> segment_reads_as(#[trigger] segs[i], path_segments(text)[i])
}

spec fn meta_ok(m: RouteEntryMeta, segs: Seq<RouteSegment>) -> bool {
    &&& (m.first_static_segment is Some <==> first_static(segs) is Some)
    &&& (m.first_static_segment is Some ==> m.first_static_segment->0@ == first_static(segs)->0)
    &&& m.has_wildcard == has_wildcard(segs)
    &&& (m.exact_static_path is Some <==> all_static(segs))
    &&& (m.exact_static_path is Some ==> m.exact_static_path->0@ == path_from_values(
        static_texts(segs),
    ))
}

fn compute_meta(p: &RoutePattern) -> (m: RouteEntryMeta)
    ensures
        meta_ok(m, p.segments@),
{
    let segs = &p.segments;
    let first_static_segment = if segs.len() > 0 {
        match &segs[0] {
            RouteSegment::Static(s) => Some(s.clone()),
            _ => None,
        }
    } else {
        None
    };
    let mut has_wildcard = false;
    let mut all_static = true;
    let mut path = String::new();
    let ghost mut texts: Seq<Seq<char>> = Seq::empty();
    let mut i: usize = 0;
    while i < segs.len()
        invariant
            i <= segs.len(),
            has_wildcard == exists|k: int|
                0 <= k < i && (segs@[k] is WildcardSingle || segs@[k] is WildcardMulti),
            all_static == forall|k: int| 0 <= k < i ==> segs@[k] is Static,
            all_static ==> texts == static_texts(segs@.take(i as int)),
            all_static ==> path@ == crate::pattern::slash_join(texts),
        decreases segs.len() - i,
    {
        assert(static_texts(segs@.take(i + 1)) == static_texts(segs@.take(i as int)).push(
            static_texts(segs@)[i as int],
        ));
        match &segs[i] {
            RouteSegment::Static(s) => {
                if all_static {
                    push_char(&mut path, '/');
                    path.append(s.as_str());
                    proof {
                        assert(texts.push(s@).drop_last() == texts);
                        texts = texts.push(s@);
                    }
                }
            },
            RouteSegment::Dynamic { .. } => {
                all_static = false;
            },
            _ => {
                all_static = false;
                has_wildcard = true;
            },
        }
        i = i + 1;
    }
    assert(segs@.take(i as int) == segs@);
    assert(has_wildcard == crate::registry::has_wildcard(segs@));
    assert(all_static == crate::registry::all_static(segs@));
    let exact_static_path = if all_static {
        if segs.len() == 0 {
            assert(static_texts(segs@) =~= Seq::<Seq<char>>::empty());
            Some(string_of(&['/']))
        } else {
            assert(static_texts(segs@).len() > 0);
            Some(path)
        }
    } else {
        None
    };
    let m = RouteEntryMeta { first_static_segment, has_wildcard, exact_static_path };
    assert(m.first_static_segment is Some <==> first_static(segs@) is Some);
    assert(m.first_static_segment is Some ==> m.first_static_segment->0@ == first_static(segs@)->0);
    assert(m.has_wildcard == crate::registry::has_wildcard(segs@));
    assert(m.exact_static_path is Some <==> crate::registry::all_static(segs@));
    assert(m.exact_static_path is Some ==> m.exact_static_path->0@ == path_from_values(
        static_texts(segs@),
    ));
    m
}

/// Pass `phase` considers entry `e` for a path whose first segment is
/// `first`.
pub open spec fn in_pass(e: RouteEntry, first: Seq<char>, phase: int) -> bool {
    let segs = entry_segments(e);
    if phase == 0 {
        all_static(segs)
    } else if phase == 1 {
        first_static(segs) == Some(first)
    } else if phase == 2 {
        first_static(segs) is None && !has_wildcard(segs)
    } else {
        first_static(segs) is None && has_wildcard(segs)
    }
}

spec fn pass_pred(es: Seq<RouteEntry>, first: Seq<char>, phase: int) -> spec_fn(int) -> bool {
    |j: int| in_pass(es[j], first, phase)
}

/// `l` lists, in ascending order, the positions below `n` that satisfy `p`.
spec fn lists(l: Seq<usize>, n: int, p: spec_fn(int) -> bool) -> bool {
    &&& forall|a: int, b: int| 0 <= a < b < l.len() ==> l[a] < l[b]
    &&& forall|a: int| 0 <= a < l.len() ==> l[a] < n && p(l[a] as int)
    &&& forall|j: int| 0 <= j < n && #[trigger] p(j) ==> exists|a: int| 0 <= a < l.len() && l[a] == j
}

proof fn lemma_lists_extend(l: Seq<usize>, n: int, p: spec_fn(int) -> bool)
    requires
        lists(l, n, p),
        0 <= n < usize::MAX,
    ensures
        p(n) ==> lists(l.push(n as usize), n + 1, p),
        !p(n) ==> lists(l, n + 1, p),
{
    if p(n) {
        let t = l.push(n as usize);
        assert forall|j: int| 0 <= j < n + 1 && #[trigger] p(j) implies exists|a: int| 0 <= a < t.len() && t[a] == j by {
            if j == n {
                assert(t[l.len() as int] == j);
            } else {
                let a = choose|a: int| 0 <= a < l.len() && l[a] == j;
                assert(t[a] == j);
            }
        }
    }
}

/// Entry `j` is the first fully static entry whose path is `p`.
spec fn exact_first(es: Seq<RouteEntry>, p: Seq<char>, j: int) -> bool {
    &&& 0 <= j < es.len()
    &&& entry_hit(es[j], p, 0)
    &&& forall|k: int| 0 <= k < j ==> !entry_hit(es[k], p, 0)
}

/// The static path table covers the fully static entries below `n`.
spec fn exact_ok(x: Seq<(String, u64)>, es: Seq<RouteEntry>, n: int) -> bool {
    &&& (forall|a: int, b: int| 0 <= a < b < x.len() ==> x[a].0@ != x[b].0@)
    &&& (forall|a: int| 0 <= a < x.len() ==> #[trigger] exact_entry(x[a], es, n))
    &&& (forall|j: int| 0 <= j < n && all_static(entry_segments(#[trigger] es[j])) ==> exists|a: int|
        0 <= a < x.len() && x[a].0@ == path_from_values(static_texts(entry_segments(es[j]))))
}

/// Table row `row` names the first fully static entry below `n` with its
/// path.
spec fn exact_entry(row: (String, u64), es: Seq<RouteEntry>, n: int) -> bool {
    exists|j: int| j < n && #[trigger] exact_first(es, row.0@, j) && es[j].route_id == row.1
}

/// The first-segment buckets cover the entries below `n`.
spec fn buckets_ok(b: Seq<(String, Vec<usize>)>, es: Seq<RouteEntry>, n: int) -> bool {
    &&& forall|x: int, y: int| 0 <= x < y < b.len() ==> b[x].0@ != b[y].0@
    &&& forall|x: int| 0 <= x < b.len() ==> lists(#[trigger] b[x].1@, n, pass_pred(es, b[x].0@, 1))
    &&& forall|j: int| 0 <= j < n && first_static(entry_segments(#[trigger] es[j])) is Some ==> exists|x: int|
        0 <= x < b.len() && b[x].0@ == first_static(entry_segments(es[j]))->0
}

proof fn lemma_exact_keep(x: Seq<(String, u64)>, es: Seq<RouteEntry>, i: int)
    requires
        exact_ok(x, es, i),
        0 <= i < es.len(),
        all_static(entry_segments(es[i])) ==> exists|a: int|
            0 <= a < x.len() && x[a].0@ == path_from_values(static_texts(entry_segments(es[i]))),
    ensures
        exact_ok(x, es, i + 1),
{
    assert forall|a: int| 0 <= a < x.len() implies #[trigger] exact_entry(x[a], es, i + 1) by {
        assert(exact_entry(x[a], es, i));
        let j = choose|j: int| j < i && #[trigger] exact_first(es, x[a].0@, j) && es[j].route_id == x[a].1;
        assert(exact_first(es, x[a].0@, j));
    }
    assert forall|j: int| 0 <= j < i + 1 && all_static(entry_segments(#[trigger] es[j])) implies exists|b: int|
        0 <= b < x.len() && x[b].0@ == path_from_values(static_texts(entry_segments(es[j]))) by {
        if j < i {
        }
    }
}

proof fn lemma_exact_push(x: Seq<(String, u64)>, es: Seq<RouteEntry>, i: int, e: (String, u64))
    requires
        exact_ok(x, es, i),
        0 <= i < es.len(),
        all_static(entry_segments(es[i])),
        e.0@ == path_from_values(static_texts(entry_segments(es[i]))),
        e.1 == es[i].route_id,
        forall|a: int| 0 <= a < x.len() ==> x[a].0@ != e.0@,
    ensures
        exact_ok(x.push(e), es, i + 1),
{
    let t = x.push(e);
    assert forall|a: int, b: int| 0 <= a < b < t.len() implies t[a].0@ != t[b].0@ by {
        if b == x.len() {
            assert(t[a] == x[a] && t[b] == e);
        } else {
            assert(t[a] == x[a] && t[b] == x[b]);
        }
    }
    assert forall|k: int| 0 <= k < i implies !entry_hit(es[k], e.0@, 0) by {
        if entry_hit(es[k], e.0@, 0) {
            assert(all_static(entry_segments(es[k])));
            let b = choose|b: int|
                0 <= b < x.len() && x[b].0@ == path_from_values(static_texts(entry_segments(es[k])));
        }
    }
    assert(exact_first(es, e.0@, i));
    assert forall|c: int| 0 <= c < t.len() implies #[trigger] exact_entry(t[c], es, i + 1) by {
        if c < x.len() {
            assert(t[c] == x[c]);
            assert(exact_entry(x[c], es, i));
            let j = choose|j: int| j < i && #[trigger] exact_first(es, x[c].0@, j) && es[j].route_id == x[c].1;
            assert(exact_first(es, x[c].0@, j));
        } else {
            assert(t[c] == e);
            assert(exact_first(es, t[c].0@, i));
        }
    }
    assert forall|j: int| 0 <= j < i + 1 && all_static(entry_segments(#[trigger] es[j])) implies exists|b: int|
        0 <= b < t.len() && t[b].0@ == path_from_values(static_texts(entry_segments(es[j]))) by {
        if j == i {
            assert(t[x.len() as int] == e);
        } else {
            let b = choose|b: int|
                0 <= b < x.len() && x[b].0@ == path_from_values(static_texts(entry_segments(es[j])));
            assert(t[b] == x[b]);
        }
    }
}

fn add_exact(x: &mut Vec<(String, u64)>, Ghost(es): Ghost<Seq<RouteEntry>>, i: usize, m: &RouteEntryMeta, id: u64)
    requires
        exact_ok(old(x)@, es, i as int),
        i < es.len(),
        id == es[i as int].route_id,
        meta_ok(*m, entry_segments(es[i as int])),
    ensures
        exact_ok(final(x)@, es, i + 1),
{
    match &m.exact_static_path {
        None => {
            proof {
                lemma_exact_keep(x@, es, i as int);
            }
        },
        Some(p) => {
            let mut a: usize = 0;
            let mut found = false;
            while a < x.len() && !found
                invariant
                    a <= x.len(),
                    x@ == old(x)@,
                    found ==> a < x.len() && x@[a as int].0@ == p@,
                    !found ==> forall|b: int| 0 <= b < a ==> x@[b].0@ != p@,
                decreases x.len() - a + (if found { 0int } else { 1int }),
            {
                if x[a].0 == *p {
                    found = true;
                } else {
                    a = a + 1;
                }
            }
            if found {
                proof {
                    lemma_exact_keep(x@, es, i as int);
                }
            } else {
                let e = (p.clone(), id);
                proof {
                    lemma_exact_push(x@, es, i as int, e);
                }
                x.push(e);
            }
        },
    }
}

fn add_to_bucket(b: &mut Vec<(String, Vec<usize>)>, Ghost(es): Ghost<Seq<RouteEntry>>, i: usize, m: &RouteEntryMeta)
    requires
        buckets_ok(old(b)@, es, i as int),
        i < es.len(),
        i < usize::MAX,
        meta_ok(*m, entry_segments(es[i as int])),
    ensures
        buckets_ok(final(b)@, es, i + 1),
{
    let ghost old_b = b@;
    match &m.first_static_segment {
        None => {
            assert forall|x: int| 0 <= x < b@.len() implies lists(#[trigger] b@[x].1@, i + 1, pass_pred(es, b@[x].0@, 1)) by {
                lemma_lists_extend(b@[x].1@, i as int, pass_pred(es, b@[x].0@, 1));
            }
        },
        Some(f) => {
            let mut x: usize = 0;
            let mut found = false;
            while x < b.len() && !found
                invariant
                    x <= b.len(),
                    b@ == old_b,
                    found ==> x < b.len() && b@[x as int].0@ == f@,
                    !found ==> forall|y: int| 0 <= y < x ==> b@[y].0@ != f@,
                decreases b.len() - x + (if found { 0int } else { 1int }),
            {
                if b[x].0 == *f {
                    found = true;
                } else {
                    x = x + 1;
                }
            }
            if found {
                let (key, mut list) = b.remove(x);
                let ghost old_list = list@;
                proof {
                    lemma_lists_extend(old_list, i as int, pass_pred(es, key@, 1));
                }
                list.push(i);
                b.insert(x, (key, list));
                assert forall|y: int| 0 <= y < b@.len() implies lists(#[trigger] b@[y].1@, i + 1, pass_pred(es, b@[y].0@, 1)) by {
                    if y != x {
                        assert(b@[y] == old_b[y]);
                        assert(old_b[y].0@ != f@);
                        lemma_lists_extend(old_b[y].1@, i as int, pass_pred(es, old_b[y].0@, 1));
                    }
                }
                assert forall|j: int| 0 <= j < i + 1 && first_static(entry_segments(#[trigger] es[j])) is Some implies exists|y: int|
                    0 <= y < b@.len() && b@[y].0@ == first_static(entry_segments(es[j]))->0 by {
                    if j == i {
                        assert(b@[x as int].0@ == f@);
                    } else {
                        let y = choose|y: int| 0 <= y < old_b.len() && old_b[y].0@ == first_static(entry_segments(es[j]))->0;
                        assert(b@[y].0@ == old_b[y].0@);
                    }
                }
                assert forall|y: int, z: int| 0 <= y < z < b@.len() implies b@[y].0@ != b@[z].0@ by {
                    assert(b@[y].0@ == old_b[y].0@ && b@[z].0@ == old_b[z].0@);
                }
            } else {
                let mut list: Vec<usize> = Vec::new();
                list.push(i);
                let key = f.clone();
                let ghost new_pred = pass_pred(es, f@, 1);
                assert(lists(list@, i + 1, new_pred)) by {
                    assert forall|j: int| 0 <= j < i + 1 && #[trigger] new_pred(j) implies exists|a: int| 0 <= a < list@.len() && list@[a] == j by {
                        if j < i {
                            let y = choose|y: int| 0 <= y < old_b.len() && old_b[y].0@ == first_static(entry_segments(es[j]))->0;
                            assert(old_b[y].0@ == f@);
                        } else {
                            assert(list@[0] == j);
                        }
                    }
                }
                b.push((key, list));
                assert forall|y: int| 0 <= y < b@.len() implies lists(#[trigger] b@[y].1@, i + 1, pass_pred(es, b@[y].0@, 1)) by {
                    if y < old_b.len() {
                        assert(b@[y] == old_b[y]);
                        assert(old_b[y].0@ != f@);
                        lemma_lists_extend(old_b[y].1@, i as int, pass_pred(es, old_b[y].0@, 1));
                    }
                }
                assert forall|j: int| 0 <= j < i + 1 && first_static(entry_segments(#[trigger] es[j])) is Some implies exists|y: int|
                    0 <= y < b@.len() && b@[y].0@ == first_static(entry_segments(es[j]))->0 by {
                    if j == i {
                        assert(b@[old_b.len() as int].0@ == f@);
                    } else {
                        let y = choose|y: int| 0 <= y < old_b.len() && old_b[y].0@ == first_static(entry_segments(es[j]))->0;
                        assert(b@[y] == old_b[y]);
                    }
                }
            }
        },
    }
}

fn add_fallback(
    dynamic: &mut Vec<usize>,
    wildcard: &mut Vec<usize>,
    Ghost(es): Ghost<Seq<RouteEntry>>,
    i: usize,
    m: &RouteEntryMeta,
)
    requires
        lists(old(dynamic)@, i as int, pass_pred(es, Seq::empty(), 2)),
        lists(old(wildcard)@, i as int, pass_pred(es, Seq::empty(), 3)),
        i < es.len(),
        i < usize::MAX,
        meta_ok(*m, entry_segments(es[i as int])),
    ensures
        lists(final(dynamic)@, i + 1, pass_pred(es, Seq::empty(), 2)),
        lists(final(wildcard)@, i + 1, pass_pred(es, Seq::empty(), 3)),
{
    proof {
        lemma_lists_extend(dynamic@, i as int, pass_pred(es, Seq::empty(), 2));
        lemma_lists_extend(wildcard@, i as int, pass_pred(es, Seq::empty(), 3));
    }
    if m.first_static_segment.is_none() {
        if m.has_wildcard {
            wildcard.push(i);
        } else {
            dynamic.push(i);
        }
    }
}

/// Registry of routes by id and of patterns in priority order.
#[derive(Debug)]
pub struct RouteRegistry {
    by_id: HashMap<u64, RouteEntry>,
    by_pattern: Vec<RouteEntry>,
    metas: Vec<RouteEntryMeta>,
    /// Normalized path of each fully static pattern, with the id of the
    /// first entry that has it.
    exact_static: Vec<(String, u64)>,
    /// Entry positions by first static segment, ascending.
    by_first_segment: Vec<(String, Vec<usize>)>,
    /// Positions of entries without a static first segment or a wildcard.
    fallback_dynamic: Vec<usize>,
    /// Positions of entries without a static first segment, with a wildcard.
    fallback_wildcard: Vec<usize>,
}

impl RouteRegistry {
    /// The patterned entries in resolution order.
    pub closed spec fn entries(&self) -> Seq<RouteEntry> {
        self.by_pattern@
    }

    /// The latest registration of each id.
    pub closed spec fn ids(&self) -> Map<u64, RouteEntry> {
        self.by_id@
    }

    /// The patterned entries are in ascending priority and the resolution
    /// data matches them.
    pub closed spec fn wf(&self) -> bool {
        &&& self.metas.len() == self.by_pattern.len()
        &&& forall|i: int|
            0 <= i < self.metas.len() ==> meta_ok(
                #[trigger] self.metas@[i],
                entry_segments(self.by_pattern@[i]),
            )
        &&& forall|i: int, j: int|
            0 <= i < j < self.by_pattern.len() ==> self.by_pattern@[i].priority
                <= self.by_pattern@[j].priority
        &&& forall|i: int| 0 <= i < self.by_pattern.len() ==> (#[trigger] self.by_pattern@[i]).pattern is Some
        &&& exact_ok(self.exact_static@, self.by_pattern@, self.by_pattern.len() as int)
        &&& buckets_ok(self.by_first_segment@, self.by_pattern@, self.by_pattern.len() as int)
        &&& lists(self.fallback_dynamic@, self.by_pattern.len() as int, pass_pred(self.by_pattern@, Seq::empty(), 2))
        &&& lists(self.fallback_wildcard@, self.by_pattern.len() as int, pass_pred(self.by_pattern@, Seq::empty(), 3))
    }

    /// The pattern registered last for `id`, if any.
    pub open spec fn pattern_of(&self, id: u64) -> Option<RoutePatternRef> {
        if self.ids().contains_key(id) {
            self.ids()[id].pattern
        } else {
            None
        }
    }

    /// An empty registry.
    pub fn new() -> (r: RouteRegistry)
        ensures
            r.wf(),
            r.entries() == Seq::<RouteEntry>::empty(),
            r.ids() == Map::<u64, RouteEntry>::empty(),
    {
        RouteRegistry {
            by_id: HashMap::new(),
            by_pattern: Vec::new(),
            metas: Vec::new(),
            exact_static: Vec::new(),
            by_first_segment: Vec::new(),
            fallback_dynamic: Vec::new(),
            fallback_wildcard: Vec::new(),
        }
    }

    /// Registers `route_id` without a pattern.
    pub fn register_by_id(&mut self, route_id: u64)
        requires
            old(self).wf(),
        ensures
            final(self).wf(),
            final(self).entries() == old(self).entries(),
            final(self).ids() == old(self).ids().insert(
                route_id,
                RouteEntry { route_id, pattern: None, priority: 0 },
            ),
    {
        let entry = RouteEntry { route_id, pattern: None, priority: 0 };
        self.by_id.insert(route_id, entry);
    }

    fn rebuild_indices(&mut self)
        requires
            forall|i: int, j: int|
                0 <= i < j < old(self).by_pattern.len() ==> old(self).by_pattern@[i].priority
                    <= old(self).by_pattern@[j].priority,
            forall|i: int|
                0 <= i < old(self).by_pattern.len() ==> (#[trigger] old(self).by_pattern@[i]).pattern is Some,
        ensures
            final(self).wf(),
            final(self).by_pattern == old(self).by_pattern,
            final(self).by_id == old(self).by_id,
    {
        let mut metas: Vec<RouteEntryMeta> = Vec::new();
        let mut i: usize = 0;
        while i < self.by_pattern.len()
            invariant
                i <= self.by_pattern.len(),
                self.by_pattern == old(self).by_pattern,
                self.by_id == old(self).by_id,
                metas.len() == i,
                forall|k: int|
                    0 <= k < i ==> meta_ok(#[trigger] metas@[k], entry_segments(self.by_pattern@[k])),
            decreases self.by_pattern.len() - i,
        {
            let meta = match &self.by_pattern[i].pattern {
                Some(p) => {
                    let m = compute_meta(p.get());
                    assert(entry_segments(self.by_pattern@[i as int]) == p.0.segments@);
                    m
                },
                None => {
                    assert(entry_segments(self.by_pattern@[i as int]) =~= Seq::<RouteSegment>::empty());
                    assert(static_texts(Seq::<RouteSegment>::empty()) =~= Seq::<Seq<char>>::empty());
                    let root = string_of(&['/']);
                    assert(root@ =~= seq!['/']);
                    RouteEntryMeta {
                        first_static_segment: None,
                        has_wildcard: false,
                        exact_static_path: Some(root),
                    }
                },
            };
            let ghost before = metas@;
            metas.push(meta);
            assert forall|k: int| 0 <= k < i + 1 implies meta_ok(
                #[trigger] metas@[k],
                entry_segments(self.by_pattern@[k]),
            ) by {
                if k < i {
                    assert(metas@[k] == before[k]);
                }
            }
            i = i + 1;
        }
        self.metas = metas;
        let ghost es = self.by_pattern@;
        let mut exact: Vec<(String, u64)> = Vec::new();
        let mut buckets: Vec<(String, Vec<usize>)> = Vec::new();
        let mut dynamic: Vec<usize> = Vec::new();
        let mut wildcard: Vec<usize> = Vec::new();
        let mut k: usize = 0;
        while k < self.by_pattern.len()
            invariant
                k <= self.by_pattern.len(),
                es == self.by_pattern@,
                self.by_pattern == old(self).by_pattern,
                self.by_id == old(self).by_id,
                self.metas.len() == self.by_pattern.len(),
                forall|q: int|
                    0 <= q < self.metas.len() ==> meta_ok(#[trigger] self.metas@[q], entry_segments(self.by_pattern@[q])),
                exact_ok(exact@, es, k as int),
                buckets_ok(buckets@, es, k as int),
                lists(dynamic@, k as int, pass_pred(es, Seq::empty(), 2)),
                lists(wildcard@, k as int, pass_pred(es, Seq::empty(), 3)),
            decreases self.by_pattern.len() - k,
        {
            let meta = &self.metas[k];
            assert(meta_ok(self.metas@[k as int], entry_segments(es[k as int])));
            add_exact(&mut exact, Ghost(es), k, meta, self.by_pattern[k].route_id);
            add_to_bucket(&mut buckets, Ghost(es), k, meta);
            add_fallback(&mut dynamic, &mut wildcard, Ghost(es), k, meta);
            k = k + 1;
        }
        self.exact_static = exact;
        self.by_first_segment = buckets;
        self.fallback_dynamic = dynamic;
        self.fallback_wildcard = wildcard;
    }

    /// Parses `pattern` and registers it for `route_id`, after the patterns
    /// of equal or lower priority value.
    pub fn register_pattern(&mut self, pattern: &str, route_id: u64) -> (r: Result<(), String>)
        requires
            old(self).wf(),
        ensures
            final(self).wf(),
            match r {
                Ok(()) => parses(pattern@) && exists|e: RouteEntry, k: int|
                    {
                        &&& e.route_id == route_id
                        &&& pattern_from_text(e, pattern@)
                        &&& e.priority == capped_priority(entry_segments(e))
                        &&& insert_position(old(self).entries(), e.priority, k)
                        &&& final(self).entries() == old(self).entries().insert(k, e)
                        &&& final(self).ids() == old(self).ids().insert(route_id, e)
                    },
                Err(e) => {
                    &&& !parses(pattern@)
                    &&& parse_error(pattern@, e@)
                    &&& final(self).entries() == old(self).entries()
                    &&& final(self).ids() == old(self).ids()
                },
            },
    {
        let route_pattern = match RoutePattern::parse(pattern) {
            Ok(p) => p,
            Err(e) => {
                return Err(e);
            },
        };
        let priority = route_pattern.priority();
        let ghost route_pattern_segments = route_pattern.segments@;
        let shared = RoutePatternRef::new(route_pattern);
        let entry = RouteEntry { route_id, pattern: Some(shared.clone()), priority };
        let by_id_entry = RouteEntry { route_id, pattern: Some(shared), priority };
        let ghost e = entry;
        assert(by_id_entry == entry);
        assert(entry_segments(e) == route_pattern_segments);
        self.by_id.insert(route_id, by_id_entry);
        let mut pos: usize = 0;
        while pos < self.by_pattern.len() && self.by_pattern[pos].priority <= priority
            invariant
                pos <= self.by_pattern.len(),
                self.by_pattern == old(self).by_pattern,
                forall|j: int| 0 <= j < pos ==> self.by_pattern@[j].priority <= priority,
            decreases self.by_pattern.len() - pos,
        {
            pos = pos + 1;
        }
        let ghost before = self.by_pattern@;
        self.by_pattern.insert(pos, entry);
        assert(insert_position(before, priority, pos as int));
        assert forall|i: int, j: int|
            0 <= i < j < self.by_pattern.len() implies self.by_pattern@[i].priority
                <= self.by_pattern@[j].priority by {
            if j < pos {
            } else if i < pos && j == pos {
            } else if i < pos {
                assert(self.by_pattern@[j] == before[j - 1]);
            } else if i == pos {
                assert(self.by_pattern@[j] == before[j - 1]);
                assert(before[pos as int].priority > priority);
            } else {
                assert(self.by_pattern@[j] == before[j - 1]);
                assert(self.by_pattern@[i] == before[i - 1]);
            }
        }
        assert forall|i: int| 0 <= i < self.by_pattern.len() implies (
        #[trigger] self.by_pattern@[i]).pattern is Some by {
            if i < pos {
            } else if i > pos {
                assert(self.by_pattern@[i] == before[i - 1]);
            }
        }
        self.rebuild_indices();
        assert(pattern_from_text(e, pattern@));
        assert(e.priority == capped_priority(entry_segments(e)));
        assert(self.entries() == old(self).entries().insert(pos as int, e));
        assert(self.ids() == old(self).ids().insert(route_id, e));
        assert(insert_position(old(self).entries(), e.priority, pos as int));
        Ok(())
    }

    /// The id that the static path table holds for `norm`.
    fn lookup_exact(&self, norm: &String) -> (r: Option<u64>)
        requires
            self.wf(),
        ensures
            match r {
                Some(id) => exists|j: int| first_hit(self.entries(), norm@, 0, j) && self.entries()[j].route_id == id,
                None => forall|j: int| 0 <= j < self.entries().len() ==> !entry_hit(self.entries()[j], norm@, 0),
            },
    {
        let ghost es = self.by_pattern@;
        let mut a: usize = 0;
        while a < self.exact_static.len()
            invariant
                self.wf(),
                es == self.by_pattern@,
                a <= self.exact_static.len(),
                forall|b: int| 0 <= b < a ==> self.exact_static@[b].0@ != norm@,
            decreases self.exact_static.len() - a,
        {
            if self.exact_static[a].0 == *norm {
                let id = self.exact_static[a].1;
                assert(exact_entry(self.exact_static@[a as int], es, es.len() as int));
                let ghost j = choose|j: int| j < es.len() && #[trigger] exact_first(es, norm@, j) && es[j].route_id == id;
                assert(exact_first(es, norm@, j));
                assert(first_hit(self.entries(), norm@, 0, j) && self.entries()[j].route_id == id);
                return Some(id);
            }
            a = a + 1;
        }
        assert forall|j: int| 0 <= j < es.len() implies !entry_hit(es[j], norm@, 0) by {
            if entry_hit(es[j], norm@, 0) {
                assert(all_static(entry_segments(es[j])));
                let b = choose|b: int|
                    0 <= b < self.exact_static@.len() && self.exact_static@[b].0@ == path_from_values(
                        static_texts(entry_segments(es[j])),
                    );
            }
        }
        None
    }

    /// The first entry of index list `list` (the entries of pass `phase`)
    /// whose pattern matches `norm`, with the parameters it captures.
    fn scan_list(&self, list: &Vec<usize>, norm: &String, Ghost(first): Ghost<Seq<char>>, Ghost(phase): Ghost<int>) -> (r: Option<(usize, RouteParams)>)
        requires
            self.wf(),
            1 <= phase <= 3,
            phase == 1 ==> first == first_segment(norm@),
            lists(list@, self.entries().len() as int, pass_pred(self.entries(), first, phase)),
        ensures
            match r {
                Some((i, params)) => {
                    &&& i < self.entries().len()
                    &&& entry_hit(self.entries()[i as int], norm@, phase)
                    &&& forall|j: int| 0 <= j < i ==> !entry_hit(self.entries()[j], norm@, phase)
                    &&& params@ == match_params(entry_segments(self.entries()[i as int]), norm@)->0
                },
                None => forall|j: int|
                    0 <= j < self.entries().len() ==> !entry_hit(self.entries()[j], norm@, phase),
            },
    {
        let ghost es = self.by_pattern@;
        let ghost pred = pass_pred(es, first, phase);
        let mut k: usize = 0;
        while k < list.len()
            invariant
                self.wf(),
                es == self.by_pattern@,
                k <= list.len(),
                1 <= phase <= 3,
                phase == 1 ==> first == first_segment(norm@),
                pred == pass_pred(es, first, phase),
                lists(list@, es.len() as int, pred),
                forall|a: int| 0 <= a < k ==> !entry_hit(es[list@[a] as int], norm@, phase),
            decreases list.len() - k,
        {
            let i = list[k];
            assert(i < es.len() && pred(i as int));
            match &self.by_pattern[i].pattern {
                Some(p) => {
                    match p.get().matches(norm.as_str()) {
                        Some(params) => {
                            assert(entry_segments(es[i as int]) == p.0.segments@);
                            assert(in_pass(es[i as int], first, phase));
                            assert(match_params(entry_segments(es[i as int]), norm@) is Some);
                            assert(entry_hit(es[i as int], norm@, phase));
                            assert forall|j: int| 0 <= j < i implies !entry_hit(es[j], norm@, phase) by {
                                if entry_hit(es[j], norm@, phase) {
                                    assert(pred(j));
                                    let a = choose|a: int| 0 <= a < list@.len() && list@[a] == j;
                                    if a >= k {
                                        if a > k {
                                            assert(list@[k as int] < list@[a]);
                                        }
                                    }
                                }
                            }
                            return Some((i, params));
                        },
                        None => {
                            assert(entry_segments(es[i as int]) == p.0.segments@);
                        },
                    }
                },
                None => {
                    assert(false);
                },
            }
            k = k + 1;
        }
        assert forall|j: int| 0 <= j < es.len() implies !entry_hit(es[j], norm@, phase) by {
            if entry_hit(es[j], norm@, phase) {
                assert(pred(j));
                let a = choose|a: int| 0 <= a < list@.len() && list@[a] == j;
            }
        }
        None
    }

    /// The first entry that pass `phase` (1 to 3) resolves `norm` to, with
    /// the parameters it captures.
    fn scan(&self, norm: &String, first: &String, phase: u8) -> (r: Option<(usize, RouteParams)>)
        requires
            self.wf(),
            first@ == first_segment(norm@),
            1 <= phase < 4,
        ensures
            match r {
                Some((i, params)) => {
                    &&& i < self.entries().len()
                    &&& entry_hit(self.entries()[i as int], norm@, phase as int)
                    &&& forall|j: int| 0 <= j < i ==> !entry_hit(self.entries()[j], norm@, phase as int)
                    &&& params@ == match_params(entry_segments(self.entries()[i as int]), norm@)->0
                },
                None => forall|j: int|
                    0 <= j < self.entries().len() ==> !entry_hit(self.entries()[j], norm@, phase as int),
            },
    {
        let ghost es = self.by_pattern@;
        if phase == 2 {
            return self.scan_list(&self.fallback_dynamic, norm, Ghost(Seq::empty()), Ghost(2int));
        }
        if phase == 3 {
            return self.scan_list(&self.fallback_wildcard, norm, Ghost(Seq::empty()), Ghost(3int));
        }
        let mut x: usize = 0;
        while x < self.by_first_segment.len()
            invariant
                self.wf(),
                es == self.by_pattern@,
                x <= self.by_first_segment.len(),
                phase == 1,
                first@ == first_segment(norm@),
                forall|y: int| 0 <= y < x ==> self.by_first_segment@[y].0@ != first@,
            decreases self.by_first_segment.len() - x,
        {
            if self.by_first_segment[x].0 == *first {
                assert(lists(self.by_first_segment@[x as int].1@, es.len() as int, pass_pred(es, self.by_first_segment@[x as int].0@, 1)));
                return self.scan_list(&self.by_first_segment[x].1, norm, Ghost(first@), Ghost(1int));
            }
            x = x + 1;
        }
        assert forall|j: int| 0 <= j < es.len() implies !entry_hit(es[j], norm@, 1) by {
            if entry_hit(es[j], norm@, 1) {
                let y = choose|y: int|
                    0 <= y < self.by_first_segment@.len() && self.by_first_segment@[y].0@ == first_static(
                        entry_segments(es[j]),
                    )->0;
            }
        }
        None
    }

    /// Resolves a path to the route it names. The path is normalized first;
    /// then the passes run in order (exact static paths, patterns whose first
    /// segment is the path's first segment, other patterns without wildcards,
    /// patterns with wildcards), each in priority order; the first hit wins.
    pub fn resolve_path(&self, path: &str) -> (r: Option<Route>)
        requires
            self.wf(),
        ensures
            r is Some <==> exists|ph: int, i: int|
                first_hit(self.entries(), normalized_path(path@), ph, i),
            r is Some ==> exists|ph: int, i: int|
                {
                    &&& first_hit(self.entries(), normalized_path(path@), ph, i)
                    &&& resolved_as(
                        r->0@,
                        self.pattern_of(self.entries()[i].route_id),
                        self.entries()[i],
                        normalized_path(path@),
                        ph,
                    )
                },
    {
        let norm = normalize_path(path);
        let chars = chars_of(norm.as_str());
        let start: usize = if chars.len() > 0 && chars[0] == '/' {
            1
        } else {
            0
        };
        let rest = slice_of(chars.as_slice(), start, chars.len());
        assert(rest@ == (if norm@.len() > 0 && norm@[0] == '/' {
            norm@.drop_first()
        } else {
            norm@
        }));
        let end = find_char_from(rest.as_slice(), '/', 0);
        let first_chars = slice_of(rest.as_slice(), 0, end);
        let first = string_of(first_chars.as_slice());
        let ghost n = norm@;
        let ghost es = self.entries();
        match self.lookup_exact(&norm) {
            Some(id) => {
                let pattern = match self.get_pattern(id) {
                    Some(p) => Some(p.clone()),
                    None => None,
                };
                let route = Route {
                    id,
                    params: RouteParams::new(),
                    query: RouteQuery::new(),
                    hash: String::new(),
                    pattern,
                };
                let ghost j = choose|j: int| first_hit(es, n, 0, j) && es[j].route_id == id;
                assert(resolved_as(route@, self.pattern_of(es[j].route_id), es[j], n, 0));
                return Some(route);
            },
            None => {},
        }
        let mut phase: u8 = 1;
        while phase < 4
            invariant
                1 <= phase <= 4,
                self.wf(),
                n == normalized_path(path@),
                n == norm@,
                es == self.entries(),
                first@ == first_segment(n),
                forall|q: int, j: int| 0 <= q < phase && 0 <= j < es.len() ==> !entry_hit(es[j], n, q),
            decreases 4 - phase,
        {
            match self.scan(&norm, &first, phase) {
                Some((i, params)) => {
                    let entry = &self.by_pattern[i];
                    let id = entry.route_id;
                    let pattern = match &entry.pattern {
                        Some(p) => Some(p.clone()),
                        None => None,
                    };
                    let route = Route {
                        id,
                        params,
                        query: RouteQuery::new(),
                        hash: String::new(),
                        pattern,
                    };
                    assert(first_hit(es, n, phase as int, i as int));
                    assert(resolved_as(route@, self.pattern_of(es[i as int].route_id), es[i as int], n, phase as int));
                    return Some(route);
                },
                None => {},
            }
            phase = phase + 1;
        }
        None
    }

    /// Whether `route_id` is registered.
    pub fn has_route(&self, route_id: u64) -> (r: bool)
        ensures
            r == self.ids().contains_key(route_id),
    {
        self.by_id.contains_key(&route_id)
    }

    /// The pattern registered last for `route_id`.
    pub fn get_pattern(&self, route_id: u64) -> (r: Option<&RoutePatternRef>)
        ensures
            r is Some <==> self.pattern_of(route_id) is Some,
            r is Some ==> *r->0 == self.pattern_of(route_id)->0,
    {
        match self.by_id.get(&route_id) {
            Some(e) => match &e.pattern {
                Some(p) => Some(p),
                None => None,
            },
            None => None,
        }
    }
}

} // verus!
