//! Route patterns: parsing pattern text into segments, matching paths
//! against a pattern, and the priority that orders patterns.

use vstd::prelude::*;
use crate::live_id::{live_id, live_id_of};
use crate::params::RouteParams;
use crate::text::{chars_of, push_char, slice_of, string_of, trim, trim_chars};

verus! {

/// The views of a sequence of strings.
pub open spec fn views(s: Seq<String>) -> Seq<Seq<char>> {
    s.map_values(|x: String| x@)
}

/// Splitting state after reading `s`: the finished pieces, and the piece
/// being read.
pub open spec fn split_state(s: Seq<char>) -> (Seq<Seq<char>>, Seq<char>)
    decreases s.len(),
{
    if s.len() == 0 {
        (Seq::empty(), Seq::empty())
    } else {
        let (done, cur) = split_state(s.drop_last());
        if s.last() == '/' {
            (
                if cur.len() > 0 {
                    done.push(cur)
                } else {
                    done
                },
                Seq::empty(),
            )
        } else {
            (done, cur.push(s.last()))
        }
    }
}

/// The non-empty pieces of `s` between slashes, in order.
pub open spec fn segments_of(s: Seq<char>) -> Seq<Seq<char>> {
    let (done, cur) = split_state(s);
    if cur.len() > 0 {
        done.push(cur)
    } else {
        done
    }
}

/// The segments that matching reads from a path.
pub open spec fn path_segments(path: Seq<char>) -> Seq<Seq<char>> {
    segments_of(trim(path))
}

/// The non-empty pieces of `v` between slashes.
pub fn split_segments(v: &[char]) -> (r: Vec<String>)
    ensures
        views(r@) == segments_of(v@),
{
    let mut done: Vec<String> = Vec::new();
    let mut cur: Vec<char> = Vec::new();
    let mut i: usize = 0;
    while i < v.len()
        invariant
            i <= v.len(),
            (views(done@), cur@) == split_state(v@.take(i as int)),
        decreases v.len() - i,
    {
        assert(v@.take(i + 1).drop_last() == v@.take(i as int));
        if v[i] == '/' {
            if cur.len() > 0 {
                let piece = string_of(cur.as_slice());
                let ghost before = done@;
                done.push(piece);
                assert(views(done@) == views(before).push(cur@));
            }
            cur = Vec::new();
        } else {
            cur.push(v[i]);
        }
        i = i + 1;
    }
    assert(v@.take(i as int) == v@);
    if cur.len() > 0 {
        let piece = string_of(cur.as_slice());
        let ghost before = done@;
        done.push(piece);
        assert(views(done@) == views(before).push(cur@));
    }
    done
}

/// One segment of a route pattern.
#[derive(Debug)]
pub enum RouteSegment {
    /// Literal text that a path segment must equal.
    Static(String),
    /// A named parameter that captures one path segment; `key` is the id of
    /// `name`.
    Dynamic { name: String, key: u64 },
    /// `*`: exactly one path segment.
    WildcardSingle,
    /// `**`: all remaining path segments, possibly none. Only last.
    WildcardMulti,
}

/// A parsed route pattern.
#[derive(Debug)]
pub struct RoutePattern {
    /// The segments, in order.
    pub segments: Vec<RouteSegment>,
}

/// Two segments are the same: same kind, same texts and key.
pub open spec fn same_segment(a: RouteSegment, b: RouteSegment) -> bool {
    match (a, b) {
        (RouteSegment::Static(s), RouteSegment::Static(t)) => s@ == t@,
        (RouteSegment::Dynamic { name: n, key: k }, RouteSegment::Dynamic { name: m, key: l }) => n@ == m@ && k == l,
        (RouteSegment::WildcardSingle, RouteSegment::WildcardSingle) => true,
        (RouteSegment::WildcardMulti, RouteSegment::WildcardMulti) => true,
        _ => false,
    }
}

/// Two patterns have the same segments.
pub open spec fn same_pattern(a: RoutePattern, b: RoutePattern) -> bool {
    a.segments.len() == b.segments.len() && forall|i: int|
        0 <= i < a.segments.len() ==> same_segment(#[trigger] a.segments@[i], b.segments@[i])
}

impl PartialEq for RouteSegment {
    fn eq(&self, other: &RouteSegment) -> (r: bool) {
        match (self, other) {
            (RouteSegment::Static(s), RouteSegment::Static(t)) => *s == *t,
            (RouteSegment::Dynamic { name: n, key: k }, RouteSegment::Dynamic { name: m, key: l }) => *n == *m && *k == *l,
            (RouteSegment::WildcardSingle, RouteSegment::WildcardSingle) => true,
            (RouteSegment::WildcardMulti, RouteSegment::WildcardMulti) => true,
            _ => false,
        }
    }
}

impl vstd::std_specs::cmp::PartialEqSpecImpl for RouteSegment {
    open spec fn obeys_eq_spec() -> bool {
        true
    }

    open spec fn eq_spec(&self, other: &RouteSegment) -> bool {
        same_segment(*self, *other)
    }
}

impl PartialEq for RoutePattern {
    fn eq(&self, other: &RoutePattern) -> (r: bool) {
        if self.segments.len() != other.segments.len() {
            return false;
        }
        let mut i: usize = 0;
        while i < self.segments.len()
            invariant
                i <= self.segments.len() == other.segments.len(),
                forall|k: int| 0 <= k < i ==> same_segment(#[trigger] self.segments@[k], other.segments@[k]),
            decreases self.segments.len() - i,
        {
            if !self.segments[i].eq(&other.segments[i]) {
                return false;
            }
            i = i + 1;
        }
        true
    }
}

impl vstd::std_specs::cmp::PartialEqSpecImpl for RoutePattern {
    open spec fn obeys_eq_spec() -> bool {
        true
    }

    open spec fn eq_spec(&self, other: &RoutePattern) -> bool {
        same_pattern(*self, *other)
    }
}

/// The segment that pattern text `t` (one piece between slashes) reads as.
pub open spec fn segment_reads_as(seg: RouteSegment, t: Seq<char>) -> bool {
    if t == seq!['*', '*'] {
        seg is WildcardMulti
    } else if t == seq!['*'] {
        seg is WildcardSingle
    } else if t.len() > 0 && t[0] == ':' {
        match seg {
            RouteSegment::Dynamic { name, key } => name@ == t.drop_first() && key == live_id_of(
                name@,
            ),
            _ => false,
        }
    } else {
        match seg {
            RouteSegment::Static(s) => s@ == t,
            _ => false,
        }
    }
}

/// Piece `i` of `pieces` makes the pattern malformed: a `**` before the last
/// piece, or a `:` without a name.
pub open spec fn bad_piece(pieces: Seq<Seq<char>>, i: int) -> bool {
    (pieces[i] == seq!['*', '*'] && i != pieces.len() - 1) || pieces[i] == seq![':']
}

/// The first malformed piece is at `i`.
pub open spec fn first_bad_piece(pieces: Seq<Seq<char>>, i: int) -> bool {
    0 <= i < pieces.len() && bad_piece(pieces, i) && forall|j: int|
        0 <= j < i ==> !bad_piece(pieces, j)
}

/// Pattern text parses: it is not blank and no piece is malformed.
pub open spec fn parses(text: Seq<char>) -> bool {
    let pieces = path_segments(text);
    trim(text).len() > 0 && forall|i: int| 0 <= i < pieces.len() ==> !bad_piece(pieces, i)
}

/// The error for blank pattern text.
pub open spec fn empty_pattern_error() -> Seq<char> {
    "Pattern cannot be empty"@
}

/// The error for a `**` before the last segment.
pub open spec fn wildcard_not_last_error() -> Seq<char> {
    "Multi-segment wildcard (**) must be the last segment"@
}

/// The error for a `:` without a name.
pub open spec fn empty_param_name_error() -> Seq<char> {
    "Dynamic segment parameter name cannot be empty"@
}

/// The error that parsing `text` gives, where it fails.
pub open spec fn parse_error(text: Seq<char>, e: Seq<char>) -> bool {
    let pieces = path_segments(text);
    if trim(text).len() == 0 {
        e == empty_pattern_error()
    } else {
        exists|i: int|
            first_bad_piece(pieces, i) && e == (if pieces[i] == seq![':'] {
                empty_param_name_error()
            } else {
                wildcard_not_last_error()
            })
    }
}

/// Walks pattern and path segments in step from `(i, j)` with the
/// parameters `acc` captured so far; the parameters of a full match.
pub open spec fn match_walk(
    pat: Seq<RouteSegment>,
    path: Seq<Seq<char>>,
    i: int,
    j: int,
    acc: Map<u64, Seq<char>>,
) -> Option<Map<u64, Seq<char>>>
    decreases pat.len() - i,
{
    if i < 0 || j < 0 {
        None
    } else if i >= pat.len() {
        if j >= path.len() {
            Some(acc)
        } else {
            None
        }
    } else if j >= path.len() {
        if i == pat.len() - 1 && pat[i] is WildcardMulti {
            Some(acc)
        } else {
            None
        }
    } else {
        match pat[i] {
            RouteSegment::Static(t) => if path[j] == t@ {
                match_walk(pat, path, i + 1, j + 1, acc)
            } else {
                None
            },
            RouteSegment::Dynamic { name, key } => match_walk(
                pat,
                path,
                i + 1,
                j + 1,
                acc.insert(key, path[j]),
            ),
            RouteSegment::WildcardSingle => match_walk(pat, path, i + 1, j + 1, acc),
            RouteSegment::WildcardMulti => Some(acc),
        }
    }
}

/// The parameters that matching `path` against `pat` captures, if it matches.
pub open spec fn match_params(pat: Seq<RouteSegment>, path: Seq<char>) -> Option<
    Map<u64, Seq<char>>,
> {
    match_walk(pat, path_segments(path), 0, 0, Map::empty())
}

/// `/` before each piece, all joined.
pub open spec fn slash_join(s: Seq<Seq<char>>) -> Seq<char>
    decreases s.len(),
{
    if s.len() == 0 {
        Seq::empty()
    } else {
        slash_join(s.drop_last()) + seq!['/'] + s.last()
    }
}

/// Where a prefix match that has read up to `(i, j)` ends: the parameters and
/// the path index where the tail starts.
pub open spec fn prefix_finish(
    pat: Seq<RouteSegment>,
    path: Seq<Seq<char>>,
    i: int,
    j: int,
    acc: Map<u64, Seq<char>>,
    tail: Option<int>,
) -> Option<(Map<u64, Seq<char>>, int)> {
    if i < pat.len() {
        if i == pat.len() - 1 && pat[i] is WildcardMulti {
            Some((acc, j))
        } else {
            None
        }
    } else {
        match tail {
            Some(t) => Some((acc, t)),
            None => Some((acc, j)),
        }
    }
}

/// The prefix walk: like `match_walk`, but a trailing wildcard and any path
/// left over after the pattern become the tail.
pub open spec fn prefix_walk(
    pat: Seq<RouteSegment>,
    path: Seq<Seq<char>>,
    i: int,
    j: int,
    acc: Map<u64, Seq<char>>,
    tail: Option<int>,
) -> Option<(Map<u64, Seq<char>>, int)>
    decreases pat.len() - i,
{
    if 0 <= i < pat.len() && 0 <= j < path.len() {
        match pat[i] {
            RouteSegment::Static(t) => if path[j] == t@ {
                prefix_walk(pat, path, i + 1, j + 1, acc, tail)
            } else {
                None
            },
            RouteSegment::Dynamic { name, key } => prefix_walk(
                pat,
                path,
                i + 1,
                j + 1,
                acc.insert(key, path[j]),
                tail,
            ),
            RouteSegment::WildcardSingle => prefix_walk(
                pat,
                path,
                i + 1,
                j + 1,
                acc,
                if i == pat.len() - 1 {
                    Some(j)
                } else {
                    tail
                },
            ),
            RouteSegment::WildcardMulti => prefix_finish(
                pat,
                path,
                i + 1,
                path.len() as int,
                acc,
                Some(j),
            ),
        }
    } else {
        prefix_finish(pat, path, i, j, acc, tail)
    }
}

/// The parameters and tail text of a prefix match of `path` against `pat`.
pub open spec fn prefix_match(pat: Seq<RouteSegment>, path: Seq<char>) -> Option<
    (Map<u64, Seq<char>>, Seq<char>),
> {
    let segs = path_segments(path);
    match prefix_walk(pat, segs, 0, 0, Map::empty(), None) {
        Some((params, t)) => Some(
            (params, if t < segs.len() {
                slash_join(segs.subrange(t, segs.len() as int))
            } else {
                Seq::empty()
            }),
        ),
        None => None,
    }
}

/// The weight of one segment: lower is more specific.
pub open spec fn segment_weight(seg: RouteSegment) -> nat {
    match seg {
        RouteSegment::Static(_) => 1,
        RouteSegment::Dynamic { .. } => 100,
        RouteSegment::WildcardSingle => 10000,
        RouteSegment::WildcardMulti => 100000,
    }
}

/// The sum of the segments' weights.
pub open spec fn priority_of(segs: Seq<RouteSegment>) -> nat
    decreases segs.len(),
{
    if segs.len() == 0 {
        0
    } else {
        priority_of(segs.drop_last()) + segment_weight(segs.last())
    }
}

/// `priority_of`, capped at the largest `usize`.
pub open spec fn capped_priority(segs: Seq<RouteSegment>) -> nat {
    if priority_of(segs) <= usize::MAX {
        priority_of(segs)
    } else {
        usize::MAX as nat
    }
}


/// The text a segment formats to under `params`, if it has one.
pub open spec fn segment_text(seg: RouteSegment, params: Map<u64, Seq<char>>) -> Option<Seq<char>> {
    match seg {
        RouteSegment::Static(s) => Some(s@),
        RouteSegment::Dynamic { name, key } => if params.contains_key(key) {
            Some(params[key])
        } else {
            None
        },
        _ => None,
    }
}

/// The texts of all segments, if every one has a text.
pub open spec fn format_values(segs: Seq<RouteSegment>, params: Map<u64, Seq<char>>) -> Option<
    Seq<Seq<char>>,
>
    decreases segs.len(),
{
    if segs.len() == 0 {
        Some(Seq::empty())
    } else {
        match (format_values(segs.drop_last(), params), segment_text(segs.last(), params)) {
            (Some(v), Some(t)) => Some(v.push(t)),
            _ => None,
        }
    }
}

/// The texts of the segments from `i` up to the first one without a text.
pub open spec fn base_values(segs: Seq<RouteSegment>, params: Map<u64, Seq<char>>, i: int) -> Seq<
    Seq<char>,
>
    decreases segs.len() - i,
{
    if i < 0 || i >= segs.len() {
        Seq::empty()
    } else {
        match segment_text(segs[i], params) {
            Some(t) => seq![t] + base_values(segs, params, i + 1),
            None => Seq::empty(),
        }
    }
}

/// A path written from segment texts: `/` alone when there are none.
pub open spec fn path_from_values(v: Seq<Seq<char>>) -> Seq<char> {
    if v.len() == 0 {
        seq!['/']
    } else {
        slash_join(v)
    }
}

fn is_double_star(c: &Vec<char>) -> (r: bool)
    ensures
        r == (c@ == seq!['*', '*']),
{
    if c.len() == 2 && c[0] == '*' && c[1] == '*' {
        assert(c@ =~= seq!['*', '*']);
        true
    } else {
        false
    }
}

fn is_single_star(c: &Vec<char>) -> (r: bool)
    ensures
        r == (c@ == seq!['*']),
{
    if c.len() == 1 && c[0] == '*' {
        assert(c@ =~= seq!['*']);
        true
    } else {
        false
    }
}

impl RoutePattern {
    /// Parses pattern text such as `/user/:id` or `/admin/**`.
    pub fn parse(pattern: &str) -> (r: Result<RoutePattern, String>)
        ensures
            match r {
                Ok(p) => {
                    &&& parses(pattern@)
                    &&& p.segments.len() == path_segments(pattern@).len()
                    &&& forall|i: int|
                        0 <= i < p.segments.len() ==> segment_reads_as(
                            #[trigger] p.segments@[i],
                            path_segments(pattern@)[i],
                        )
                },
                Err(e) => !parses(pattern@) && parse_error(pattern@, e@),
            },
    {
        let chars = chars_of(pattern);
        let trimmed = trim_chars(chars.as_slice());
        if trimmed.len() == 0 {
            return Err(String::from_str("Pattern cannot be empty"));
        }
        let pieces = split_segments(trimmed.as_slice());
        let ghost ps = path_segments(pattern@);
        assert(views(pieces@) == ps);
        let mut segments: Vec<RouteSegment> = Vec::new();
        let mut i: usize = 0;
        while i < pieces.len()
            invariant
                i <= pieces.len(),
                views(pieces@) == ps,
                ps == path_segments(pattern@),
                trim(pattern@).len() > 0,
                segments.len() == i,
                forall|k: int| 0 <= k < i ==> !bad_piece(ps, k),
                forall|k: int|
                    0 <= k < i ==> segment_reads_as(#[trigger] segments@[k], ps[k]),
            decreases pieces.len() - i,
        {
            let c = chars_of(pieces[i].as_str());
            assert(c@ == ps[i as int]);
            assert(seq![':'].len() == 1 && seq![':'][0] == ':');
            assert(seq!['*', '*'].len() == 2 && seq!['*', '*'][0] == '*');
            assert(seq!['*'].len() == 1 && seq!['*'][0] == '*');
            if is_double_star(&c) {
                if i != pieces.len() - 1 {
                    assert(first_bad_piece(ps, i as int));
                    return Err(
                        String::from_str("Multi-segment wildcard (**) must be the last segment"),
                    );
                }
                segments.push(RouteSegment::WildcardMulti);
            } else if is_single_star(&c) {
                segments.push(RouteSegment::WildcardSingle);
            } else if c.len() > 0 && c[0] == ':' {
                if c.len() == 1 {
                    assert(c@ =~= seq![':']);
                    assert(first_bad_piece(ps, i as int));
                    return Err(String::from_str("Dynamic segment parameter name cannot be empty"));
                }
                let name_chars = slice_of(c.as_slice(), 1, c.len());
                let name = string_of(name_chars.as_slice());
                assert(name@ =~= c@.drop_first());
                let key = live_id(name.as_str());
                segments.push(RouteSegment::Dynamic { name, key });
            } else {
                assert(c@ != seq![':']);
                segments.push(RouteSegment::Static(pieces[i].clone()));
            }
            i = i + 1;
        }
        Ok(RoutePattern { segments })
    }

    /// Matches a whole path, returning the captured parameters.
    pub fn matches(&self, path: &str) -> (r: Option<RouteParams>)
        ensures
            r is Some <==> match_params(self.segments@, path@) is Some,
            r is Some ==> r->0@ == match_params(self.segments@, path@)->0,
    {
        let chars = chars_of(path);
        let trimmed = trim_chars(chars.as_slice());
        let segs = split_segments(trimmed.as_slice());
        let ghost pat = self.segments@;
        let ghost ps = views(segs@);
        let mut params = RouteParams::new();
        let n = self.segments.len();
        let m = segs.len();
        let mut i: usize = 0;
        let mut j: usize = 0;
        while i < n && j < m
            invariant
                n == pat.len(),
                pat == self.segments@,
                m == ps.len(),
                m == segs.len(),
                ps == views(segs@),
                ps == path_segments(path@),
                i <= n,
                j <= m,
                match_params(pat, path@) == match_walk(pat, ps, i as int, j as int, params@),
            decreases n - i,
        {
            match &self.segments[i] {
                RouteSegment::Static(expected) => {
                    if !(segs[j] == *expected) {
                        return None;
                    }
                },
                RouteSegment::Dynamic { key, .. } => {
                    params.add(*key, segs[j].clone());
                },
                RouteSegment::WildcardSingle => {},
                RouteSegment::WildcardMulti => {
                    return Some(params);
                },
            }
            i = i + 1;
            j = j + 1;
        }
        if i < n {
            if i == n - 1 {
                if let RouteSegment::WildcardMulti = &self.segments[i] {
                    return Some(params);
                }
            }
            return None;
        }
        if j < m {
            return None;
        }
        Some(params)
    }

    /// Matches the start of a path, returning the captured parameters and the
    /// rest of the path for a nested router (`""` or starting with `/`).
    pub fn matches_prefix_with_tail(&self, path: &str) -> (r: Option<(RouteParams, String)>)
        ensures
            r is Some <==> prefix_match(self.segments@, path@) is Some,
            r is Some ==> {
                &&& (r->0).0@ == (prefix_match(self.segments@, path@)->0).0
                &&& (r->0).1@ == (prefix_match(self.segments@, path@)->0).1
            },
    {
        let chars = chars_of(path);
        let trimmed = trim_chars(chars.as_slice());
        let segs = split_segments(trimmed.as_slice());
        let ghost pat = self.segments@;
        let ghost ps = views(segs@);
        let mut params = RouteParams::new();
        let n = self.segments.len();
        let m = segs.len();
        let mut i: usize = 0;
        let mut j: usize = 0;
        let mut tail: Option<usize> = None;
        let mut multi = false;
        while i < n && j < m && !multi
            invariant
                n == pat.len(),
                pat == self.segments@,
                m == ps.len(),
                m == segs.len(),
                ps == views(segs@),
                ps == path_segments(path@),
                i <= n,
                j <= m,
                tail matches Some(t) ==> t <= m,
                multi ==> prefix_walk(pat, ps, 0, 0, Map::empty(), None) == prefix_finish(
                    pat,
                    ps,
                    i as int,
                    j as int,
                    params@,
                    opt_int(tail),
                ),
                !multi ==> prefix_walk(pat, ps, 0, 0, Map::empty(), None) == prefix_walk(
                    pat,
                    ps,
                    i as int,
                    j as int,
                    params@,
                    opt_int(tail),
                ),
            decreases n - i,
        {
            match &self.segments[i] {
                RouteSegment::Static(expected) => {
                    if !(segs[j] == *expected) {
                        return None;
                    }
                    i = i + 1;
                    j = j + 1;
                },
                RouteSegment::Dynamic { key, .. } => {
                    params.add(*key, segs[j].clone());
                    i = i + 1;
                    j = j + 1;
                },
                RouteSegment::WildcardSingle => {
                    if i == n - 1 {
                        tail = Some(j);
                    }
                    i = i + 1;
                    j = j + 1;
                },
                RouteSegment::WildcardMulti => {
                    tail = Some(j);
                    j = m;
                    i = i + 1;
                    multi = true;
                },
            }
        }
        let start: usize;
        if i < n {
            let mut last_multi = false;
            if i == n - 1 {
                if let RouteSegment::WildcardMulti = &self.segments[i] {
                    last_multi = true;
                }
            }
            if !last_multi {
                return None;
            }
            start = j;
        } else {
            start = match tail {
                Some(t) => t,
                None => j,
            };
        }
        let mut out = String::new();
        if start < m {
            let mut k: usize = start;
            while k < m
                invariant
                    start <= k <= m,
                    m == ps.len(),
                    ps == views(segs@),
                    out@ == slash_join(ps.subrange(start as int, k as int)),
                decreases m - k,
            {
                assert(ps.subrange(start as int, k + 1).drop_last() == ps.subrange(
                    start as int,
                    k as int,
                ));
                push_char(&mut out, '/');
                out.append(segs[k].as_str());
                k = k + 1;
            }
        }
        Some((params, out))
    }

    /// The sum of the segments' weights (static 1, parameter 100, `*`
    /// 10000, `**` 100000), capped at the largest `usize`. Lower wins.
    pub fn priority(&self) -> (r: usize)
        ensures
            r == capped_priority(self.segments@),
    {
        let mut total: usize = 0;
        let mut i: usize = 0;
        while i < self.segments.len()
            invariant
                i <= self.segments.len(),
                total == capped_priority(self.segments@.take(i as int)),
            decreases self.segments.len() - i,
        {
            assert(self.segments@.take(i + 1).drop_last() == self.segments@.take(i as int));
            let w: usize = match &self.segments[i] {
                RouteSegment::Static(_) => 1,
                RouteSegment::Dynamic { .. } => 100,
                RouteSegment::WildcardSingle => 10000,
                RouteSegment::WildcardMulti => 100000,
            };
            total = total.saturating_add(w);
            i = i + 1;
        }
        assert(self.segments@.take(i as int) == self.segments@);
        total
    }

    /// The concrete path that `params` fill in, if the pattern has no
    /// wildcard and every parameter is set.
    pub fn format_path(&self, params: &RouteParams) -> (r: Option<String>)
        ensures
            r is Some <==> format_values(self.segments@, params@) is Some,
            r is Some ==> r->0@ == path_from_values(format_values(self.segments@, params@)->0),
    {
        let mut out = String::new();
        let ghost mut vals: Seq<Seq<char>> = Seq::empty();
        let mut count: usize = 0;
        let mut i: usize = 0;
        while i < self.segments.len()
            invariant
                i <= self.segments.len(),
                format_values(self.segments@.take(i as int), params@) == Some(vals),
                out@ == slash_join(vals),
                count == vals.len() <= i,
            decreases self.segments.len() - i,
        {
            assert(self.segments@.take(i + 1).drop_last() == self.segments@.take(i as int));
            match &self.segments[i] {
                RouteSegment::Static(s) => {
                    push_char(&mut out, '/');
                    out.append(s.as_str());
                    proof {
                        assert(vals.push(s@).drop_last() == vals);
                        vals = vals.push(s@);
                    }
                    count = count + 1;
                },
                RouteSegment::Dynamic { key, .. } => {
                    match params.get_text(*key) {
                        Some(v) => {
                            push_char(&mut out, '/');
                            out.append(v.as_str());
                            proof {
                                assert(vals.push(v@).drop_last() == vals);
                                vals = vals.push(v@);
                            }
                            count = count + 1;
                        },
                        None => {
                            proof {
                                lemma_format_values_none(self.segments@, params@, i as int + 1);
                            }
                            return None;
                        },
                    }
                },
                _ => {
                    proof {
                        lemma_format_values_none(self.segments@, params@, i as int + 1);
                    }
                    return None;
                },
            }
            i = i + 1;
        }
        assert(self.segments@.take(i as int) == self.segments@);
        if count == 0 {
            return Some(string_of(&['/']));
        }
        Some(out)
    }

    /// The path up to the first wildcard or unset parameter (`/admin` for
    /// `/admin/**`), or `/` when that is nothing.
    pub fn format_base_path(&self, params: &RouteParams) -> (r: String)
        ensures
            r@ == path_from_values(base_values(self.segments@, params@, 0)),
    {
        let mut out = String::new();
        let ghost mut vals: Seq<Seq<char>> = Seq::empty();
        let mut count: usize = 0;
        let mut i: usize = 0;
        let mut done = false;
        while i < self.segments.len() && !done
            invariant
                i <= self.segments.len(),
                !done ==> base_values(self.segments@, params@, 0) == vals + base_values(
                    self.segments@,
                    params@,
                    i as int,
                ),
                done ==> base_values(self.segments@, params@, 0) == vals,
                out@ == slash_join(vals),
                count == vals.len() <= i,
            decreases self.segments.len() - i + (if done {
                0int
            } else {
                1int
            }),
        {
            let ghost rest = base_values(self.segments@, params@, i as int + 1);
            match &self.segments[i] {
                RouteSegment::Static(s) => {
                    push_char(&mut out, '/');
                    out.append(s.as_str());
                    proof {
                        assert(vals + (seq![s@] + rest) == vals.push(s@) + rest);
                        assert(vals.push(s@).drop_last() == vals);
                        vals = vals.push(s@);
                    }
                    count = count + 1;
                    i = i + 1;
                },
                RouteSegment::Dynamic { key, .. } => {
                    match params.get_text(*key) {
                        Some(v) => {
                            push_char(&mut out, '/');
                            out.append(v.as_str());
                            proof {
                                assert(vals + (seq![v@] + rest) == vals.push(v@) + rest);
                                assert(vals.push(v@).drop_last() == vals);
                                vals = vals.push(v@);
                            }
                            count = count + 1;
                            i = i + 1;
                        },
                        None => {
                            assert(vals + Seq::<Seq<char>>::empty() == vals);
                            done = true;
                        },
                    }
                },
                _ => {
                    assert(vals + Seq::<Seq<char>>::empty() == vals);
                    done = true;
                },
            }
        }
        if !done {
            assert(vals + Seq::<Seq<char>>::empty() == vals);
        }
        if count == 0 {
            return string_of(&['/']);
        }
        out
    }
}

/// An optional index as an integer.
pub open spec fn opt_int(t: Option<usize>) -> Option<int> {
    match t {
        Some(v) => Some(v as int),
        None => None,
    }
}

proof fn lemma_priority_at_least_len(s: Seq<RouteSegment>)
    ensures
        priority_of(s) >= s.len(),
    decreases s.len(),
{
    if s.len() > 0 {
        lemma_priority_at_least_len(s.drop_last());
    }
}

proof fn lemma_priority_at_least(s: Seq<RouteSegment>, i: int)
    requires
        0 <= i < s.len(),
    ensures
        priority_of(s) >= (s.len() - 1) + segment_weight(s[i]),
    decreases s.len(),
{
    if i == s.len() - 1 {
        lemma_priority_at_least_len(s.drop_last());
    } else {
        lemma_priority_at_least(s.drop_last(), i);
    }
}

proof fn lemma_priority_at_most(s: Seq<RouteSegment>, w: nat)
    requires
        forall|i: int| 0 <= i < s.len() ==> segment_weight(#[trigger] s[i]) <= w,
    ensures
        priority_of(s) <= s.len() * w,
    decreases s.len(),
{
    if s.len() > 0 {
        lemma_priority_at_most(s.drop_last(), w);
        let n = s.len() as int;
        assert((n - 1) * w + w == n * w) by (nonlinear_arith);
    }
}

/// Of two patterns with the same number of segments, one all static and
/// one with a parameter, the static one has the lower priority value.
pub proof fn lemma_static_before_parameter(fixed: Seq<RouteSegment>, param: Seq<RouteSegment>)
    requires
        fixed.len() == param.len(),
        forall|i: int| 0 <= i < fixed.len() ==> fixed[i] is Static,
        exists|i: int| 0 <= i < param.len() && param[i] is Dynamic,
    ensures
        priority_of(fixed) < priority_of(param),
{
    lemma_priority_at_most(fixed, 1);
    let i = choose|i: int| 0 <= i < param.len() && param[i] is Dynamic;
    lemma_priority_at_least(param, i);
}

/// Of two patterns with the same number of segments, at most 100, one
/// without wildcards and one with a `*` but no `**`, the first has the lower
/// priority value.
pub proof fn lemma_parameter_before_single_wildcard(param: Seq<RouteSegment>, single: Seq<RouteSegment>)
    requires
        param.len() == single.len(),
        param.len() <= 100,
        forall|i: int| 0 <= i < param.len() ==> (param[i] is Static || param[i] is Dynamic),
        exists|i: int| 0 <= i < single.len() && single[i] is WildcardSingle,
        forall|i: int| 0 <= i < single.len() ==> !(single[i] is WildcardMulti),
    ensures
        priority_of(param) < priority_of(single),
{
    assert forall|i: int| 0 <= i < param.len() implies segment_weight(#[trigger] param[i]) <= 100 by {}
    lemma_priority_at_most(param, 100);
    let i = choose|i: int| 0 <= i < single.len() && single[i] is WildcardSingle;
    lemma_priority_at_least(single, i);
}

/// Of two patterns with the same number of segments, at most 10, one
/// without `**` and one with it, the first has the lower priority value.
pub proof fn lemma_single_before_multi_wildcard(single: Seq<RouteSegment>, multi: Seq<RouteSegment>)
    requires
        single.len() == multi.len(),
        single.len() <= 10,
        forall|i: int| 0 <= i < single.len() ==> !(single[i] is WildcardMulti),
        exists|i: int| 0 <= i < multi.len() && multi[i] is WildcardMulti,
    ensures
        priority_of(single) < priority_of(multi),
{
    assert forall|i: int| 0 <= i < single.len() implies segment_weight(#[trigger] single[i]) <= 10000 by {}
    lemma_priority_at_most(single, 10000);
    let i = choose|i: int| 0 <= i < multi.len() && multi[i] is WildcardMulti;
    lemma_priority_at_least(multi, i);
}

proof fn lemma_format_values_none(segs: Seq<RouteSegment>, params: Map<u64, Seq<char>>, i: int)
    requires
        0 < i <= segs.len(),
        segment_text(segs[i - 1], params) is None,
    ensures
        format_values(segs, params) is None,
    decreases segs.len() - i,
{
    if i == segs.len() {
        assert(segs.last() == segs[i - 1]);
    } else {
        lemma_format_values_none(segs.drop_last(), params, i);
    }
}

} // verus!
