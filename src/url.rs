//! Splitting of paths and URLs into path, query and hash, and the normal
//! form of a path that route matching works on.

use vstd::prelude::*;
use crate::text::{
    chars_of, find, find_char_from, find_scheme_sep, find_scheme_sep_from, push_char, slice_of,
    string_of, trim, trim_chars,
};
use vstd::utf8::{decode_utf8, encode_utf8, valid_utf8};
use crate::query::{query_map, sorted_keys, RouteQuery};

verus! {

/// What follows the host of a full URL (`https://host/a?b` gives `/a?b`, a
/// URL without a path gives `/`); any other input is kept as it is.
pub open spec fn strip_origin(t: Seq<char>) -> Seq<char> {
    let k = find_scheme_sep_from(t, 0);
    if k < t.len() {
        let rest = t.subrange(k + 3, t.len() as int);
        let h = find(rest, '/');
        if h < rest.len() {
            rest.subrange(h, rest.len() as int)
        } else {
            seq!['/']
        }
    } else {
        t
    }
}

/// `s` with a `/` put in front unless it already starts with one.
pub open spec fn with_leading_slash(s: Seq<char>) -> Seq<char> {
    if s.len() > 0 && s[0] == '/' {
        s
    } else {
        seq!['/'] + s
    }
}

/// `s` without trailing slashes, keeping a lone `/`.
pub open spec fn drop_trailing_slashes(s: Seq<char>) -> Seq<char>
    decreases s.len(),
{
    if s.len() > 1 && s.last() == '/' {
        drop_trailing_slashes(s.drop_last())
    } else {
        s
    }
}

/// The normal form of a path for matching: trimmed, origin of a full URL
/// removed, a leading `/`, no query or hash, no trailing slash.
pub open spec fn normalized_path(input: Seq<char>) -> Seq<char> {
    let t = trim(input);
    if t.len() == 0 {
        seq!['/']
    } else {
        let rooted = with_leading_slash(strip_origin(t));
        let no_hash = rooted.take(find(rooted, '#'));
        let no_query = no_hash.take(find(no_hash, '?'));
        drop_trailing_slashes(no_query)
    }
}

/// The path, query (with its `?`) and hash (with its `#`) of a URL or path.
pub open spec fn url_parts(input: Seq<char>) -> (Seq<char>, Seq<char>, Seq<char>) {
    let t = trim(input);
    if t.len() == 0 {
        (seq!['/'], Seq::empty(), Seq::empty())
    } else {
        let s = trim(strip_origin(t));
        let h = find(s, '#');
        let before = s.take(h);
        let q = find(before, '?');
        let p = trim(before.take(q));
        let path = if p.len() == 0 {
            seq!['/']
        } else {
            with_leading_slash(p)
        };
        (path, before.skip(q), s.skip(h))
    }
}

fn strip_origin_chars(t: &Vec<char>) -> (r: Vec<char>)
    ensures
        r@ == strip_origin(t@),
{
    let k = find_scheme_sep(t.as_slice());
    if k < t.len() {
        let rest = slice_of(t.as_slice(), k + 3, t.len());
        let h = find_char_from(rest.as_slice(), '/', 0);
        if h < rest.len() {
            slice_of(rest.as_slice(), h, rest.len())
        } else {
            let mut out: Vec<char> = Vec::new();
            out.push('/');
            out
        }
    } else {
        slice_of(t.as_slice(), 0, t.len())
    }
}

fn with_leading_slash_chars(v: Vec<char>) -> (r: Vec<char>)
    ensures
        r@ == with_leading_slash(v@),
{
    if v.len() > 0 && v[0] == '/' {
        v
    } else {
        let mut out: Vec<char> = Vec::new();
        out.push('/');
        let mut i: usize = 0;
        while i < v.len()
            invariant
                i <= v.len(),
                out@ == seq!['/'] + v@.take(i as int),
            decreases v.len() - i,
        {
            out.push(v[i]);
            i = i + 1;
            assert(seq!['/'] + v@.take(i as int) == (seq!['/'] + v@.take(i - 1)).push(v@[i - 1]));
        }
        assert(v@.take(i as int) == v@);
        out
    }
}

/// The normal form of `path` that route matching works on.
pub fn normalize_path(path: &str) -> (r: String)
    ensures
        r@ == normalized_path(path@),
{
    let input = chars_of(path);
    let t = trim_chars(input.as_slice());
    if t.len() == 0 {
        return string_of(&['/']);
    }
    let rooted = with_leading_slash_chars(strip_origin_chars(&t));
    let h = find_char_from(rooted.as_slice(), '#', 0);
    let no_hash = slice_of(rooted.as_slice(), 0, h);
    let q = find_char_from(no_hash.as_slice(), '?', 0);
    let mut no_query = slice_of(no_hash.as_slice(), 0, q);
    while no_query.len() > 1 && no_query[no_query.len() - 1] == '/'
        invariant
            drop_trailing_slashes(no_query@) == drop_trailing_slashes(no_hash@.take(q as int)),
        decreases no_query.len(),
    {
        let _ = no_query.pop();
    }
    string_of(no_query.as_slice())
}

/// A URL or path split into its parts.
#[derive(Debug)]
pub struct RouterUrl {
    /// The path, always starting with `/`.
    pub path: String,
    /// The query including its leading `?`, or empty.
    pub query: String,
    /// The hash including its leading `#`, or empty.
    pub hash: String,
}

impl RouterUrl {
    /// Splits a URL or a path into path, query and hash.
    pub fn parse(input: &str) -> (r: RouterUrl)
        ensures
            (r.path@, r.query@, r.hash@) == url_parts(input@),
    {
        let chars = chars_of(input);
        let t = trim_chars(chars.as_slice());
        if t.len() == 0 {
            return RouterUrl { path: string_of(&['/']), query: String::new(), hash: String::new() };
        }
        let s0 = strip_origin_chars(&t);
        let s = trim_chars(s0.as_slice());
        let h = find_char_from(s.as_slice(), '#', 0);
        let before = slice_of(s.as_slice(), 0, h);
        let q = find_char_from(before.as_slice(), '?', 0);
        let raw_path = slice_of(before.as_slice(), 0, q);
        let p = trim_chars(raw_path.as_slice());
        let path = if p.len() == 0 {
            let mut slash: Vec<char> = Vec::new();
            slash.push('/');
            slash
        } else {
            with_leading_slash_chars(p)
        };
        let query = slice_of(before.as_slice(), q, before.len());
        let hash = slice_of(s.as_slice(), h, s.len());
        RouterUrl {
            path: string_of(path.as_slice()),
            query: string_of(query.as_slice()),
            hash: string_of(hash.as_slice()),
        }
    }

    /// The query parameters of this URL.
    pub fn parse_query_map(&self) -> (r: RouteQuery)
        ensures
            query_map(r@) == parsed_query(self.query@),
            sorted_keys(r@),
    {
        parse_query_map(self.query.as_str())
    }

    /// The URL written back out: path, then query, then hash.
    pub fn to_string(&self) -> (r: String)
        ensures
            r@ == self.path@ + self.query@ + self.hash@,
    {
        let mut out = self.path.clone();
        out.append(self.query.as_str());
        out.append(self.hash.as_str());
        out
    }
}


/// The value of a hexadecimal digit, upper or lower case.
pub open spec fn hex_value(b: u8) -> Option<u8> {
    if 0x30 <= b <= 0x39 {
        Some((b - 0x30) as u8)
    } else if 0x61 <= b <= 0x66 {
        Some((b - 0x61 + 10) as u8)
    } else if 0x41 <= b <= 0x46 {
        Some((b - 0x41 + 10) as u8)
    } else {
        None
    }
}

/// The upper-case hexadecimal digit of `n` (`0` past 15).
pub open spec fn hex_digit(n: u8) -> char {
    if n <= 9 {
        (0x30 + n) as char
    } else if n <= 15 {
        (0x41 + (n - 10)) as char
    } else {
        '0'
    }
}

/// The value of hexadecimal digit `b`.
pub fn hex_val(b: u8) -> (r: Option<u8>)
    ensures
        r == hex_value(b),
{
    if 0x30 <= b && b <= 0x39 {
        Some(b - 0x30)
    } else if 0x61 <= b && b <= 0x66 {
        Some(b - 0x61 + 10)
    } else if 0x41 <= b && b <= 0x46 {
        Some(b - 0x41 + 10)
    } else {
        None
    }
}

/// The upper-case hexadecimal digit of `n`.
pub fn hex_char(n: u8) -> (r: char)
    ensures
        r == hex_digit(n),
{
    if n <= 9 {
        (0x30 + n) as char
    } else if n <= 15 {
        (0x41 + (n - 10)) as char
    } else {
        '0'
    }
}

/// Form decoding of bytes: `+` is a space, `%` and two hex digits is that
/// byte; a `%` takes the next two bytes even when they are not hex digits
/// (and then stands for nothing).
pub open spec fn pct_decode(b: Seq<u8>) -> Seq<u8>
    decreases b.len(),
{
    if b.len() == 0 {
        Seq::empty()
    } else if b[0] == 0x2b {
        seq![0x20u8] + pct_decode(b.drop_first())
    } else if b[0] == 0x25 {
        if b.len() >= 3 {
            match (hex_value(b[1]), hex_value(b[2])) {
                (Some(hi), Some(lo)) => seq![(hi * 16 + lo) as u8] + pct_decode(b.subrange(3, b.len() as int)),
                _ => pct_decode(b.subrange(3, b.len() as int)),
            }
        } else {
            Seq::empty()
        }
    } else {
        seq![b[0]] + pct_decode(b.drop_first())
    }
}

/// Form decoding of text: the decoded bytes as text when they are UTF-8,
/// else the text unchanged.
pub open spec fn form_decoded(s: Seq<char>) -> Seq<char> {
    let d = pct_decode(encode_utf8(s));
    if valid_utf8(d) {
        decode_utf8(d)
    } else {
        s
    }
}

/// The form encoding of one byte: unreserved characters stay, a space is
/// `+`, anything else is `%` and two upper-case hex digits.
pub open spec fn encode_byte(b: u8) -> Seq<char> {
    if (0x41 <= b <= 0x5a) || (0x61 <= b <= 0x7a) || (0x30 <= b <= 0x39) || b == 0x2d || b == 0x2e
        || b == 0x5f || b == 0x7e {
        seq![b as char]
    } else if b == 0x20 {
        seq!['+']
    } else {
        seq!['%', hex_digit(b / 16), hex_digit(b % 16)]
    }
}

/// The form encoding of bytes.
pub open spec fn pct_encode(b: Seq<u8>) -> Seq<char>
    decreases b.len(),
{
    if b.len() == 0 {
        Seq::empty()
    } else {
        pct_encode(b.drop_last()) + encode_byte(b.last())
    }
}

/// The form encoding of text (of its UTF-8 bytes).
pub open spec fn form_encoded(s: Seq<char>) -> Seq<char> {
    pct_encode(encode_utf8(s))
}

/// Relies on `String::from_utf8`: the text that the bytes encode, exactly
/// when they are valid UTF-8.
#[verifier::external_body]
fn utf8_to_string(bytes: Vec<u8>) -> (r: Option<String>)
    ensures
        match r {
            Some(s) => valid_utf8(bytes@) && s@ == decode_utf8(bytes@),
            None => !valid_utf8(bytes@),
        },
{
    String::from_utf8(bytes).ok()
}

fn pct_decode_bytes(b: &[u8]) -> (r: Vec<u8>)
    ensures
        r@ == pct_decode(b@),
{
    let mut out: Vec<u8> = Vec::new();
    let mut i: usize = 0;
    assert(b@.subrange(0, b.len() as int) == b@);
    assert(out@ + pct_decode(b@) == pct_decode(b@));
    while i < b.len()
        invariant
            i <= b.len(),
            pct_decode(b@) == out@ + pct_decode(b@.subrange(i as int, b.len() as int)),
        decreases b.len() - i,
    {
        let ghost rest = b@.subrange(i as int, b.len() as int);
        let c = b[i];
        if c == 0x2b {
            assert(rest.drop_first() == b@.subrange(i + 1, b.len() as int));
            assert(out@ + (seq![0x20u8] + pct_decode(rest.drop_first())) == out@.push(0x20u8) + pct_decode(rest.drop_first()));
            out.push(0x20);
            i = i + 1;
        } else if c == 0x25 {
            if b.len() - i >= 3 {
                assert(rest.subrange(3, rest.len() as int) == b@.subrange(i + 3, b.len() as int));
                match (hex_val(b[i + 1]), hex_val(b[i + 2])) {
                    (Some(hi), Some(lo)) => {
                        let byte: u8 = hi * 16 + lo;
                        assert(out@ + (seq![byte] + pct_decode(rest.subrange(3, rest.len() as int))) == out@.push(byte) + pct_decode(rest.subrange(3, rest.len() as int)));
                        out.push(byte);
                    },
                    _ => {},
                }
                i = i + 3;
            } else {
                assert(pct_decode(rest) == Seq::<u8>::empty());
                assert(out@ + Seq::<u8>::empty() == out@);
                return out;
            }
        } else {
            assert(rest.drop_first() == b@.subrange(i + 1, b.len() as int));
            assert(out@ + (seq![c] + pct_decode(rest.drop_first())) == out@.push(c) + pct_decode(rest.drop_first()));
            out.push(c);
            i = i + 1;
        }
    }
    assert(b@.subrange(i as int, b.len() as int) == Seq::<u8>::empty());
    assert(out@ + Seq::<u8>::empty() == out@);
    out
}

/// Decodes a form-encoded component (`+` for space, `%XX` escapes); text
/// whose escapes do not decode to UTF-8 is returned unchanged.
pub fn decode_www_form_component(input: &str) -> (r: String)
    ensures
        r@ == form_decoded(input@),
{
    let bytes = input.as_bytes();
    let decoded = pct_decode_bytes(bytes);
    match utf8_to_string(decoded) {
        Some(s) => s,
        None => String::from_str(input),
    }
}

/// Form-encodes a component: unreserved characters stay, spaces become
/// `+`, other bytes `%XX`.
pub fn encode_www_form_component(input: &str) -> (r: String)
    ensures
        r@ == form_encoded(input@),
{
    let bytes = input.as_bytes();
    let mut out = String::new();
    let mut i: usize = 0;
    while i < bytes.len()
        invariant
            i <= bytes.len(),
            bytes@ == encode_utf8(input@),
            out@ == pct_encode(bytes@.take(i as int)),
        decreases bytes.len() - i,
    {
        let b = bytes[i];
        assert(bytes@.take(i + 1).drop_last() == bytes@.take(i as int));
        assert(bytes@.take(i + 1).last() == b);
        if (0x41 <= b && b <= 0x5a) || (0x61 <= b && b <= 0x7a) || (0x30 <= b && b <= 0x39) || b == 0x2d
            || b == 0x2e || b == 0x5f || b == 0x7e {
            push_char(&mut out, b as char);
        } else if b == 0x20 {
            push_char(&mut out, '+');
        } else {
            let ghost before = out@;
            push_char(&mut out, '%');
            push_char(&mut out, hex_char(b / 16));
            push_char(&mut out, hex_char(b % 16));
            assert(out@ == before + seq!['%', hex_digit(b / 16), hex_digit(b % 16)]);
        }
        i = i + 1;
    }
    assert(bytes@.take(i as int) == bytes@);
    out
}


/// Splitting state after reading `s`: the pieces finished at each `&`, and
/// the piece being read.
pub open spec fn split_amp_state(s: Seq<char>) -> (Seq<Seq<char>>, Seq<char>)
    decreases s.len(),
{
    if s.len() == 0 {
        (Seq::empty(), Seq::empty())
    } else {
        let (done, cur) = split_amp_state(s.drop_last());
        if s.last() == '&' {
            (done.push(cur), Seq::empty())
        } else {
            (done, cur.push(s.last()))
        }
    }
}

/// The query text after trimming and without its leading `?`.
pub open spec fn query_body(query: Seq<char>) -> Seq<char> {
    let q = trim(query);
    if q.len() > 0 && q[0] == '?' {
        q.drop_first()
    } else {
        q
    }
}

/// The key and value that one `key=value` piece sets, decoded; none for an
/// empty piece or an empty key.
pub open spec fn piece_entry(piece: Seq<char>) -> Option<(Seq<char>, Seq<char>)> {
    if piece.len() == 0 {
        None
    } else {
        let e = find(piece, '=');
        let k = form_decoded(piece.take(e));
        if k.len() == 0 {
            None
        } else {
            Some(
                (k, form_decoded(
                    if e < piece.len() {
                        piece.subrange(e + 1, piece.len() as int)
                    } else {
                        Seq::empty()
                    },
                )),
            )
        }
    }
}

/// The map that the pieces set, later pieces winning.
pub open spec fn map_of_pieces(pieces: Seq<Seq<char>>) -> Map<Seq<char>, Seq<char>>
    decreases pieces.len(),
{
    if pieces.len() == 0 {
        Map::empty()
    } else {
        match piece_entry(pieces.last()) {
            Some((k, v)) => map_of_pieces(pieces.drop_last()).insert(k, v),
            None => map_of_pieces(pieces.drop_last()),
        }
    }
}

/// The parameters of a query string such as `?a=1&b=2`.
pub open spec fn parsed_query(query: Seq<char>) -> Map<Seq<char>, Seq<char>> {
    let b = query_body(query);
    if b.len() == 0 {
        Map::empty()
    } else {
        let (done, cur) = split_amp_state(b);
        map_of_pieces(done.push(cur))
    }
}

fn add_piece(out: &mut RouteQuery, piece: &Vec<char>)
    ensures
        sorted_keys(old(out)@) ==> sorted_keys(final(out)@),
        query_map(final(out)@) == match piece_entry(piece@) {
            Some((k, v)) => query_map(old(out)@).insert(k, v),
            None => query_map(old(out)@),
        },
{
    if piece.len() == 0 {
        return;
    }
    let e = find_char_from(piece.as_slice(), '=', 0);
    let raw_key = slice_of(piece.as_slice(), 0, e);
    let key_text = string_of(raw_key.as_slice());
    let key = decode_www_form_component(key_text.as_str());
    if key.as_str().is_empty() {
        return;
    }
    let raw_value = if e < piece.len() {
        slice_of(piece.as_slice(), e + 1, piece.len())
    } else {
        Vec::new()
    };
    assert(raw_value@ == (if e < piece.len() {
        piece@.subrange(e + 1, piece.len() as int)
    } else {
        Seq::<char>::empty()
    }));
    let value_text = string_of(raw_value.as_slice());
    let value = decode_www_form_component(value_text.as_str());
    out.set(key, value);
}

/// Parses a query string (`?a=1&b=2`) into its parameters: pieces between
/// `&` are `key=value` or a bare `key` (empty value), both form-decoded;
/// empty pieces and empty keys are skipped; a later key wins.
pub fn parse_query_map(query: &str) -> (r: RouteQuery)
    ensures
        query_map(r@) == parsed_query(query@),
        sorted_keys(r@),
{
    let chars = chars_of(query);
    let t = trim_chars(chars.as_slice());
    let start: usize = if t.len() > 0 && t[0] == '?' {
        1
    } else {
        0
    };
    let b = slice_of(t.as_slice(), start, t.len());
    assert(b@ == query_body(query@));
    let mut out = RouteQuery::new();
    assert(query_map(out@) =~= Map::<Seq<char>, Seq<char>>::empty());
    if b.len() == 0 {
        return out;
    }
    let mut cur: Vec<char> = Vec::new();
    let ghost mut done: Seq<Seq<char>> = Seq::empty();
    let mut i: usize = 0;
    while i < b.len()
        invariant
            i <= b.len(),
            (done, cur@) == split_amp_state(b@.take(i as int)),
            query_map(out@) == map_of_pieces(done),
            sorted_keys(out@),
        decreases b.len() - i,
    {
        assert(b@.take(i + 1).drop_last() == b@.take(i as int));
        if b[i] == '&' {
            add_piece(&mut out, &cur);
            proof {
                assert(done.push(cur@).drop_last() == done);
                done = done.push(cur@);
            }
            cur = Vec::new();
        } else {
            cur.push(b[i]);
        }
        i = i + 1;
    }
    assert(b@.take(i as int) == b@);
    add_piece(&mut out, &cur);
    assert(done.push(cur@).drop_last() == done);
    out
}

/// One parameter written out: the encoded key, then `=` and the encoded
/// value unless the value is empty.
pub open spec fn query_item(kv: (Seq<char>, Seq<char>)) -> Seq<char> {
    form_encoded(kv.0) + if kv.1.len() > 0 {
        seq!['='] + form_encoded(kv.1)
    } else {
        Seq::empty()
    }
}

/// The parameters written out, joined by `&`.
pub open spec fn query_items(s: Seq<(Seq<char>, Seq<char>)>) -> Seq<char>
    decreases s.len(),
{
    if s.len() == 0 {
        Seq::empty()
    } else if s.len() == 1 {
        query_item(s[0])
    } else {
        query_items(s.drop_last()) + seq!['&'] + query_item(s.last())
    }
}

/// A query string for parameters in key order: empty without parameters,
/// else `?` and the parameters joined by `&`.
pub open spec fn query_string_of(s: Seq<(Seq<char>, Seq<char>)>) -> Seq<char> {
    if s.len() == 0 {
        Seq::empty()
    } else {
        seq!['?'] + query_items(s)
    }
}

/// Writes query parameters out in ascending key order.
pub fn build_query_string(map: &RouteQuery) -> (r: String)
    ensures
        r@ == query_string_of(map@),
{
    let n = map.len();
    if n == 0 {
        return String::new();
    }
    let mut out = String::new();
    push_char(&mut out, '?');
    let mut i: usize = 0;
    while i < n
        invariant
            i <= n == map@.len(),
            out@ == seq!['?'] + query_items(map@.take(i as int)),
        decreases n - i,
    {
        let ghost before = out@;
        let (k, v) = map.entry(i);
        assert(map@.take(i + 1).drop_last() == map@.take(i as int));
        assert(map@.take(i + 1).last() == map@[i as int]);
        if i > 0 {
            push_char(&mut out, '&');
        }
        let ek = encode_www_form_component(k.as_str());
        out.append(ek.as_str());
        if !v.as_str().is_empty() {
            push_char(&mut out, '=');
            let ev = encode_www_form_component(v.as_str());
            out.append(ev.as_str());
        }
        proof {
            if i == 0 {
                assert(map@.take(1) =~= seq![map@[0]]);
            }
            assert(out@ == seq!['?'] + query_items(map@.take(i + 1)));
        }
        i = i + 1;
    }
    assert(map@.take(i as int) == map@);
    out
}

} // verus!
