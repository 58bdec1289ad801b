//! Query parameters of a route: a map from key to value, both text, kept
//! in ascending key order.

use vstd::prelude::*;
use crate::text::chars_of;

verus! {

/// `a` comes before `b` in code point order.
pub open spec fn lex_lt(a: Seq<char>, b: Seq<char>) -> bool
    decreases a.len(),
{
    if a.len() == 0 {
        b.len() > 0
    } else if b.len() == 0 {
        false
    } else if a[0] != b[0] {
        a[0] < b[0]
    } else {
        lex_lt(a.drop_first(), b.drop_first())
    }
}

proof fn lemma_lex_irreflexive(a: Seq<char>)
    ensures
        !lex_lt(a, a),
    decreases a.len(),
{
    if a.len() > 0 {
        lemma_lex_irreflexive(a.drop_first());
    }
}

proof fn lemma_lex_transitive(a: Seq<char>, b: Seq<char>, c: Seq<char>)
    requires
        lex_lt(a, b),
        lex_lt(b, c),
    ensures
        lex_lt(a, c),
    decreases a.len(),
{
    if a.len() > 0 && b.len() > 0 && c.len() > 0 && a[0] == b[0] && b[0] == c[0] {
        lemma_lex_transitive(a.drop_first(), b.drop_first(), c.drop_first());
    }
}

proof fn lemma_lex_total(a: Seq<char>, b: Seq<char>)
    requires
        a != b,
    ensures
        lex_lt(a, b) || lex_lt(b, a),
    decreases a.len(),
{
    if a.len() > 0 && b.len() > 0 && a[0] == b[0] {
        if a.drop_first() == b.drop_first() {
            assert(a =~= seq![a[0]] + a.drop_first());
            assert(b =~= seq![b[0]] + b.drop_first());
        }
        lemma_lex_total(a.drop_first(), b.drop_first());
    } else if a.len() > 0 && b.len() > 0 {
    } else if a.len() == 0 && b.len() == 0 {
        assert(a =~= b);
    }
}

/// The keys are in strictly ascending order.
pub open spec fn sorted_keys(s: Seq<(Seq<char>, Seq<char>)>) -> bool {
    forall|i: int, j: int| 0 <= i < j < s.len() ==> lex_lt(s[i].0, s[j].0)
}

/// The map that a list of pairs with distinct keys stands for.
pub open spec fn pairs_map(s: Seq<(Seq<char>, Seq<char>)>) -> Map<Seq<char>, Seq<char>>
    decreases s.len(),
{
    if s.len() == 0 {
        Map::empty()
    } else {
        pairs_map(s.drop_last()).insert(s.last().0, s.last().1)
    }
}

proof fn lemma_sorted_distinct(s: Seq<(Seq<char>, Seq<char>)>, i: int, j: int)
    requires
        sorted_keys(s),
        0 <= i < s.len(),
        0 <= j < s.len(),
        i != j,
    ensures
        s[i].0 != s[j].0,
{
    if i < j {
        lemma_lex_irreflexive(s[i].0);
    } else {
        lemma_lex_irreflexive(s[j].0);
    }
}

proof fn lemma_pairs_lookup(s: Seq<(Seq<char>, Seq<char>)>, i: int)
    requires
        sorted_keys(s),
        0 <= i < s.len(),
    ensures
        pairs_map(s).contains_key(s[i].0),
        pairs_map(s)[s[i].0] == s[i].1,
    decreases s.len(),
{
    if i < s.len() - 1 {
        lemma_sorted_distinct(s, i, s.len() - 1);
        lemma_pairs_lookup(s.drop_last(), i);
    }
}

proof fn lemma_pairs_absent(s: Seq<(Seq<char>, Seq<char>)>, k: Seq<char>)
    requires
        forall|i: int| 0 <= i < s.len() ==> s[i].0 != k,
    ensures
        !pairs_map(s).contains_key(k),
    decreases s.len(),
{
    if s.len() > 0 {
        lemma_pairs_absent(s.drop_last(), k);
    }
}

proof fn lemma_pairs_update(s: Seq<(Seq<char>, Seq<char>)>, i: int, v: Seq<char>)
    requires
        sorted_keys(s),
        0 <= i < s.len(),
    ensures
        pairs_map(s.update(i, (s[i].0, v))) == pairs_map(s).insert(s[i].0, v),
    decreases s.len(),
{
    let t = s.update(i, (s[i].0, v));
    if i == s.len() - 1 {
        assert(t.drop_last() == s.drop_last());
        assert(pairs_map(t) =~= pairs_map(s).insert(s[i].0, v));
    } else {
        lemma_sorted_distinct(s, i, s.len() - 1);
        assert(t.drop_last() == s.drop_last().update(i, (s[i].0, v)));
        lemma_pairs_update(s.drop_last(), i, v);
        assert(pairs_map(t) =~= pairs_map(s).insert(s[i].0, v));
    }
}

proof fn lemma_pairs_insert(s: Seq<(Seq<char>, Seq<char>)>, p: int, k: Seq<char>, v: Seq<char>)
    requires
        0 <= p <= s.len(),
        forall|i: int| 0 <= i < s.len() ==> s[i].0 != k,
    ensures
        pairs_map(s.insert(p, (k, v))) == pairs_map(s).insert(k, v),
    decreases s.len(),
{
    let t = s.insert(p, (k, v));
    if p == s.len() {
        assert(t.drop_last() == s);
    } else {
        assert(t.drop_last() == s.drop_last().insert(p, (k, v)));
        lemma_pairs_insert(s.drop_last(), p, k, v);
        assert(pairs_map(t) =~= pairs_map(s).insert(k, v));
    }
}

proof fn lemma_pairs_remove(s: Seq<(Seq<char>, Seq<char>)>, p: int)
    requires
        sorted_keys(s),
        0 <= p < s.len(),
    ensures
        pairs_map(s.remove(p)) == pairs_map(s).remove(s[p].0),
    decreases s.len(),
{
    let t = s.remove(p);
    if p == s.len() - 1 {
        assert(t == s.drop_last());
        assert forall|i: int| 0 <= i < t.len() implies t[i].0 != s[p].0 by {
            lemma_sorted_distinct(s, i, p);
        }
        lemma_pairs_absent(t, s[p].0);
        assert(pairs_map(t) =~= pairs_map(s).remove(s[p].0));
    } else {
        lemma_sorted_distinct(s, p, s.len() - 1);
        assert(t.drop_last() == s.drop_last().remove(p));
        lemma_pairs_remove(s.drop_last(), p);
        assert(pairs_map(t) =~= pairs_map(s).remove(s[p].0));
    }
}

proof fn lemma_pairs_len(s: Seq<(Seq<char>, Seq<char>)>)
    requires
        sorted_keys(s),
    ensures
        pairs_map(s).dom().len() == s.len(),
        pairs_map(s).dom().finite(),
    decreases s.len(),
{
    if s.len() > 0 {
        let d = s.drop_last();
        lemma_pairs_len(d);
        assert forall|i: int| 0 <= i < d.len() implies d[i].0 != s.last().0 by {
            lemma_sorted_distinct(s, i, s.len() - 1);
        }
        lemma_pairs_absent(d, s.last().0);
    }
}

/// The pair views of stored entries.
pub open spec fn entry_views(s: Seq<(String, String)>) -> Seq<(Seq<char>, Seq<char>)> {
    s.map_values(|e: (String, String)| (e.0@, e.1@))
}

fn copy_pairs(v: &Vec<(String, String)>) -> (r: Vec<(String, String)>)
    ensures
        entry_views(r@) == entry_views(v@),
{
    let mut out: Vec<(String, String)> = Vec::new();
    let mut i: usize = 0;
    while i < v.len()
        invariant
            i <= v.len(),
            entry_views(out@) == entry_views(v@.take(i as int)),
        decreases v.len() - i,
    {
        let k = v[i].0.clone();
        let x = v[i].1.clone();
        let ghost before = out@;
        out.push((k, x));
        assert(entry_views(out@) == entry_views(before).push((v@[i as int].0@, v@[i as int].1@)));
        assert(v@.take(i + 1).drop_last() == v@.take(i as int));
        assert(entry_views(v@.take(i + 1)) == entry_views(v@.take(i as int)).push((v@[i as int].0@, v@[i as int].1@)));
        i = i + 1;
    }
    assert(v@.take(i as int) == v@);
    out
}

fn lex_less(a: &Vec<char>, b: &Vec<char>) -> (r: bool)
    ensures
        r == lex_lt(a@, b@),
{
    let mut i: usize = 0;
    assert(a@.skip(0) == a@ && b@.skip(0) == b@);
    while i < a.len() && i < b.len() && a[i] == b[i]
        invariant
            i <= a.len(),
            i <= b.len(),
            lex_lt(a@, b@) == lex_lt(a@.skip(i as int), b@.skip(i as int)),
        decreases a.len() - i,
    {
        assert(a@.skip(i as int).drop_first() == a@.skip(i + 1));
        assert(b@.skip(i as int).drop_first() == b@.skip(i + 1));
        i = i + 1;
    }
    if i == a.len() {
        i < b.len()
    } else if i == b.len() {
        false
    } else {
        a[i] < b[i]
    }
}

/// Query parameters, one value per key, in ascending key order.
#[derive(Debug)]
pub struct RouteQuery {
    entries: Vec<(String, String)>,
}

impl View for RouteQuery {
    type V = Seq<(Seq<char>, Seq<char>)>;

    closed spec fn view(&self) -> Seq<(Seq<char>, Seq<char>)> {
        entry_views(self.entries@)
    }
}

/// The map that query parameters stand for.
pub open spec fn query_map(s: Seq<(Seq<char>, Seq<char>)>) -> Map<Seq<char>, Seq<char>> {
    pairs_map(s)
}

impl RouteQuery {
    #[verifier::type_invariant]
    spec fn inv(&self) -> bool {
        sorted_keys(entry_views(self.entries@))
    }

    /// No query parameters.
    pub fn new() -> (r: RouteQuery)
        ensures
            r@ == Seq::<(Seq<char>, Seq<char>)>::empty(),
    {
        let r = RouteQuery { entries: Vec::new() };
        assert(r@ =~= Seq::<(Seq<char>, Seq<char>)>::empty());
        r
    }

    /// The number of parameters.
    pub fn len(&self) -> (r: usize)
        ensures
            r == query_map(self@).dom().len(),
            r == self@.len(),
    {
        proof {
            use_type_invariant(self);
            lemma_pairs_len(self@);
        }
        self.entries.len()
    }

    /// Whether there are no parameters.
    pub fn is_empty(&self) -> (r: bool)
        ensures
            r == (query_map(self@).dom().len() == 0),
    {
        self.len() == 0
    }

    /// The value of `key`.
    pub fn get(&self, key: &str) -> (r: Option<&String>)
        ensures
            r is Some <==> query_map(self@).contains_key(key@),
            r is Some ==> r->0@ == query_map(self@)[key@],
    {
        proof {
            use_type_invariant(self);
        }
        let key_s = String::from_str(key);
        let mut i: usize = 0;
        while i < self.entries.len()
            invariant
                i <= self.entries.len(),
                key_s@ == key@,
                sorted_keys(self@),
                forall|k: int| 0 <= k < i ==> self@[k].0 != key@,
            decreases self.entries.len() - i,
        {
            if self.entries[i].0 == key_s {
                proof {
                    lemma_pairs_lookup(self@, i as int);
                }
                return Some(&self.entries[i].1);
            }
            i = i + 1;
        }
        proof {
            lemma_pairs_absent(self@, key@);
        }
        None
    }

    /// Sets `key` to `value`, replacing an earlier value.
    pub fn set(&mut self, key: String, value: String)
        ensures
            query_map(final(self)@) == query_map(old(self)@).insert(key@, value@),
            sorted_keys(final(self)@),
    {
        proof {
            use_type_invariant(&*self);
        }
        let ghost s = self@;
        let mut entries = copy_pairs(&self.entries);
        let key_chars = chars_of(key.as_str());
        let mut p: usize = 0;
        while p < entries.len() && lex_less(&chars_of(entries[p].0.as_str()), &key_chars)
            invariant
                p <= entries.len(),
                entry_views(entries@) == s,
                key_chars@ == key@,
                forall|j: int| 0 <= j < p ==> lex_lt(s[j].0, key@),
            decreases entries.len() - p,
        {
            p = p + 1;
        }
        if p < entries.len() && entries[p].0 == key {
            proof {
                lemma_pairs_update(s, p as int, value@);
            }
            let ghost kv = s[p as int].0;
            entries.set(p, (key, value));
            assert(entry_views(entries@) == s.update(p as int, (kv, value@)));
            assert(sorted_keys(entry_views(entries@)));
            self.entries = entries;
        } else {
            assert forall|j: int| p <= j < s.len() implies lex_lt(key@, s[j].0) by {
                if j == p {
                    lemma_lex_total(s[j].0, key@);
                } else {
                    lemma_lex_total(s[p as int].0, key@);
                    lemma_lex_transitive(key@, s[p as int].0, s[j].0);
                }
            }
            assert forall|j: int| 0 <= j < s.len() implies s[j].0 != key@ by {
                if j < p {
                    lemma_lex_irreflexive(key@);
                } else {
                    lemma_lex_irreflexive(key@);
                }
            }
            proof {
                lemma_pairs_insert(s, p as int, key@, value@);
            }
            let ghost kv = (key@, value@);
            entries.insert(p, (key, value));
            assert(entry_views(entries@) == s.insert(p as int, kv));
            assert forall|i: int, j: int| 0 <= i < j < entries@.len() implies lex_lt(
                entry_views(entries@)[i].0,
                entry_views(entries@)[j].0,
            ) by {
                let t = s.insert(p as int, kv);
                if j < p {
                } else if i < p && j == p {
                } else if i < p {
                    lemma_lex_transitive(s[i].0, key@, s[j - 1].0);
                } else if i == p {
                } else {
                    assert(t[i] == s[i - 1] && t[j] == s[j - 1]);
                }
            }
            self.entries = entries;
        }
    }

    /// Removes `key`; true when it was set.
    pub fn remove(&mut self, key: &str) -> (r: bool)
        ensures
            r == query_map(old(self)@).contains_key(key@),
            query_map(final(self)@) == query_map(old(self)@).remove(key@),
            sorted_keys(final(self)@),
    {
        proof {
            use_type_invariant(&*self);
        }
        let ghost s = self@;
        let key_s = String::from_str(key);
        let mut i: usize = 0;
        while i < self.entries.len()
            invariant
                i <= self.entries.len(),
                key_s@ == key@,
                s == self@,
                s == old(self)@,
                sorted_keys(s),
                forall|k: int| 0 <= k < i ==> s[k].0 != key@,
            decreases self.entries.len() - i,
        {
            if self.entries[i].0 == key_s {
                assert(s[i as int].0 == key@);
                proof {
                    lemma_pairs_remove(s, i as int);
                    lemma_pairs_lookup(s, i as int);
                }
                let mut entries = copy_pairs(&self.entries);
                let _ = entries.remove(i);
                assert(entry_views(entries@) == s.remove(i as int));
                assert forall|a: int, b: int| 0 <= a < b < entries@.len() implies lex_lt(
                    entry_views(entries@)[a].0,
                    entry_views(entries@)[b].0,
                ) by {
                    let t = s.remove(i as int);
                    if b < i {
                    } else if a < i {
                        assert(t[b] == s[b + 1]);
                    } else {
                        assert(t[a] == s[a + 1] && t[b] == s[b + 1]);
                    }
                }
                self.entries = entries;
                assert(self@ == s.remove(i as int));
                return true;
            }
            i = i + 1;
        }
        proof {
            lemma_pairs_absent(s, key@);
            assert(query_map(s).remove(key@) =~= query_map(s));
        }
        false
    }

    /// Removes every parameter.
    pub fn clear(&mut self)
        ensures
            final(self)@ == Seq::<(Seq<char>, Seq<char>)>::empty(),
    {
        self.entries = Vec::new();
        assert(self@ =~= Seq::<(Seq<char>, Seq<char>)>::empty());
    }

    /// The parameters of a query string such as `?a=1&b=2`.
    pub fn from_query_string(query: &str) -> (r: RouteQuery)
        ensures
            query_map(r@) == crate::url::parsed_query(query@),
            sorted_keys(r@),
    {
        crate::url::parse_query_map(query)
    }

    /// The key and value at position `i` in key order.
    pub fn entry(&self, i: usize) -> (r: (&String, &String))
        requires
            i < self@.len(),
        ensures
            r.0@ == self@[i as int].0,
            r.1@ == self@[i as int].1,
    {
        (&self.entries[i].0, &self.entries[i].1)
    }
}

impl PartialEq for RouteQuery {
    fn eq(&self, other: &RouteQuery) -> (r: bool) {
        assert(self@.len() == self.entries.len() && other@.len() == other.entries.len());
        if self.entries.len() != other.entries.len() {
            return false;
        }
        let mut i: usize = 0;
        while i < self.entries.len()
            invariant
                i <= self.entries.len() == other.entries.len(),
                forall|k: int| 0 <= k < i ==> self@[k] == other@[k],
            decreases self.entries.len() - i,
        {
            if !(self.entries[i].0 == other.entries[i].0) || !(self.entries[i].1 == other.entries[i].1) {
                assert(self@[i as int] != other@[i as int]);
                return false;
            }
            i = i + 1;
        }
        assert(self@ =~= other@);
        true
    }
}

impl vstd::std_specs::cmp::PartialEqSpecImpl for RouteQuery {
    open spec fn obeys_eq_spec() -> bool {
        true
    }

    open spec fn eq_spec(&self, other: &RouteQuery) -> bool {
        self@ == other@
    }
}

impl Clone for RouteQuery {
    fn clone(&self) -> (r: RouteQuery)
        ensures
            r@ == self@,
    {
        proof {
            use_type_invariant(self);
        }
        RouteQuery { entries: copy_pairs(&self.entries) }
    }
}

} // verus!
