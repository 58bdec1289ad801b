//! Route parameters: a map from parameter key to the text captured for
//! it, kept as a short list and moved to a hash map when it grows.

use vstd::prelude::*;
use std::collections::HashMap;
use crate::live_id::{live_id, live_id_of};

verus! {

broadcast use vstd::std_specs::hash::group_hash_axioms;

/// The map that a list of entries with distinct keys stands for.
pub open spec fn entries_map(s: Seq<(u64, String)>) -> Map<u64, Seq<char>>
    decreases s.len(),
{
    if s.len() == 0 {
        Map::empty()
    } else {
        entries_map(s.drop_last()).insert(s.last().0, s.last().1@)
    }
}

/// No two entries share a key.
pub open spec fn keys_distinct(s: Seq<(u64, String)>) -> bool {
    forall|i: int, j: int| 0 <= i < j < s.len() ==> s[i].0 != s[j].0
}

proof fn lemma_entries_lookup(s: Seq<(u64, String)>, i: int)
    requires
        keys_distinct(s),
        0 <= i < s.len(),
    ensures
        entries_map(s).contains_key(s[i].0),
        entries_map(s)[s[i].0] == s[i].1@,
    decreases s.len(),
{
    if i < s.len() - 1 {
        lemma_entries_lookup(s.drop_last(), i);
    }
}

proof fn lemma_entries_absent(s: Seq<(u64, String)>, k: u64)
    requires
        forall|i: int| 0 <= i < s.len() ==> s[i].0 != k,
    ensures
        !entries_map(s).contains_key(k),
    decreases s.len(),
{
    if s.len() > 0 {
        lemma_entries_absent(s.drop_last(), k);
    }
}

proof fn lemma_entries_dom(s: Seq<(u64, String)>, k: u64)
    requires
        entries_map(s).contains_key(k),
    ensures
        exists|i: int| 0 <= i < s.len() && s[i].0 == k,
    decreases s.len(),
{
    if s.last().0 != k {
        lemma_entries_dom(s.drop_last(), k);
        let i = choose|i: int| 0 <= i < s.len() - 1 && s.drop_last()[i].0 == k;
        assert(s[i].0 == k);
    }
}

proof fn lemma_entries_update(s: Seq<(u64, String)>, i: int, v: String)
    requires
        keys_distinct(s),
        0 <= i < s.len(),
    ensures
        entries_map(s.update(i, (s[i].0, v))) == entries_map(s).insert(s[i].0, v@),
    decreases s.len(),
{
    let t = s.update(i, (s[i].0, v));
    if i == s.len() - 1 {
        assert(t.drop_last() == s.drop_last());
        assert(entries_map(t) =~= entries_map(s).insert(s[i].0, v@));
    } else {
        assert(t.drop_last() == s.drop_last().update(i, (s[i].0, v)));
        lemma_entries_update(s.drop_last(), i, v);
        assert(entries_map(t) =~= entries_map(s).insert(s[i].0, v@));
    }
}

fn copy_entries(v: &Vec<(u64, String)>) -> (r: Vec<(u64, String)>)
    ensures
        r@ == v@,
{
    let mut out: Vec<(u64, String)> = Vec::new();
    let mut i: usize = 0;
    while i < v.len()
        invariant
            i <= v.len(),
            out@ == v@.take(i as int),
        decreases v.len() - i,
    {
        let text = v[i].1.clone();
        out.push((v[i].0, text));
        i = i + 1;
        assert(out@ =~= v@.take(i as int));
    }
    assert(v@.take(i as int) == v@);
    out
}

/// At most four parameters with distinct keys, in the order they were set.
#[derive(Debug)]
pub struct SmallParams {
    entries: Vec<(u64, String)>,
}

impl View for SmallParams {
    type V = Map<u64, Seq<char>>;

    closed spec fn view(&self) -> Map<u64, Seq<char>> {
        entries_map(self.entries@)
    }
}

/// The most parameters kept in a list before they move to a hash map.
pub const SMALL_PARAMS_MAX: usize = 4;

/// The texts of a map of strings.
pub open spec fn text_views(m: Map<u64, String>) -> Map<u64, Seq<char>> {
    m.map_values(|s: String| s@)
}

impl SmallParams {
    #[verifier::type_invariant]
    spec fn inv(&self) -> bool {
        keys_distinct(self.entries@) && self.entries.len() <= SMALL_PARAMS_MAX
    }

    /// The stored parameters, in the order they were set.
    pub fn entries(&self) -> (r: &[(u64, String)])
        ensures
            keys_distinct(r@),
            entries_map(r@) == self@,
            r@.len() <= SMALL_PARAMS_MAX,
    {
        proof {
            use_type_invariant(self);
        }
        self.entries.as_slice()
    }

    /// The copy with `key` set to `value`; `value` back when `key` is new
    /// and the list is full.
    fn with(&self, key: u64, value: String) -> (r: Result<SmallParams, String>)
        ensures
            match r {
                Ok(s) => s@ == self@.insert(key, value@),
                Err(v) => v == value && !self@.contains_key(key) && self@.dom().len() == SMALL_PARAMS_MAX,
            },
    {
        proof {
            use_type_invariant(self);
            lemma_entries_len(self.entries@);
        }
        let mut entries = copy_entries(&self.entries);
        let mut i: usize = 0;
        while i < entries.len()
            invariant
                i <= entries.len(),
                entries@ == self.entries@,
                keys_distinct(entries@),
                entries.len() <= SMALL_PARAMS_MAX,
                forall|k: int| 0 <= k < i ==> entries@[k].0 != key,
            decreases entries.len() - i,
        {
            if entries[i].0 == key {
                proof {
                    lemma_entries_update(entries@, i as int, value);
                }
                entries.set(i, (key, value));
                return Ok(SmallParams { entries });
            }
            i = i + 1;
        }
        proof {
            lemma_entries_absent(entries@, key);
        }
        if entries.len() >= SMALL_PARAMS_MAX {
            return Err(value);
        }
        let ghost before = entries@;
        entries.push((key, value));
        assert(entries@.drop_last() == before);
        Ok(SmallParams { entries })
    }

    /// The same parameters in a hash map.
    fn to_map(&self) -> (r: HashMap<u64, String>)
        ensures
            text_views(r@) == self@,
    {
        proof {
            use_type_invariant(self);
        }
        let mut m: HashMap<u64, String> = HashMap::new();
        let mut i: usize = 0;
        assert(text_views(m@) =~= entries_map(self.entries@.take(0)));
        while i < self.entries.len()
            invariant
                i <= self.entries.len(),
                text_views(m@) == entries_map(self.entries@.take(i as int)),
            decreases self.entries.len() - i,
        {
            let ghost before = m@;
            m.insert(self.entries[i].0, self.entries[i].1.clone());
            assert(self.entries@.take(i + 1).drop_last() == self.entries@.take(i as int));
            assert(text_views(m@) =~= text_views(before).insert(self.entries@[i as int].0, self.entries@[i as int].1@));
            i = i + 1;
        }
        assert(self.entries@.take(i as int) == self.entries@);
        m
    }
}

/// Where route parameters are kept: a short list, or a hash map once there
/// are more than four.
#[derive(Debug)]
pub enum RouteParamStore {
    Small(SmallParams),
    Hashed(HashMap<u64, String>),
}

/// Parameters captured by a route match, keyed by the id of the parameter's
/// name. Each key appears once.
#[derive(Debug)]
pub struct RouteParams {
    pub data: RouteParamStore,
}

impl View for RouteParams {
    type V = Map<u64, Seq<char>>;

    open spec fn view(&self) -> Map<u64, Seq<char>> {
        match self.data {
            RouteParamStore::Small(s) => s@,
            RouteParamStore::Hashed(m) => text_views(m@),
        }
    }
}

/// Relies on `HashMap`'s `==`: the maps hold the same keys with equal
/// strings.
#[verifier::external_body]
fn maps_equal(a: &HashMap<u64, String>, b: &HashMap<u64, String>) -> (r: bool)
    ensures
        r == (text_views(a@) == text_views(b@)),
{
    a == b
}

/// Every pair of `entries` is in `other`.
fn contains_all(entries: &[(u64, String)], other: &RouteParams) -> (r: bool)
    ensures
        r == forall|k: int|
            0 <= k < entries@.len() ==> other@.contains_key(#[trigger] entries@[k].0) && other@[entries@[k].0]
                == entries@[k].1@,
{
    let mut i: usize = 0;
    while i < entries.len()
        invariant
            i <= entries.len(),
            forall|k: int|
                0 <= k < i ==> other@.contains_key(#[trigger] entries@[k].0) && other@[entries@[k].0]
                    == entries@[k].1@,
        decreases entries.len() - i,
    {
        match other.get_text(entries[i].0) {
            Some(t) => {
                if !(*t == entries[i].1) {
                    return false;
                }
            },
            None => {
                return false;
            },
        }
        i = i + 1;
    }
    true
}

proof fn lemma_equal_from_entries(entries: Seq<(u64, String)>, a: Map<u64, Seq<char>>, b: Map<u64, Seq<char>>)
    requires
        keys_distinct(entries),
        entries_map(entries) == a,
        a.dom().finite(),
        b.dom().finite(),
        a.dom().len() == b.dom().len(),
        forall|k: int| 0 <= k < entries.len() ==> b.contains_key(#[trigger] entries[k].0) && b[entries[k].0] == entries[k].1@,
    ensures
        a == b,
{
    assert forall|key: u64| #[trigger] a.dom().contains(key) implies b.dom().contains(key) && b[key] == a[key] by {
        lemma_entries_dom(entries, key);
        let k = choose|k: int| 0 <= k < entries.len() && entries[k].0 == key;
        lemma_entries_lookup(entries, k);
    }
    assert(a.dom().subset_of(b.dom()));
    vstd::set_lib::lemma_subset_equality(a.dom(), b.dom());
    assert(a.dom() =~= b.dom());
    assert(a =~= b);
}

impl RouteParams {
    /// No parameters.
    pub fn new() -> (r: RouteParams)
        ensures
            r@ == Map::<u64, Seq<char>>::empty(),
    {
        let r = RouteParams { data: RouteParamStore::Small(SmallParams { entries: Vec::new() }) };
        assert(r@ =~= Map::<u64, Seq<char>>::empty());
        r
    }

    /// Sets the text of `key`, replacing an earlier one. A fifth distinct
    /// key moves the parameters from the list to a hash map.
    pub fn add(&mut self, key: u64, value: String)
        ensures
            final(self)@ == old(self)@.insert(key, value@),
    {
        let ghost vv = value@;
        let next = match &mut self.data {
            RouteParamStore::Hashed(m) => {
                let ghost before = m@;
                m.insert(key, value);
                assert(text_views(m@) =~= text_views(before).insert(key, vv));
                return;
            },
            RouteParamStore::Small(s) => match s.with(key, value) {
                Ok(n) => RouteParamStore::Small(n),
                Err(value) => {
                    let mut m = s.to_map();
                    let ghost before = m@;
                    m.insert(key, value);
                    assert(text_views(m@) =~= text_views(before).insert(key, vv));
                    RouteParamStore::Hashed(m)
                },
            },
        };
        self.data = next;
    }

    /// The text stored for `key`.
    pub fn get_text(&self, key: u64) -> (r: Option<&String>)
        ensures
            r is Some <==> self@.contains_key(key),
            r is Some ==> r->0@ == self@[key],
    {
        match &self.data {
            RouteParamStore::Small(s) => {
                let entries = s.entries();
                let mut i: usize = 0;
                while i < entries.len()
                    invariant
                        i <= entries@.len(),
                        keys_distinct(entries@),
                        entries_map(entries@) == self@,
                        forall|k: int| 0 <= k < i ==> entries@[k].0 != key,
                    decreases entries.len() - i,
                {
                    if entries[i].0 == key {
                        proof {
                            lemma_entries_lookup(entries@, i as int);
                        }
                        return Some(&entries[i].1);
                    }
                    i = i + 1;
                }
                proof {
                    lemma_entries_absent(entries@, key);
                }
                None
            },
            RouteParamStore::Hashed(m) => {
                let r = m.get(&key);
                proof {
                    assert(text_views(m@).dom() =~= m@.dom());
                    if r is Some {
                        assert(m@.contains_key(key));
                        assert(text_views(m@)[key] == m@[key]@);
                    }
                }
                r
            },
        }
    }

    /// The id of the text stored for `key`.
    pub fn get(&self, key: u64) -> (r: Option<u64>)
        ensures
            r is Some <==> self@.contains_key(key),
            r is Some ==> r->0 == live_id_of(self@[key]),
    {
        match self.get_text(key) {
            Some(text) => Some(live_id(text.as_str())),
            None => None,
        }
    }

    /// The number of parameters set.
    pub fn len(&self) -> (r: usize)
        ensures
            r == self@.dom().len(),
            self@.dom().finite(),
    {
        match &self.data {
            RouteParamStore::Small(s) => {
                let entries = s.entries();
                proof {
                    lemma_entries_len(entries@);
                }
                entries.len()
            },
            RouteParamStore::Hashed(m) => {
                assert(text_views(m@).dom() =~= m@.dom());
                m.len()
            },
        }
    }

    /// Whether no parameter is set.
    pub fn is_empty(&self) -> (r: bool)
        ensures
            r == (self@.dom().len() == 0),
    {
        self.len() == 0
    }

    /// A copy of these parameters.
    pub fn duplicate(&self) -> (r: RouteParams)
        ensures
            r@ == self@,
    {
        match &self.data {
            RouteParamStore::Small(s) => {
                let entries = s.entries();
                let mut copy: Vec<(u64, String)> = Vec::new();
                let mut i: usize = 0;
                while i < entries.len()
                    invariant
                        i <= entries@.len(),
                        copy@ == entries@.take(i as int),
                    decreases entries.len() - i,
                {
                    let text = entries[i].1.clone();
                    copy.push((entries[i].0, text));
                    i = i + 1;
                    assert(copy@ =~= entries@.take(i as int));
                }
                assert(entries@.take(i as int) == entries@);
                RouteParams { data: RouteParamStore::Small(SmallParams { entries: copy }) }
            },
            RouteParamStore::Hashed(m) => RouteParams { data: RouteParamStore::Hashed(m.clone()) },
        }
    }
}

impl PartialEq for RouteParams {
    fn eq(&self, other: &RouteParams) -> (r: bool) {
        if self.len() != other.len() {
            return false;
        }
        match (&self.data, &other.data) {
            (RouteParamStore::Hashed(a), RouteParamStore::Hashed(b)) => maps_equal(a, b),
            (RouteParamStore::Small(s), _) => {
                let entries = s.entries();
                let all = contains_all(entries, other);
                proof {
                    if all {
                        lemma_equal_from_entries(entries@, self@, other@);
                    } else {
                        let k = choose|k: int|
                            0 <= k < entries@.len() && !(other@.contains_key(#[trigger] entries@[k].0) && other@[entries@[k].0]
                                == entries@[k].1@);
                        lemma_entries_lookup(entries@, k);
                    }
                }
                all
            },
            (RouteParamStore::Hashed(_), RouteParamStore::Small(s)) => {
                let entries = s.entries();
                let all = contains_all(entries, self);
                proof {
                    if all {
                        lemma_equal_from_entries(entries@, other@, self@);
                    } else {
                        let k = choose|k: int|
                            0 <= k < entries@.len() && !(self@.contains_key(#[trigger] entries@[k].0) && self@[entries@[k].0]
                                == entries@[k].1@);
                        lemma_entries_lookup(entries@, k);
                    }
                }
                all
            },
        }
    }
}

impl vstd::std_specs::cmp::PartialEqSpecImpl for RouteParams {
    open spec fn obeys_eq_spec() -> bool {
        true
    }

    open spec fn eq_spec(&self, other: &RouteParams) -> bool {
        self@ == other@
    }
}

proof fn lemma_entries_len(s: Seq<(u64, String)>)
    requires
        keys_distinct(s),
    ensures
        entries_map(s).dom().len() == s.len(),
        entries_map(s).dom().finite(),
    decreases s.len(),
{
    if s.len() > 0 {
        let p = s.drop_last();
        lemma_entries_len(p);
        assert forall|i: int| 0 <= i < p.len() implies p[i].0 != s.last().0 by {}
        lemma_entries_absent(p, s.last().0);
    }
}

} // verus!
