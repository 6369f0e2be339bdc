//! A small map from text keys to text values.
//!
//! Header tables, DNS-SD TXT records and session cookies are all string-keyed
//! maps in which a later entry for a key replaces an earlier one. Entries are
//! kept in ascending key order, compared character by character, and no key
//! occurs twice.
use crate::text::{chars_of, lemma_text_less_total, lemma_text_less_trans, less_text_chars, match_at, matches_at, owned, slice_chars, text_less};
use vstd::prelude::*;

verus! {

/// The map described by a list of distinct-key entries.
pub open spec fn entries_map(e: Seq<(Seq<char>, Seq<char>)>) -> Map<Seq<char>, Seq<char>>
    decreases e.len(),
{
    if e.len() == 0 {
        Map::empty()
    } else {
        entries_map(e.drop_last()).insert(e.last().0, e.last().1)
    }
}

pub open spec fn distinct_keys(e: Seq<(Seq<char>, Seq<char>)>) -> bool {
    forall|i: int, j: int| 0 <= i < j < e.len() ==> #[trigger] e[i].0 != #[trigger] e[j].0
}

/// The keys ascend strictly.
pub open spec fn keys_ascend(e: Seq<(Seq<char>, Seq<char>)>) -> bool {
    forall|i: int, j: int| 0 <= i < j < e.len() ==> text_less(#[trigger] e[i].0, #[trigger] e[j].0)
}

/// Adding an entry with a new key anywhere adds it to the map.
pub proof fn lemma_entries_map_insert(e: Seq<(Seq<char>, Seq<char>)>, j: int, k: Seq<char>, v: Seq<char>)
    requires
        distinct_keys(e),
        0 <= j <= e.len(),
        forall|i: int| 0 <= i < e.len() ==> #[trigger] e[i].0 != k,
    ensures
        distinct_keys(e.insert(j, (k, v))),
        entries_map(e.insert(j, (k, v))) == entries_map(e).insert(k, v),
{
    let u = e.insert(j, (k, v));
    assert forall|a: int, b: int| 0 <= a < b < u.len() implies #[trigger] u[a].0 != #[trigger] u[b].0 by {
        if a < j && b < j {
            assert(u[a] == e[a] && u[b] == e[b]);
        } else if a < j && b == j {
        } else if a < j {
            assert(u[a] == e[a] && u[b] == e[b - 1]);
        } else if a == j {
            assert(u[b] == e[b - 1]);
        } else {
            assert(u[a] == e[a - 1] && u[b] == e[b - 1]);
        }
    }
    assert forall|q: Seq<char>| #[trigger] entries_map(u).contains_key(q) == entries_map(e).insert(k, v).contains_key(q)
        && (entries_map(u).contains_key(q) ==> entries_map(u)[q] == entries_map(e).insert(k, v)[q]) by {
        lemma_entries_map_lookup(u, q);
        lemma_entries_map_lookup(e, q);
        if q == k {
            assert(u[j].0 == k);
        } else {
            if exists|i: int| 0 <= i < e.len() && #[trigger] e[i].0 == q {
                let i = choose|i: int| 0 <= i < e.len() && #[trigger] e[i].0 == q;
                let w = if i < j { i } else { i + 1 };
                assert(u[w] == e[i]);
            }
            if exists|i: int| 0 <= i < u.len() && #[trigger] u[i].0 == q {
                let i = choose|i: int| 0 <= i < u.len() && #[trigger] u[i].0 == q;
                if i < j {
                    assert(u[i] == e[i]);
                } else if i > j {
                    assert(u[i] == e[i - 1]);
                }
            }
        }
    }
    assert(entries_map(u) =~= entries_map(e).insert(k, v));
}

pub proof fn lemma_entries_map_lookup(e: Seq<(Seq<char>, Seq<char>)>, k: Seq<char>)
    requires
        distinct_keys(e),
    ensures
        entries_map(e).contains_key(k) <==> exists|i: int| 0 <= i < e.len() && #[trigger] e[i].0 == k,
        forall|i: int| 0 <= i < e.len() && #[trigger] e[i].0 == k ==> entries_map(e)[k] == e[i].1,
    decreases e.len(),
{
    if e.len() > 0 {
        let d = e.drop_last();
        assert(distinct_keys(d));
        lemma_entries_map_lookup(d, k);
        if entries_map(e).contains_key(k) && k != e.last().0 {
            let i = choose|i: int| 0 <= i < d.len() && #[trigger] d[i].0 == k;
            assert(e[i].0 == k);
        }
        if exists|i: int| 0 <= i < e.len() && #[trigger] e[i].0 == k {
            let i = choose|i: int| 0 <= i < e.len() && #[trigger] e[i].0 == k;
            if i < e.len() - 1 {
                assert(d[i].0 == k);
            }
        }
        assert forall|i: int| 0 <= i < e.len() && #[trigger] e[i].0 == k implies entries_map(e)[k]
            == e[i].1 by {
            if i < e.len() - 1 {
                assert(d[i].0 == k);
            }
        }
    }
}

pub proof fn lemma_entries_map_update(e: Seq<(Seq<char>, Seq<char>)>, i: int, v: Seq<char>)
    requires
        distinct_keys(e),
        0 <= i < e.len(),
    ensures
        entries_map(e.update(i, (e[i].0, v))) == entries_map(e).insert(e[i].0, v),
        distinct_keys(e.update(i, (e[i].0, v))),
    decreases e.len(),
{
    let u = e.update(i, (e[i].0, v));
    if i == e.len() - 1 {
        assert(u.drop_last() =~= e.drop_last());
        assert(entries_map(u) =~= entries_map(e).insert(e[i].0, v));
    } else {
        let d = e.drop_last();
        assert(distinct_keys(d));
        lemma_entries_map_update(d, i, v);
        assert(u.drop_last() =~= d.update(i, (d[i].0, v)));
        assert(e[i].0 != e.last().0);
        assert(entries_map(u) =~= entries_map(e).insert(e[i].0, v));
    }
}

#[derive(Debug)]
pub struct TextMap {
    entries: Vec<(Vec<char>, String)>,
}

impl TextMap {
    /// The entries as plain sequences, in order.
    pub closed spec fn entry_seq(&self) -> Seq<(Seq<char>, Seq<char>)> {
        Seq::new(self.entries@.len(), |i: int| (self.entries@[i].0@, self.entries@[i].1@))
    }

    #[verifier::type_invariant]
    spec fn wf(&self) -> bool {
        &&& distinct_keys(self.entry_seq())
        &&& keys_ascend(self.entry_seq())
    }

    pub closed spec fn view(&self) -> Map<Seq<char>, Seq<char>> {
        entries_map(self.entry_seq())
    }

    /// Number of keys.
    pub closed spec fn size(&self) -> nat {
        self.entries@.len()
    }

    pub fn new() -> (m: TextMap)
        ensures
            m.view() == Map::<Seq<char>, Seq<char>>::empty(),
            m.size() == 0,
    {
        let m = TextMap { entries: Vec::new() };
        assert(m.entry_seq() =~= seq![]);
        m
    }

    pub fn len(&self) -> (n: usize)
        ensures
            n == self.size(),
    {
        self.entries.len()
    }

    fn index_of(&self, key: &[char]) -> (r: Option<usize>)
        ensures
            r matches Some(i) ==> i < self.entries@.len() && self.entry_seq()[i as int].0 == key@,
            r is None ==> forall|i: int|
                0 <= i < self.entries@.len() ==> #[trigger] self.entry_seq()[i].0 != key@,
    {
        let mut i: usize = 0;
        while i < self.entries.len()
            invariant
                i <= self.entries@.len(),
                forall|j: int| 0 <= j < i ==> #[trigger] self.entry_seq()[j].0 != key@,
            decreases self.entries.len() - i,
        {
            let k = &self.entries[i].0;
            if k.len() == key.len() && match_at(k, key, 0) {
                assert forall|j: int| 0 <= j < key@.len() implies k@[j] == key@[j] by {
                    assert(k@[0 + j] == key@[j]);
                }
                assert(k@ =~= key@);
                return Some(i);
            }
            proof {
                if k@ == key@ {
                    assert(k@.len() == key@.len());
                    assert(matches_at(k@, key@, 0));
                }
            }
            i += 1;
        }
        None
    }

    /// The value stored for `key`.
    pub fn get_chars(&self, key: &[char]) -> (r: Option<&String>)
        ensures
            r matches Some(v) ==> self.view().contains_key(key@) && self.view()[key@] == v@,
            r is None ==> !self.view().contains_key(key@),
    {
        proof {
            use_type_invariant(self);
            lemma_entries_map_lookup(self.entry_seq(), key@);
        }
        match self.index_of(key) {
            Some(i) => Some(&self.entries[i].1),
            None => None,
        }
    }

    /// The value stored for `key`.
    pub fn get(&self, key: &str) -> (r: Option<&String>)
        ensures
            r matches Some(v) ==> self.view().contains_key(key@) && self.view()[key@] == v@,
            r is None ==> !self.view().contains_key(key@),
    {
        let k = chars_of(key);
        self.get_chars(&k)
    }

    /// Whether `key` is present.
    pub fn contains_key(&self, key: &str) -> (b: bool)
        ensures
            b == self.view().contains_key(key@),
    {
        self.get(key).is_some()
    }

    /// Stores `value` under `key`, replacing any earlier value.
    pub fn insert_chars(&mut self, key: Vec<char>, value: String)
        ensures
            final(self).view() == old(self).view().insert(key@, value@),
    {
        proof {
            use_type_invariant(&*self);
        }
        match self.index_of(&key) {
            Some(i) => {
                let ghost e = self.entry_seq();
                proof {
                    lemma_entries_map_update(e, i as int, value@);
                }
                let ghost vv = value@;
                let mut tmp: Vec<(Vec<char>, String)> = Vec::new();
                std::mem::swap(&mut tmp, &mut self.entries);
                tmp.set(i, (key, value));
                proof {
                    let ns = Seq::new(tmp@.len(), |j: int| (tmp@[j].0@, tmp@[j].1@));
                    assert(ns =~= e.update(i as int, (e[i as int].0, vv)));
                }
                self.entries = tmp;
                assert(self.entry_seq() =~= e.update(i as int, (e[i as int].0, vv)));
            },
            None => {
                let ghost e = self.entry_seq();
                let ghost kv = key@;
                let ghost vv = value@;
                let mut j: usize = 0;
                while j < self.entries.len() && less_text_chars(&self.entries[j].0, &key)
                    invariant
                        j <= self.entries@.len(),
                        e == self.entry_seq(),
                        kv == key@,
                        forall|q: int| 0 <= q < j ==> text_less(#[trigger] e[q].0, kv),
                    decreases self.entries.len() - j,
                {
                    j += 1;
                }
                proof {
                    if j < e.len() {
                        lemma_text_less_total(e[j as int].0, kv);
                        assert(e[j as int].0 != kv);
                    }
                    lemma_entries_map_insert(e, j as int, kv, vv);
                }
                let mut tmp: Vec<(Vec<char>, String)> = Vec::new();
                std::mem::swap(&mut tmp, &mut self.entries);
                tmp.insert(j, (key, value));
                proof {
                    let ns = Seq::new(tmp@.len(), |q: int| (tmp@[q].0@, tmp@[q].1@));
                    let u = e.insert(j as int, (kv, vv));
                    assert(ns =~= u);
                    assert forall|a: int, b: int| 0 <= a < b < u.len() implies text_less(#[trigger] u[a].0, #[trigger] u[b].0) by {
                        if b < j {
                            assert(u[a] == e[a] && u[b] == e[b]);
                        } else if b == j {
                            assert(u[a] == e[a]);
                        } else if a < j {
                            assert(u[a] == e[a] && u[b] == e[b - 1]);
                            lemma_text_less_total(e[j as int].0, kv);
                            if b - 1 > j {
                                lemma_text_less_trans(kv, e[j as int].0, e[b - 1].0);
                            }
                            lemma_text_less_trans(e[a].0, kv, e[b - 1].0);
                        } else if a == j {
                            assert(u[b] == e[b - 1]);
                            lemma_text_less_total(e[j as int].0, kv);
                            if b - 1 > j {
                                lemma_text_less_trans(kv, e[j as int].0, e[b - 1].0);
                            }
                        } else {
                            assert(u[a] == e[a - 1] && u[b] == e[b - 1]);
                        }
                    }
                }
                self.entries = tmp;
                assert(self.entry_seq() =~= e.insert(j as int, (kv, vv)));
            },
        }
    }

    /// Stores `value` under `key`, replacing any earlier value.
    pub fn insert(&mut self, key: String, value: String)
        ensures
            final(self).view() == old(self).view().insert(key@, value@),
    {
        let k = chars_of(key.as_str());
        self.insert_chars(k, value);
    }

    /// The key and value of entry `i`, in ascending key order: the keys of
    /// the entries before it sort below its key, those after it above.
    pub fn entry(&self, i: usize) -> (r: (&[char], &String))
        requires
            i < self.size(),
        ensures
            self.view().contains_key(r.0@),
            self.view()[r.0@] == r.1@,
            forall|j: int| 0 <= j < i ==> text_less(#[trigger] self.entry_seq()[j].0, r.0@),
            forall|j: int| i < j < self.size() ==> text_less(r.0@, #[trigger] self.entry_seq()[j].0),
            forall|k: Seq<char>| #[trigger] self.view().contains_key(k) ==> exists|j: int| 0 <= j < self.size() && self.entry_seq()[j].0 == k,
    {
        proof {
            use_type_invariant(self);
            lemma_entries_map_lookup(self.entry_seq(), self.entry_seq()[i as int].0);
            assert forall|k: Seq<char>| #[trigger] self.view().contains_key(k) implies exists|j: int| 0 <= j < self.size() && self.entry_seq()[j].0 == k by {
                lemma_entries_map_lookup(self.entry_seq(), k);
            }
        }
        (self.entries[i].0.as_slice(), &self.entries[i].1)
    }
}

impl Clone for TextMap {
    fn clone(&self) -> (c: TextMap)
        ensures
            c.view() == self.view(),
            c.size() == self.size(),
    {
        proof {
            use_type_invariant(self);
        }
        let mut entries: Vec<(Vec<char>, String)> = Vec::new();
        let mut i: usize = 0;
        while i < self.entries.len()
            invariant
                i <= self.entries@.len(),
                distinct_keys(self.entry_seq()),
                keys_ascend(self.entry_seq()),
                entries@.len() == i,
                forall|j: int| 0 <= j < i ==> (#[trigger] entries@[j]).0@ == self.entries@[j].0@
                    && entries@[j].1@ == self.entries@[j].1@,
            decreases self.entries.len() - i,
        {
            let k = slice_chars(&self.entries[i].0, 0, self.entries[i].0.len());
            assert(k@ =~= self.entries@[i as int].0@);
            let v = owned(self.entries[i].1.as_str());
            entries.push((k, v));
            i += 1;
        }
        proof {
            let ns = Seq::new(entries@.len(), |j: int| (entries@[j].0@, entries@[j].1@));
            assert(ns =~= self.entry_seq());
        }
        let c = TextMap { entries };
        assert(c.entry_seq() =~= self.entry_seq());
        c
    }
}

} // verus!
