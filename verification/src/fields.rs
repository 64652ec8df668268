//! An ordered map from field names to values, kept sorted by name so that
//! records always list their fields in the same order.

use vstd::prelude::*;

use crate::text::{seq_lt, str_lt};

verus! {

broadcast use vstd::std_specs::vec::group_vec_axioms;

/// Field names with their values, sorted by name.
#[derive(Debug, Clone, PartialEq)]
pub struct FieldMap<T> {
    pub entries: Vec<(String, T)>,
}

/// The names of a sequence of entries.
pub open spec fn entry_keys<T>(s: Seq<(String, T)>) -> Seq<Seq<char>> {
    s.map_values(|e: (String, T)| e.0@)
}

/// The value stored under `key` in a model sequence: that of the first entry with it.
pub open spec fn lookup<K, M>(s: Seq<(K, M)>, key: K) -> Option<M>
    decreases s.len(),
{
    if s.len() == 0 {
        None
    } else if s[0].0 == key {
        Some(s[0].1)
    } else {
        lookup(s.drop_first(), key)
    }
}

/// Whether a model sequence has an entry named `key`.
pub open spec fn has_key<K, M>(s: Seq<(K, M)>, key: K) -> bool {
    exists|i: int| 0 <= i < s.len() && #[trigger] s[i].0 == key
}

/// `lookup` finds the first entry with the key, and nothing when there is none.
pub proof fn lemma_lookup_first<K, M>(s: Seq<(K, M)>, key: K, i: int)
    requires
        0 <= i < s.len(),
        s[i].0 == key,
        forall|j: int| 0 <= j < i ==> s[j].0 != key,
    ensures
        lookup(s, key) == Some(s[i].1),
    decreases i,
{
    if i > 0 {
        lemma_lookup_first(s.drop_first(), key, i - 1);
    }
}

/// `lookup` finds nothing when no entry has the key.
pub proof fn lemma_lookup_none<K, M>(s: Seq<(K, M)>, key: K)
    requires
        forall|j: int| 0 <= j < s.len() ==> s[j].0 != key,
    ensures
        lookup(s, key) is None,
        !has_key(s, key),
    decreases s.len(),
{
    if s.len() > 0 {
        assert forall|j: int| 0 <= j < s.drop_first().len() implies s.drop_first()[j].0 != key by {
            assert(s.drop_first()[j] == s[j + 1]);
        }
        lemma_lookup_none(s.drop_first(), key);
    }
}


/// Looking up in a sequence after replacing the first entry with a key.
pub proof fn lemma_lookup_update<K, M>(s: Seq<(K, M)>, i: int, v: M, q: K)
    requires
        0 <= i < s.len(),
        forall|j: int| 0 <= j < i ==> s[j].0 != s[i].0,
    ensures
        lookup(s.update(i, (s[i].0, v)), q) == if q == s[i].0 { Some(v) } else { lookup(s, q) },
    decreases i,
{
    if i > 0 {
        assert(s.update(i, (s[i].0, v)).drop_first() =~= s.drop_first().update(i - 1, (s[i].0, v)));
        lemma_lookup_update(s.drop_first(), i - 1, v, q);
    } else {
        assert(s.update(0, (s[0].0, v)).drop_first() =~= s.drop_first());
    }
}

/// Looking up in a sequence after inserting an entry with a fresh key.
pub proof fn lemma_lookup_insert<K, M>(s: Seq<(K, M)>, p: int, k: K, v: M, q: K)
    requires
        0 <= p <= s.len(),
        forall|j: int| 0 <= j < s.len() ==> s[j].0 != k,
    ensures
        lookup(s.insert(p, (k, v)), q) == if q == k { Some(v) } else { lookup(s, q) },
    decreases p,
{
    if p > 0 {
        assert(s.insert(p, (k, v)).drop_first() =~= s.drop_first().insert(p - 1, (k, v)));
        assert forall|j: int| 0 <= j < s.drop_first().len() implies s.drop_first()[j].0 != k by {
            assert(s.drop_first()[j] == s[j + 1]);
        }
        lemma_lookup_insert(s.drop_first(), p - 1, k, v, q);
    } else {
        assert(s.insert(0, (k, v)).drop_first() =~= s);
        if q == k {
        } else {
        }
    }
}


/// A found key sits at some index.
pub proof fn lemma_lookup_some_index<K, M>(s: Seq<(K, M)>, key: K)
    requires
        lookup(s, key) is Some,
    ensures
        exists|i: int| 0 <= i < s.len() && s[i].0 == key && lookup(s, key) == Some(s[i].1),
    decreases s.len(),
{
    if s[0].0 != key {
        lemma_lookup_some_index(s.drop_first(), key);
        let i = choose|i: int| 0 <= i < s.drop_first().len() && s.drop_first()[i].0 == key && lookup(s.drop_first(), key) == Some(s.drop_first()[i].1);
        assert(s[i + 1] == s.drop_first()[i]);
    }
}

/// Keys strictly increasing.
pub open spec fn sorted_keys(keys: Seq<Seq<char>>) -> bool {
    forall|i: int, j: int| 0 <= i < j < keys.len() ==> seq_lt(#[trigger] keys[i], #[trigger] keys[j])
}


/// The model of a list of entries under a model of the values.
pub open spec fn model<T, M>(s: Seq<(String, T)>, f: spec_fn(T) -> M) -> Seq<(Seq<char>, M)> {
    s.map_values(|e: (String, T)| (e.0@, f(e.1)))
}


/// Indexing into a model.
pub proof fn lemma_model_index<T, M>(s: Seq<(String, T)>, f: spec_fn(T) -> M, i: int)
    requires
        0 <= i < s.len(),
    ensures
        model(s, f).len() == s.len(),
        model(s, f)[i] == (s[i].0@, f(s[i].1)),
{
}

/// What `FieldMap::insert` does to the entries.
pub open spec fn insert_post<T>(
    before: Seq<(String, T)>,
    after: Seq<(String, T)>,
    key: String,
    value: T,
    replaced: Option<T>,
) -> bool {
    match replaced {
        Some(v) => exists|i: int|
            0 <= i < before.len() && before[i].0@ == key@ && before[i].1 == v && after == before.update(
                i,
                (key, value),
            ) && (forall|j: int| 0 <= j < i ==> before[j].0@ != key@),
        None => (forall|j: int| 0 <= j < before.len() ==> before[j].0@ != key@) && exists|p: int|
            0 <= p <= before.len() && after == before.insert(p, (key, value)) && (forall|j: int|
                0 <= j < p ==> seq_lt(before[j].0@, key@)) && (sorted_keys(entry_keys(before))
                ==> forall|j: int| p <= j < before.len() ==> seq_lt(key@, before[j].0@)),
    }
}

/// Lookups in the model after an insertion.
pub proof fn lemma_model_after_insert<T, M>(
    before: Seq<(String, T)>,
    after: Seq<(String, T)>,
    key: String,
    value: T,
    replaced: Option<T>,
    f: spec_fn(T) -> M,
)
    requires
        insert_post(before, after, key, value, replaced),
    ensures
        lookup(model(after, f), key@) == Some(f(value)),
        forall|n: Seq<char>| n != key@ ==> lookup(model(after, f), n) == lookup(model(before, f), n),
        match replaced {
            Some(v) => lookup(model(before, f), key@) == Some(f(v)),
            None => lookup(model(before, f), key@) is None,
        },
{
    let bm = model(before, f);
    match replaced {
        Some(v) => {
            let i = choose|i: int|
                0 <= i < before.len() && before[i].0@ == key@ && before[i].1 == v && after == before.update(
                    i,
                    (key, value),
                ) && (forall|j: int| 0 <= j < i ==> before[j].0@ != key@);
            assert(model(after, f) =~= bm.update(i, (bm[i].0, f(value))));
            assert forall|n: Seq<char>| true implies lookup(bm.update(i, (bm[i].0, f(value))), n) == if n == bm[i].0 { Some(f(value)) } else { lookup(bm, n) } by {
                lemma_lookup_update(bm, i, f(value), n);
            }
            lemma_lookup_first(bm, key@, i);
        },
        None => {
            let p = choose|p: int|
                0 <= p <= before.len() && after == before.insert(p, (key, value)) && (forall|j: int|
                    0 <= j < p ==> seq_lt(before[j].0@, key@)) && (sorted_keys(entry_keys(before))
                    ==> forall|j: int| p <= j < before.len() ==> seq_lt(key@, before[j].0@));
            assert(model(after, f) =~= bm.insert(p, (key@, f(value))));
            assert forall|n: Seq<char>| true implies lookup(bm.insert(p, (key@, f(value))), n) == if n == key@ { Some(f(value)) } else { lookup(bm, n) } by {
                lemma_lookup_insert(bm, p, key@, f(value), n);
            }
            lemma_lookup_none(bm, key@);
        },
    }
}


/// Keys of a model sequence strictly increasing.
pub open spec fn sorted_model<M>(m: Seq<(Seq<char>, M)>) -> bool {
    forall|i: int, j: int| 0 <= i < j < m.len() ==> seq_lt(#[trigger] m[i].0, #[trigger] m[j].0)
}

/// Inserting into a sorted model: the entry with the key is replaced, or
/// the key goes before the first greater one.
pub open spec fn sorted_insert<M>(m: Seq<(Seq<char>, M)>, k: Seq<char>, v: M) -> Seq<(Seq<char>, M)>
    decreases m.len(),
{
    if m.len() == 0 {
        seq![(k, v)]
    } else if m[0].0 == k {
        m.update(0, (k, v))
    } else if seq_lt(m[0].0, k) {
        seq![m[0]] + sorted_insert(m.drop_first(), k, v)
    } else {
        seq![(k, v)] + m
    }
}

/// The model of a map built by inserting the entries in order: keys end up
/// sorted and a later entry replaces an earlier one with the same key.
pub open spec fn insert_all<M>(fs: Seq<(Seq<char>, M)>) -> Seq<(Seq<char>, M)>
    decreases fs.len(),
{
    if fs.len() == 0 {
        Seq::empty()
    } else {
        sorted_insert(insert_all(fs.drop_last()), fs.last().0, fs.last().1)
    }
}

proof fn lemma_sorted_insert_replace<M>(m: Seq<(Seq<char>, M)>, k: Seq<char>, v: M, i: int)
    requires
        sorted_model(m),
        0 <= i < m.len(),
        m[i].0 == k,
    ensures
        sorted_insert(m, k, v) == m.update(i, (k, v)),
    decreases i,
{
    if i > 0 {
        assert(seq_lt(m[0].0, m[i].0));
        crate::text::lemma_seq_lt_irreflexive(k);
        let t = m.drop_first();
        assert(sorted_model(t)) by {
            assert forall|a: int, b: int| 0 <= a < b < t.len() implies seq_lt(#[trigger] t[a].0, #[trigger] t[b].0) by {
                assert(t[a] == m[a + 1] && t[b] == m[b + 1]);
            }
        }
        lemma_sorted_insert_replace(t, k, v, i - 1);
        assert(seq![m[0]] + t.update(i - 1, (k, v)) =~= m.update(i, (k, v)));
    }
}

proof fn lemma_sorted_insert_fresh<M>(m: Seq<(Seq<char>, M)>, k: Seq<char>, v: M, p: int)
    requires
        sorted_model(m),
        0 <= p <= m.len(),
        forall|j: int| 0 <= j < p ==> seq_lt(m[j].0, k),
        forall|j: int| p <= j < m.len() ==> seq_lt(k, m[j].0),
    ensures
        sorted_insert(m, k, v) == m.insert(p, (k, v)),
    decreases p,
{
    if p > 0 {
        crate::text::lemma_seq_lt_irreflexive(k);
        assert(m[0].0 != k);
        let t = m.drop_first();
        assert(sorted_model(t)) by {
            assert forall|a: int, b: int| 0 <= a < b < t.len() implies seq_lt(#[trigger] t[a].0, #[trigger] t[b].0) by {
                assert(t[a] == m[a + 1] && t[b] == m[b + 1]);
            }
        }
        assert forall|j: int| 0 <= j < p - 1 implies seq_lt(t[j].0, k) by {
            assert(t[j] == m[j + 1]);
        }
        assert forall|j: int| p - 1 <= j < t.len() implies seq_lt(k, t[j].0) by {
            assert(t[j] == m[j + 1]);
        }
        lemma_sorted_insert_fresh(t, k, v, p - 1);
        assert(seq![m[0]] + t.insert(p - 1, (k, v)) =~= m.insert(p, (k, v)));
    } else if m.len() > 0 {
        crate::text::lemma_seq_lt_irreflexive(k);
        crate::text::lemma_seq_lt_asymmetric(k, m[0].0);
        assert(seq![(k, v)] + m =~= m.insert(0, (k, v)));
    } else {
        assert(seq![(k, v)] =~= m.insert(0, (k, v)));
    }
}

/// On sorted entries, what `FieldMap::insert` does to the model is `sorted_insert`.
pub proof fn lemma_insert_is_sorted_insert<T, M>(
    before: Seq<(String, T)>,
    after: Seq<(String, T)>,
    key: String,
    value: T,
    replaced: Option<T>,
    f: spec_fn(T) -> M,
)
    requires
        insert_post(before, after, key, value, replaced),
        sorted_keys(entry_keys(before)),
    ensures
        model(after, f) == sorted_insert(model(before, f), key@, f(value)),
{
    let bm = model(before, f);
    assert(sorted_model(bm)) by {
        assert forall|a: int, b: int| 0 <= a < b < bm.len() implies seq_lt(#[trigger] bm[a].0, #[trigger] bm[b].0) by {
            assert(entry_keys(before)[a] == bm[a].0 && entry_keys(before)[b] == bm[b].0);
        }
    }
    match replaced {
        Some(old_value) => {
            let i = choose|i: int|
                0 <= i < before.len() && before[i].0@ == key@ && before[i].1 == old_value && after == before.update(
                    i,
                    (key, value),
                ) && (forall|j: int| 0 <= j < i ==> before[j].0@ != key@);
            lemma_sorted_insert_replace(bm, key@, f(value), i);
            assert(model(after, f) =~= bm.update(i, (key@, f(value))));
        },
        None => {
            let p = choose|p: int|
                0 <= p <= before.len() && after == before.insert(p, (key, value)) && (forall|j: int|
                    0 <= j < p ==> seq_lt(before[j].0@, key@)) && (sorted_keys(entry_keys(before))
                    ==> forall|j: int| p <= j < before.len() ==> seq_lt(key@, before[j].0@));
            lemma_sorted_insert_fresh(bm, key@, f(value), p);
            assert(model(after, f) =~= bm.insert(p, (key@, f(value))));
        },
    }
}

impl<T> FieldMap<T> {
    /// The map is well formed: its names strictly increase, so none occurs
    /// twice. `new` makes a well-formed map and `insert` keeps it so.
    pub open spec fn wf(&self) -> bool {
        sorted_keys(entry_keys(self.entries@))
    }

    /// The empty map.
    pub fn new() -> (m: FieldMap<T>)
        ensures
            m.entries@.len() == 0,
            m.wf(),
    {
        FieldMap { entries: Vec::new() }
    }

    /// Number of fields.
    pub fn len(&self) -> (n: usize)
        ensures
            n == self.entries@.len(),
    {
        self.entries.len()
    }

    /// Index of the first entry named `key`.
    pub fn position(&self, key: &str) -> (r: Option<usize>)
        ensures
            match r {
                Some(i) => i < self.entries@.len() && self.entries@[i as int].0@ == key@
                    && forall|j: int| 0 <= j < i ==> self.entries@[j].0@ != key@,
                None => forall|j: int|
                    0 <= j < self.entries@.len() ==> self.entries@[j].0@ != key@,
            },
    {
        let k = key.to_owned();
        let mut i: usize = 0;
        while i < self.entries.len()
            invariant
                i <= self.entries@.len(),
                k@ == key@,
                forall|j: int| 0 <= j < i ==> self.entries@[j].0@ != key@,
            decreases self.entries.len() - i,
        {
            if self.entries[i].0 == k {
                return Some(i);
            }
            i = i + 1;
        }
        None
    }

    /// Whether some entry is named `key`.
    pub fn contains_key(&self, key: &str) -> (b: bool)
        ensures
            b == exists|j: int| 0 <= j < self.entries@.len() && #[trigger] self.entries@[j].0@ == key@,
    {
        match self.position(key) {
            Some(i) => {
                assert(self.entries@[i as int].0@ == key@);
                true
            },
            None => false,
        }
    }

    /// The value of the first entry named `key`.
    pub fn get(&self, key: &str) -> (r: Option<&T>)
        ensures
            match r {
                Some(v) => exists|i: int|
                    0 <= i < self.entries@.len() && self.entries@[i].0@ == key@ && self.entries@[i].1
                        == *v && forall|j: int| 0 <= j < i ==> self.entries@[j].0@ != key@,
                None => forall|j: int|
                    0 <= j < self.entries@.len() ==> self.entries@[j].0@ != key@,
            },
    {
        match self.position(key) {
            Some(i) => Some(&self.entries[i].1),
            None => None,
        }
    }

    /// Inserts `value` under `key` at its sorted place; an entry with the same
    /// name is replaced and its old value returned.
    pub fn insert(&mut self, key: String, value: T) -> (replaced: Option<T>)
        ensures
            insert_post(old(self).entries@, final(self).entries@, key, value, replaced),
            old(self).wf() ==> final(self).wf(),
    {
        match self.position(key.as_str()) {
            Some(i) => {
                let ghost before = self.entries@;
                let old_entry = self.entries.remove(i);
                self.entries.insert(i, (key, value));
                proof {
                    assert(self.entries@ =~= before.update(i as int, self.entries@[i as int]));
                    if sorted_keys(entry_keys(before)) {
                        assert forall|a: int, b: int|
                            0 <= a < b < entry_keys(self.entries@).len() implies seq_lt(
                            #[trigger] entry_keys(self.entries@)[a],
                            #[trigger] entry_keys(self.entries@)[b],
                        ) by {
                            assert(entry_keys(before)[a] == entry_keys(self.entries@)[a]);
                            assert(entry_keys(before)[b] == entry_keys(self.entries@)[b]);
                        }
                    }
                }
                Some(old_entry.1)
            },
            None => {
                let mut p: usize = 0;
                while p < self.entries.len() && str_lt(self.entries[p].0.as_str(), key.as_str())
                    invariant
                        p <= self.entries@.len(),
                        self.entries@ == old(self).entries@,
                        forall|j: int| 0 <= j < p ==> seq_lt(self.entries@[j].0@, key@),
                    decreases self.entries.len() - p,
                {
                    p = p + 1;
                }
                let ghost before = self.entries@;
                proof {
                    if p < before.len() {
                        assert(!seq_lt(before[p as int].0@, key@));
                        assert(before[p as int].0@ != key@);
                        crate::text::lemma_seq_lt_total(before[p as int].0@, key@);
                    }
                }
                let ghost k = key@;
                self.entries.insert(p, (key, value));
                proof {
                    if sorted_keys(entry_keys(before)) {
                        assert forall|j: int| p <= j < before.len() implies seq_lt(
                            k,
                            before[j].0@,
                        ) by {
                            if j > p {
                                assert(seq_lt(entry_keys(before)[p as int], entry_keys(before)[j]));
                                crate::text::lemma_seq_lt_transitive(
                                    k,
                                    before[p as int].0@,
                                    before[j].0@,
                                );
                            }
                        }
                        assert forall|a: int, b: int|
                            0 <= a < b < entry_keys(self.entries@).len() implies seq_lt(
                            #[trigger] entry_keys(self.entries@)[a],
                            #[trigger] entry_keys(self.entries@)[b],
                        ) by {
                            if b < p {
                                assert(seq_lt(entry_keys(before)[a], entry_keys(before)[b]));
                            } else if b == p {
                            } else if a < p {
                                assert(seq_lt(entry_keys(before)[a], k));
                                assert(seq_lt(k, entry_keys(before)[b - 1]));
                                crate::text::lemma_seq_lt_transitive(
                                    entry_keys(before)[a],
                                    k,
                                    entry_keys(before)[b - 1],
                                );
                            } else if a == p {
                            } else {
                                assert(seq_lt(entry_keys(before)[a - 1], entry_keys(before)[b - 1]));
                            }
                        }
                    }
                }
                None
            },
        }
    }
}

} // verus!
