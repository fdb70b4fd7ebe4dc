//! A map kept as a list of entries in order of insertion.

use vstd::prelude::*;

use crate::bytes::bytes_eq;

verus! {

/// A key that can be compared with another by what it stands for.
pub trait MapKey: View + Sized {
    fn same_key(&self, other: &Self) -> (r: bool)
        ensures
            r == (self@ == other@),
    ;
}

impl MapKey for String {
    fn same_key(&self, other: &Self) -> (r: bool) {
        *self == *other
    }
}

impl MapKey for [u8; 32] {
    fn same_key(&self, other: &Self) -> (r: bool) {
        bytes_eq(self.as_slice(), other.as_slice())
    }
}

impl MapKey for Vec<u8> {
    fn same_key(&self, other: &Self) -> (r: bool) {
        bytes_eq(self.as_slice(), other.as_slice())
    }
}

/// A map from `K` to `T`; no key occurs twice.
pub struct VecMap<K: MapKey, T> {
    entries: Vec<(K, T)>,
}

/// The keys of a list of entries, in its order.
pub open spec fn entry_keys<K: MapKey, T>(entries: Seq<(K, T)>) -> Seq<<K as View>::V> {
    entries.map_values(|e: (K, T)| e.0@)
}

/// Where the entry with key `k` stands.
pub open spec fn entry_index<K: MapKey, T>(entries: Seq<(K, T)>, k: <K as View>::V) -> int {
    choose|i: int| 0 <= i < entries.len() && (#[trigger] entries[i]).0@ == k
}

pub open spec fn has_entry<K: MapKey, T>(entries: Seq<(K, T)>, k: <K as View>::V) -> bool {
    exists|i: int| 0 <= i < entries.len() && (#[trigger] entries[i]).0@ == k
}

pub open spec fn keys_distinct<K: MapKey, T>(entries: Seq<(K, T)>) -> bool {
    forall|i: int, j: int|
        0 <= i < j < entries.len() ==> (#[trigger] entries[i]).0@ != (#[trigger] entries[j]).0@
}

/// The map that a list of entries stands for.
pub open spec fn entries_map<K: MapKey, T>(entries: Seq<(K, T)>) -> Map<<K as View>::V, T> {
    Map::new(|k: <K as View>::V| has_entry(entries, k), |k: <K as View>::V| entries[entry_index(entries, k)].1)
}

pub proof fn lemma_entry_at<K: MapKey, T>(entries: Seq<(K, T)>, i: int)
    requires
        keys_distinct(entries),
        0 <= i < entries.len(),
    ensures
        has_entry(entries, entries[i].0@),
        entry_index(entries, entries[i].0@) == i,
        entries_map(entries).contains_key(entries[i].0@),
        entries_map(entries)[entries[i].0@] == entries[i].1,
{
    let k = entries[i].0@;
    assert(has_entry(entries, k));
    let j = entry_index(entries, k);
    assert(0 <= j < entries.len() && entries[j].0@ == k);
    if j < i {
        assert(entries[j].0@ != entries[i].0@);
    } else if i < j {
        assert(entries[i].0@ != entries[j].0@);
    }
}

impl<K: MapKey, T> View for VecMap<K, T> {
    type V = Map<<K as View>::V, T>;

    closed spec fn view(&self) -> Map<<K as View>::V, T> {
        entries_map(self.entries@)
    }
}

impl<K: MapKey, T> VecMap<K, T> {
    #[verifier::type_invariant]
    spec fn wf(self) -> bool {
        keys_distinct(self.entries@)
    }

    /// The entries in order of insertion.
    pub closed spec fn items(&self) -> Seq<(K, T)> {
        self.entries@
    }

    /// The empty map.
    pub fn new() -> (r: Self)
        ensures
            r@ == Map::<<K as View>::V, T>::empty(),
            r.items().len() == 0,
    {
        let r = VecMap { entries: Vec::new() };
        assert(r@ =~= Map::<<K as View>::V, T>::empty());
        r
    }

    /// The number of entries.
    pub fn len(&self) -> (n: usize)
        ensures
            n == self@.dom().len(),
            n == self.items().len(),
            self@.dom().finite(),
            keys_distinct(self.items()),
            self@ == entries_map(self.items()),
    {
        proof {
            use_type_invariant(self);
            lemma_len(self.entries@);
        }
        self.entries.len()
    }

    /// The entry at position `i` of the list.
    pub fn item(&self, i: usize) -> (e: &(K, T))
        requires
            i < self.items().len(),
        ensures
            *e == self.items()[i as int],
            self@.contains_key(e.0@),
            self@[e.0@] == e.1,
    {
        proof {
            use_type_invariant(self);
            lemma_entry_at(self.entries@, i as int);
        }
        &self.entries[i]
    }

    fn find(&self, key: &K) -> (r: Option<usize>)
        ensures
            match r {
                Some(i) => i < self.entries@.len() && self.entries@[i as int].0@ == key@
                    && self@.contains_key(key@) && self@[key@] == self.entries@[i as int].1,
                None => !self@.contains_key(key@),
            },
    {
        proof {
            use_type_invariant(self);
        }
        let mut i: usize = 0;
        while i < self.entries.len()
            invariant
                i <= self.entries@.len(),
                keys_distinct(self.entries@),
                forall|j: int| 0 <= j < i ==> (#[trigger] self.entries@[j]).0@ != key@,
            decreases self.entries@.len() - i,
        {
            if self.entries[i].0.same_key(key) {
                proof {
                    lemma_entry_at(self.entries@, i as int);
                }
                return Some(i);
            }
            i = i + 1;
        }
        None
    }

    /// The value kept under `key`.
    pub fn get(&self, key: &K) -> (r: Option<&T>)
        ensures
            match r {
                Some(v) => self@.contains_key(key@) && *v == self@[key@],
                None => !self@.contains_key(key@),
            },
    {
        match self.find(key) {
            Some(i) => Some(&self.entries[i].1),
            None => None,
        }
    }

    /// Whether anything is kept under `key`.
    pub fn contains_key(&self, key: &K) -> (r: bool)
        ensures
            r == self@.contains_key(key@),
    {
        self.find(key).is_some()
    }

    /// Keeps `value` under `key`, in place of what was there before.
    pub fn insert(&mut self, key: K, value: T)
        ensures
            final(self)@ == old(self)@.insert(key@, value),
            !old(self)@.contains_key(key@) ==> final(self).items() == old(self).items().push((key, value)),
    {
        proof {
            use_type_invariant(&*self);
        }
        let found = self.find(&key);
        let ghost before = self.entries@;
        let mut entries: Vec<(K, T)> = Vec::new();
        std::mem::swap(&mut entries, &mut self.entries);
        match found {
            Some(i) => {
                entries[i] = (key, value);
                proof {
                    lemma_replaced(before, entries@, i as int, key, value);
                }
            },
            None => {
                entries.push((key, value));
                proof {
                    lemma_pushed(before, entries@, key, value);
                }
            },
        }
        self.entries = entries;
        assert(self@ == entries_map(self.entries@));
    }

    /// Takes away what is kept under `key`.
    pub fn remove(&mut self, key: &K) -> (r: Option<T>)
        ensures
            final(self)@ == old(self)@.remove(key@),
            final(self).items() == (if old(self)@.contains_key(key@) {
                old(self).items().remove(entry_index(old(self).items(), key@))
            } else {
                old(self).items()
            }),
            match r {
                Some(v) => old(self)@.contains_key(key@) && v == old(self)@[key@],
                None => !old(self)@.contains_key(key@),
            },
    {
        proof {
            use_type_invariant(&*self);
        }
        let found = self.find(key);
        let ghost before = self.entries@;
        match found {
            Some(i) => {
                let mut entries: Vec<(K, T)> = Vec::new();
                std::mem::swap(&mut entries, &mut self.entries);
                let gone = entries.remove(i);
                proof {
                    lemma_entry_at(before, i as int);
                    lemma_removed(before, entries@, i as int);
                }
                self.entries = entries;
                assert(self@ == entries_map(self.entries@));
                Some(gone.1)
            },
            None => {
                assert(self@.remove(key@) =~= self@);
                None
            },
        }
    }
}

proof fn lemma_len<K: MapKey, T>(entries: Seq<(K, T)>)
    requires
        keys_distinct(entries),
    ensures
        entries_map(entries).dom().len() == entries.len(),
        entries_map(entries).dom().finite(),
{
    let keys = entry_keys(entries);
    assert(keys.no_duplicates()) by {
        assert forall|i: int, j: int| 0 <= i < keys.len() && 0 <= j < keys.len() && i != j implies keys[i]
            != keys[j] by {
            if i < j {
                assert(entries[i].0@ != entries[j].0@);
            } else {
                assert(entries[j].0@ != entries[i].0@);
            }
        }
    }
    keys.unique_seq_to_set();
    assert(entries_map(entries).dom() =~= keys.to_set()) by {
        assert forall|k: <K as View>::V| keys.to_set().contains(k) implies entries_map(entries).dom().contains(k) by {
            let i = choose|i: int| 0 <= i < keys.len() && keys[i] == k;
            assert(entries[i].0@ == k);
        }
        assert forall|k: <K as View>::V| entries_map(entries).dom().contains(k) implies keys.to_set().contains(k) by {
            let i = entry_index(entries, k);
            assert(keys[i] == k);
        }
    }
}

proof fn lemma_replaced<K: MapKey, T>(before: Seq<(K, T)>, after: Seq<(K, T)>, i: int, key: K, value: T)
    requires
        keys_distinct(before),
        0 <= i < before.len(),
        before[i].0@ == key@,
        after == before.update(i, (key, value)),
    ensures
        keys_distinct(after),
        entries_map(after) == entries_map(before).insert(key@, value),
{
    assert forall|a: int, b: int| 0 <= a < b < after.len() implies (#[trigger] after[a]).0@ != (
    #[trigger] after[b]).0@ by {
        assert(before[a].0@ != before[b].0@);
    }
    let m = entries_map(before).insert(key@, value);
    assert forall|k: <K as View>::V| #[trigger] entries_map(after).contains_key(k) == m.contains_key(k) by {
        if has_entry(after, k) {
            let j = entry_index(after, k);
            assert(before[j].0@ == k);
        }
        if has_entry(before, k) {
            let j = entry_index(before, k);
            assert(after[j].0@ == k);
        }
        assert(after[i].0@ == key@);
    }
    assert forall|k: <K as View>::V| entries_map(after).contains_key(k) implies #[trigger] entries_map(after)[k] == m[k] by {
        let j = entry_index(after, k);
        lemma_entry_at(after, j);
        lemma_entry_at(after, i);
        lemma_entry_at(before, j);
    }
    assert(entries_map(after) =~= m);
}

proof fn lemma_pushed<K: MapKey, T>(before: Seq<(K, T)>, after: Seq<(K, T)>, key: K, value: T)
    requires
        keys_distinct(before),
        !has_entry(before, key@),
        after == before.push((key, value)),
    ensures
        keys_distinct(after),
        entries_map(after) == entries_map(before).insert(key@, value),
{
    let n = before.len() as int;
    assert forall|a: int, b: int| 0 <= a < b < after.len() implies (#[trigger] after[a]).0@ != (
    #[trigger] after[b]).0@ by {
        assert(after[a] == before[a]);
        if b < n {
            assert(before[a].0@ != before[b].0@);
        } else {
            assert(before[a].0@ != key@);
        }
    }
    let m = entries_map(before).insert(key@, value);
    assert forall|k: <K as View>::V| #[trigger] entries_map(after).contains_key(k) == m.contains_key(k) by {
        if has_entry(after, k) {
            let j = entry_index(after, k);
            if j < n {
                assert(before[j].0@ == k);
            }
        }
        if has_entry(before, k) {
            let j = entry_index(before, k);
            assert(after[j].0@ == k);
        }
        assert(after[n].0@ == key@);
    }
    assert forall|k: <K as View>::V| entries_map(after).contains_key(k) implies #[trigger] entries_map(after)[k] == m[k] by {
        let j = entry_index(after, k);
        lemma_entry_at(after, j);
        lemma_entry_at(after, n);
        if j < n {
            lemma_entry_at(before, j);
        }
    }
    assert(entries_map(after) =~= m);
}

proof fn lemma_removed<K: MapKey, T>(before: Seq<(K, T)>, after: Seq<(K, T)>, i: int)
    requires
        keys_distinct(before),
        0 <= i < before.len(),
        after == before.remove(i),
    ensures
        keys_distinct(after),
        entries_map(after) == entries_map(before).remove(before[i].0@),
{
    let key = before[i].0@;
    assert forall|a: int| 0 <= a < after.len() implies after[a] == before[if a < i { a } else { a + 1 }] by {}
    assert forall|a: int, b: int| 0 <= a < b < after.len() implies (#[trigger] after[a]).0@ != (
    #[trigger] after[b]).0@ by {
        let a2 = if a < i { a } else { a + 1 };
        let b2 = if b < i { b } else { b + 1 };
        assert(before[a2].0@ != before[b2].0@);
    }
    let m = entries_map(before).remove(key);
    assert forall|k: <K as View>::V| #[trigger] entries_map(after).contains_key(k) == m.contains_key(k) by {
        if has_entry(after, k) {
            let j = entry_index(after, k);
            let j2 = if j < i { j } else { j + 1 };
            assert(before[j2].0@ == k);
            if k == key {
                if j2 < i {
                    assert(before[j2].0@ != before[i].0@);
                } else {
                    assert(before[i].0@ != before[j2].0@);
                }
            }
        }
        if has_entry(before, k) && k != key {
            let j = entry_index(before, k);
            let j2 = if j < i { j } else { j - 1 };
            assert(after[j2].0@ == k);
        }
    }
    assert forall|k: <K as View>::V| entries_map(after).contains_key(k) implies #[trigger] entries_map(after)[k] == m[k] by {
        let j = entry_index(after, k);
        let j2 = if j < i { j } else { j + 1 };
        lemma_entry_at(after, j);
        lemma_entry_at(before, j2);
    }
    assert(entries_map(after) =~= m);
}

/// A map with its values taken by their views.
pub open spec fn values_view<Q, T: View>(m: Map<Q, T>) -> Map<Q, <T as View>::V> {
    m.map_values(|t: T| t@)
}

/// Whether `out` holds the values under `keys`, which are the keys of the wanted
/// values, each once.
pub open spec fn lists<Q, W>(m: Map<Q, W>, wanted: spec_fn(W) -> bool, keys: Seq<Q>, out: Seq<W>) -> bool {
    &&& keys.len() == out.len()
    &&& keys.no_duplicates()
    &&& forall|i: int| 0 <= i < keys.len() ==> m.contains_key(#[trigger] keys[i]) && out[i] == m[keys[i]] && wanted(out[i])
    &&& forall|k: Q| #[trigger] m.contains_key(k) && wanted(m[k]) ==> keys.contains(k)
}

/// Whether `out` holds the wanted values of a map, one for each key, in some order.
pub open spec fn selects<Q, W>(m: Map<Q, W>, wanted: spec_fn(W) -> bool, out: Seq<W>) -> bool {
    exists|keys: Seq<Q>| #[trigger] lists(m, wanted, keys, out)
}

/// The values at chosen positions of a list of entries are the wanted ones of its
/// map.
pub proof fn lemma_selects<K: MapKey, T: View>(
    entries: Seq<(K, T)>,
    at: Seq<int>,
    wanted: spec_fn(<T as View>::V) -> bool,
    out: Seq<<T as View>::V>,
)
    requires
        keys_distinct(entries),
        at.len() == out.len(),
        forall|i: int|
            0 <= i < at.len() ==> 0 <= #[trigger] at[i] < entries.len() && out[i] == entries[at[i]].1@ && wanted(out[i]),
        forall|i: int, j: int| 0 <= i < j < at.len() ==> #[trigger] at[i] < #[trigger] at[j],
        forall|p: int| 0 <= p < entries.len() && wanted((#[trigger] entries[p]).1@) ==> at.contains(p),
    ensures
        selects(values_view(entries_map(entries)), wanted, out),
{
    let m = values_view(entries_map(entries));
    let keys = at.map_values(|p: int| entries[p].0@);
    assert forall|i: int, j: int| 0 <= i < keys.len() && 0 <= j < keys.len() && i != j implies keys[i] != keys[j] by {
        if i < j {
            assert(at[i] < at[j]);
            assert(entries[at[i]].0@ != entries[at[j]].0@);
        } else {
            assert(at[j] < at[i]);
            assert(entries[at[j]].0@ != entries[at[i]].0@);
        }
    }
    assert forall|i: int| 0 <= i < keys.len() implies m.contains_key(#[trigger] keys[i]) && out[i] == m[keys[i]] && wanted(
        out[i],
    ) by {
        lemma_entry_at(entries, at[i]);
    }
    assert forall|k: <K as View>::V| #[trigger] m.contains_key(k) && wanted(m[k]) implies keys.contains(k) by {
        let p = entry_index(entries, k);
        assert(has_entry(entries, k));
        assert(entries[p].0@ == k);
        let i = choose|i: int| 0 <= i < at.len() && at[i] == p;
        assert(keys[i] == k);
    }
    assert(lists(m, wanted, keys, out));
}

} // verus!
