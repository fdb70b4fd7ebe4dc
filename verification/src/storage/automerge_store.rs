//! Documents by their keys, kept in memory.

use vstd::prelude::*;
use vstd::string::*;

use crate::text;
use crate::vec_map::{self, VecMap};

verus! {

/// A store of documents.
pub struct AutomergeStore {
    docs: VecMap<String, automerge::Automerge>,
}

impl View for AutomergeStore {
    type V = Map<Seq<char>, automerge::Automerge>;

    closed spec fn view(&self) -> Map<Seq<char>, automerge::Automerge> {
        self.docs@
    }
}

/// The keys of what a scan found.
pub open spec fn found_keys(found: Seq<(&String, &automerge::Automerge)>) -> Seq<Seq<char>> {
    found.map_values(|e: (&String, &automerge::Automerge)| e.0@)
}

/// Whether `keys` are the keys of a store that begin with a prefix, each once.
pub open spec fn is_scan<D>(docs: Map<Seq<char>, D>, prefix: Seq<char>, keys: Seq<Seq<char>>) -> bool {
    &&& keys.no_duplicates()
    &&& forall|k: Seq<char>| #[trigger] keys.contains(k) <==> docs.contains_key(k) && prefix.is_prefix_of(k)
}

/// The keys of a store that begin with a prefix.
pub open spec fn keys_with_prefix<D>(docs: Map<Seq<char>, D>, prefix: Seq<char>) -> Set<Seq<char>> {
    docs.dom().filter(|k: Seq<char>| prefix.is_prefix_of(k))
}

/// A scan has as many keys as begin with the prefix, and no others.
pub proof fn law_scan<D>(docs: Map<Seq<char>, D>, prefix: Seq<char>, keys: Seq<Seq<char>>)
    requires
        is_scan(docs, prefix, keys),
    ensures
        keys.to_set() == keys_with_prefix(docs, prefix),
        keys.len() == keys_with_prefix(docs, prefix).len(),
{
    keys.unique_seq_to_set();
    assert forall|k: Seq<char>| keys.to_set().contains(k) <==> keys_with_prefix(docs, prefix).contains(k) by {
        assert(keys.contains(k) <==> docs.contains_key(k) && prefix.is_prefix_of(k));
    }
    assert(keys.to_set() =~= keys_with_prefix(docs, prefix));
}

impl AutomergeStore {
    /// An empty store.
    pub fn in_memory() -> (r: AutomergeStore)
        ensures
            r@ == Map::<Seq<char>, automerge::Automerge>::empty(),
    {
        AutomergeStore { docs: VecMap::new() }
    }

    /// The document under a key.
    pub fn get(&self, key: &str) -> (r: Option<&automerge::Automerge>)
        ensures
            match r {
                Some(doc) => self@.contains_key(key@) && *doc == self@[key@],
                None => !self@.contains_key(key@),
            },
    {
        self.docs.get(&key.to_string())
    }

    /// Keep a document under a key.
    pub fn put(&mut self, key: &str, doc: automerge::Automerge)
        ensures
            final(self)@ == old(self)@.insert(key@, doc),
    {
        self.docs.insert(key.to_string(), doc);
    }

    /// Delete the document under a key.
    pub fn delete(&mut self, key: &str)
        ensures
            final(self)@ == old(self)@.remove(key@),
    {
        let _ = self.docs.remove(&key.to_string());
    }

    /// The documents whose keys begin with a prefix.
    pub fn scan_prefix(&self, prefix: &str) -> (r: Vec<(&String, &automerge::Automerge)>)
        ensures
            is_scan(self@, prefix@, found_keys(r@)),
            forall|i: int| 0 <= i < r@.len() ==> *(#[trigger] r@[i]).1 == self@[r@[i].0@],
    {
        let mut found: Vec<(&String, &automerge::Automerge)> = Vec::new();
        let len: usize = self.docs.len();
        let ghost items = self.docs.items();
        let mut i: usize = 0;
        while i < len
            invariant
                i <= len,
                len == items.len(),
                items == self.docs.items(),
                vec_map::keys_distinct(items),
                self@ == vec_map::entries_map(items),
                forall|n: int|
                    0 <= n < found@.len() ==> *(#[trigger] found@[n]).1 == self@[found@[n].0@] && self@.contains_key(
                        found@[n].0@,
                    ) && prefix@.is_prefix_of(found@[n].0@) && exists|p: int|
                        0 <= p < i && (#[trigger] items[p]).0@ == found@[n].0@,
                found_keys(found@).no_duplicates(),
                forall|p: int|
                    0 <= p < i && prefix@.is_prefix_of((#[trigger] items[p]).0@) ==> found_keys(found@).contains(
                        items[p].0@,
                    ),
            decreases len - i,
        {
            let entry = self.docs.item(i);
            let ghost before = found_keys(found@);
            if text::strip_prefix(entry.0.as_str(), prefix).is_some() {
                proof {
                    if before.contains(entry.0@) {
                        let n = choose|n: int| 0 <= n < before.len() && before[n] == entry.0@;
                        assert(found@[n].0@ == entry.0@);
                        let p = choose|p: int| 0 <= p < i && (#[trigger] items[p]).0@ == found@[n].0@;
                        assert(items[p].0@ != items[i as int].0@);
                    }
                }
                found.push((&entry.0, &entry.1));
                proof {
                    let after = found_keys(found@);
                    assert(after =~= before.push(entry.0@));
                    assert(after[before.len() as int] == entry.0@);
                    assert forall|k: Seq<char>| before.contains(k) implies after.contains(k) by {
                        let n = choose|n: int| 0 <= n < before.len() && before[n] == k;
                        assert(after[n] == k);
                    }
                    assert(items[i as int].0@ == entry.0@);
                }
            }
            i = i + 1;
        }
        proof {
            let keys = found_keys(found@);
            assert forall|k: Seq<char>| #[trigger] keys.contains(k) <==> self@.contains_key(k) && prefix@.is_prefix_of(k) by {
                if keys.contains(k) {
                    let n = choose|n: int| 0 <= n < keys.len() && keys[n] == k;
                    assert(found@[n].0@ == k);
                }
                if self@.contains_key(k) && prefix@.is_prefix_of(k) {
                    assert(vec_map::has_entry(items, k));
                    let p = choose|p: int| 0 <= p < items.len() && (#[trigger] items[p]).0@ == k;
                    assert(keys.contains(items[p].0@));
                }
            }
        }
        found
    }
}

} // verus!
