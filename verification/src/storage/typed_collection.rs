//! Collections of JSON documents in a store of documents.

use vstd::prelude::*;
use vstd::string::*;

use crate::json;
use crate::json::{Json, JsonView};
use crate::storage::automerge_store;
use crate::storage::automerge_store::AutomergeStore;
use crate::storage::documents;
use crate::storage::documents::{EntryView, ObjRef};
use crate::storage::json_convert;
use crate::storage::json_convert::{automerge_to_json, json_to_automerge};
use crate::text;

verus! {

/// A view of the documents of one collection.
///
/// The documents of a collection are kept under its name, a colon and their IDs.
pub struct TypedCollection {
    name: String,
    prefix: String,
}

/// What the keys of a collection begin with.
pub open spec fn collection_prefix(name: Seq<char>) -> Seq<char> {
    name.push(':')
}

/// The key of a document of a collection.
pub open spec fn document_key(name: Seq<char>, id: Seq<char>) -> Seq<char> {
    collection_prefix(name) + id
}

/// Whether JSON is what a document reads as.
pub open spec fn is_reading(doc: automerge::Automerge, j: JsonView) -> bool {
    j is Object && json_convert::reads_object(documents::doc_objects(doc), ObjRef::Root, j)
}

/// The keys of the documents with given IDs.
pub open spec fn document_keys_of(name: Seq<char>, found: Seq<(String, Json)>) -> Seq<Seq<char>> {
    found.map_values(|e: (String, Json)| document_key(name, e.0@))
}

/// The prefix of the keys of a collection.
pub fn key_prefix(name: &str) -> (r: String)
    ensures
        r@ == collection_prefix(name@),
{
    let mut prefix = name.to_string();
    text::push_text(&mut prefix, ":");
    proof {
        reveal_strlit(":");
        assert(name@ + ":"@ =~= name@.push(':'));
    }
    prefix
}

impl TypedCollection {
    #[verifier::type_invariant]
    spec fn wf(self) -> bool {
        self.prefix@ == collection_prefix(self.name@)
    }

    /// The name of the collection.
    pub closed spec fn collection(&self) -> Seq<char> {
        self.name@
    }

    /// Create a view of a collection.
    pub fn new(name: &str) -> (r: TypedCollection)
        ensures
            r.collection() == name@,
    {
        TypedCollection { name: name.to_string(), prefix: key_prefix(name) }
    }

    /// The key of the document with an ID.
    pub fn key(&self, id: &str) -> (r: String)
        ensures
            r@ == document_key(self.collection(), id@),
    {
        proof {
            use_type_invariant(self);
        }
        let mut key = self.prefix.clone();
        text::push_text(&mut key, id);
        key
    }

    /// The ID of the document with a key, where it belongs to the collection.
    ///
    /// Applied to the keys of changed documents, it gives the IDs of the documents of
    /// this collection that changed.
    pub fn id_of(&self, key: &str) -> (r: Option<String>)
        ensures
            match r {
                Some(id) => key@ == document_key(self.collection(), id@),
                None => !collection_prefix(self.collection()).is_prefix_of(key@),
            },
    {
        proof {
            use_type_invariant(self);
        }
        match text::strip_prefix(key, self.prefix.as_str()) {
            Some(id) => Some(id.to_string()),
            None => None,
        }
    }

    /// Insert or update a document.
    ///
    /// A document that is there already is forked (preserving CRDT history) before it is
    /// updated.
    pub fn upsert<F: Fn(u64) -> automerge::ScalarValue>(
        &self,
        store: &mut AutomergeStore,
        id: &str,
        doc: &Json,
        doubles: &F,
    ) -> (r: Result<(), String>)
        requires
            json_convert::is_writable(doc@, *doubles),
        ensures
            match doc@ {
                JsonView::Object(entries) => r is Ok && is_upsert(
                    old(store)@,
                    final(store)@,
                    document_key(self.collection(), id@),
                    entries,
                ),
                _ => r matches Err(e) && e@ == "Root value must be a JSON object"@ && final(store)@ == old(store)@,
            },
    {
        let key = self.key(id);
        let am_doc = json_to_automerge(doc, store.get(key.as_str()), doubles);
        match am_doc {
            Ok(am_doc) => {
                store.put(key.as_str(), am_doc);
                proof {
                    assert(is_put(old(store)@, store@, key@, am_doc));
                }
                Ok(())
            },
            Err(e) => Err(e),
        }
    }

    /// Get a document by ID as JSON.
    pub fn get_json(&self, store: &AutomergeStore, id: &str) -> (r: Option<Json>)
        ensures
            match r {
                Some(j) => store@.contains_key(document_key(self.collection(), id@)) && is_reading(
                    store@[document_key(self.collection(), id@)],
                    j@,
                ),
                None => !store@.contains_key(document_key(self.collection(), id@)),
            },
    {
        let key = self.key(id);
        match store.get(key.as_str()) {
            Some(am_doc) => Some(automerge_to_json(am_doc)),
            None => None,
        }
    }

    /// Delete a document by ID.
    pub fn delete(&self, store: &mut AutomergeStore, id: &str)
        ensures
            final(store)@ == old(store)@.remove(document_key(self.collection(), id@)),
    {
        let key = self.key(id);
        store.delete(key.as_str());
    }

    /// The documents of the collection as JSON, with their IDs.
    pub fn scan_json(&self, store: &AutomergeStore) -> (r: Vec<(String, Json)>)
        ensures
            automerge_store::is_scan(
                store@,
                collection_prefix(self.collection()),
                document_keys_of(self.collection(), r@),
            ),
            forall|i: int|
                0 <= i < r@.len() ==> is_reading(
                    store@[document_key(self.collection(), (#[trigger] r@[i]).0@)],
                    r@[i].1@,
                ),
    {
        proof {
            use_type_invariant(self);
        }
        let docs = store.scan_prefix(self.prefix.as_str());
        let ghost keys = automerge_store::found_keys(docs@);
        let mut results: Vec<(String, Json)> = Vec::new();
        let mut i: usize = 0;
        while i < docs.len()
            invariant
                i <= docs@.len(),
                keys == automerge_store::found_keys(docs@),
                self.prefix@ == collection_prefix(self.name@),
                automerge_store::is_scan(store@, self.prefix@, keys),
                forall|n: int| 0 <= n < docs@.len() ==> *(#[trigger] docs@[n]).1 == store@[docs@[n].0@],
                document_keys_of(self.name@, results@) == keys.take(i as int),
                forall|n: int|
                    0 <= n < results@.len() ==> is_reading(
                        store@[document_key(self.name@, (#[trigger] results@[n]).0@)],
                        results@[n].1@,
                    ),
            decreases docs@.len() - i,
        {
            let key: &str = docs[i].0.as_str();
            proof {
                assert(keys[i as int] == key@);
                assert(keys.contains(key@));
                assert(keys.take(i + 1) =~= keys.take(i as int).push(key@));
            }
            let ghost before = results@;
            if let Some(id) = text::strip_prefix(key, self.prefix.as_str()) {
                results.push((id.to_string(), automerge_to_json(docs[i].1)));
                proof {
                    assert(document_keys_of(self.name@, results@) =~= document_keys_of(self.name@, before).push(key@));
                }
            }
            i = i + 1;
        }
        assert(keys.take(keys.len() as int) =~= keys);
        results
    }

    /// The number of documents in the collection.
    pub fn count(&self, store: &AutomergeStore) -> (r: usize)
        ensures
            r == automerge_store::keys_with_prefix(store@, collection_prefix(self.collection())).len(),
    {
        proof {
            use_type_invariant(self);
        }
        let docs = store.scan_prefix(self.prefix.as_str());
        proof {
            let keys = automerge_store::found_keys(docs@);
            assert(keys.len() == docs@.len());
            automerge_store::law_scan(store@, collection_prefix(self.collection()), keys);
        }
        docs.len()
    }
}

/// A document reads as one JSON object only, whose keys are in order.
pub proof fn lemma_one_reading(doc: automerge::Automerge, a: JsonView, b: JsonView)
    requires
        is_reading(doc, a),
        is_reading(doc, b),
    ensures
        a == b,
        json::keys_sorted(a->Object_0),
{
    let objects = documents::doc_objects(doc);
    json_convert::law_reading_is_unique(objects, EntryView::Object(ObjRef::Root), a, b);
}

/// The JSON object that a document reads as.
pub open spec fn reading(doc: automerge::Automerge) -> JsonView {
    choose|j: JsonView| is_reading(doc, j)
}

/// What `automerge_to_json` gives is the JSON object that the document reads as.
pub proof fn lemma_reading(doc: automerge::Automerge, j: JsonView)
    requires
        is_reading(doc, j),
    ensures
        reading(doc) == j,
{
    lemma_one_reading(doc, reading(doc), j);
}

/// Whether a document is kept under a key, and nothing else changed.
pub open spec fn is_put(
    before: Map<Seq<char>, automerge::Automerge>,
    after: Map<Seq<char>, automerge::Automerge>,
    key: Seq<char>,
    doc: automerge::Automerge,
) -> bool {
    after == before.insert(key, doc)
}

/// The fields of the document under a key, where there is one.
pub open spec fn stored_fields(docs: Map<Seq<char>, automerge::Automerge>, key: Seq<char>) -> Map<Seq<char>, EntryView> {
    if docs.contains_key(key) {
        json_convert::earlier_fields(Some(&docs[key]))
    } else {
        Map::empty()
    }
}

/// The history of the document under a key, where there is one.
pub open spec fn stored_changes(docs: Map<Seq<char>, automerge::Automerge>, key: Seq<char>) -> Set<Seq<u8>> {
    if docs.contains_key(key) {
        documents::doc_changes(docs[key])
    } else {
        Set::empty()
    }
}

/// Whether a document with the entries of a JSON object is kept under a key, its history
/// goes on from that of the document that was there, and nothing else changed.
pub open spec fn is_upsert(
    before: Map<Seq<char>, automerge::Automerge>,
    after: Map<Seq<char>, automerge::Automerge>,
    key: Seq<char>,
    entries: Seq<(Seq<char>, JsonView)>,
) -> bool {
    exists|doc: automerge::Automerge| #[trigger]
        is_put(before, after, key, doc) && json_convert::root_holds(
            stored_fields(before, key),
            documents::doc_objects(doc),
            entries,
        ) && documents::goes_on_from(documents::doc_changes(doc), stored_changes(before, key))
}

/// An update keeps the history of a document: no change that the stored document had is
/// lost, and at most one is new.
pub proof fn law_upsert_keeps_history(
    before: Map<Seq<char>, automerge::Automerge>,
    after: Map<Seq<char>, automerge::Automerge>,
    key: Seq<char>,
    entries: Seq<(Seq<char>, JsonView)>,
)
    requires
        is_upsert(before, after, key, entries),
    ensures
        after.contains_key(key),
        before.contains_key(key) ==> documents::doc_changes(before[key]).subset_of(documents::doc_changes(after[key])),
        documents::goes_on_from(documents::doc_changes(after[key]), stored_changes(before, key)),
{
}

/// What `get_json` gives after an `upsert` is the JSON object that was upserted,
/// provided that a document keeps its numbers and left no value that merely counted as
/// the same.
pub proof fn law_upsert_then_get(
    before: Map<Seq<char>, automerge::Automerge>,
    after: Map<Seq<char>, automerge::Automerge>,
    key: Seq<char>,
    entries: Seq<(Seq<char>, JsonView)>,
    read: JsonView,
)
    requires
        is_upsert(before, after, key, entries),
        json_convert::is_proper(JsonView::Object(entries)),
        json_convert::is_kept(JsonView::Object(entries)),
        forall|i: int|
            #![trigger entries[i]]
            0 <= i < entries.len() && documents::stands_already(
                stored_fields(before, key),
                entries[i].0,
                json_convert::json_scalar(entries[i].1),
            ) ==> stored_fields(before, key)[entries[i].0] == EntryView::Scalar(json_convert::json_scalar(entries[i].1)),
    ensures
        is_reading(after[key], read) <==> read == JsonView::Object(entries),
{
    let doc = choose|doc: automerge::Automerge| #[trigger]
        is_put(before, after, key, doc) && json_convert::root_holds(
            stored_fields(before, key),
            documents::doc_objects(doc),
            entries,
        );
    json_convert::law_write_then_read(stored_fields(before, key), documents::doc_objects(doc), entries, read);
}

/// An upsert changes one document only.
pub proof fn law_upsert_keeps_others(
    before: Map<Seq<char>, automerge::Automerge>,
    after: Map<Seq<char>, automerge::Automerge>,
    key: Seq<char>,
    entries: Seq<(Seq<char>, JsonView)>,
    other: Seq<char>,
)
    requires
        is_upsert(before, after, key, entries),
        other != key,
    ensures
        after.contains_key(other) == before.contains_key(other),
        after.contains_key(other) ==> after[other] == before[other],
        after.contains_key(key),
{
}

/// No two documents share a key: neither in one collection, nor in collections whose
/// names hold no colon.
pub proof fn law_keys_are_distinct(a: Seq<char>, i: Seq<char>, b: Seq<char>, j: Seq<char>)
    requires
        !a.contains(':'),
        !b.contains(':'),
    ensures
        document_key(a, i) == document_key(b, j) <==> a == b && i == j,
        a != b ==> !collection_prefix(b).is_prefix_of(document_key(a, i)),
{
    let x = document_key(a, i);
    let y = collection_prefix(b);
    assert(x[a.len() as int] == ':');
    assert(y[b.len() as int] == ':');
    if y.is_prefix_of(x) {
        if a.len() < b.len() {
            assert(y[a.len() as int] == x[a.len() as int]);
            assert(b[a.len() as int] == ':');
        } else if b.len() < a.len() {
            assert(x[b.len() as int] == y[b.len() as int]);
            assert(a[b.len() as int] == ':');
        }
        assert forall|n: int| 0 <= n < a.len() implies a[n] == b[n] by {
            assert(x[n] == y[n]);
        }
        assert(a =~= b);
    }
    if document_key(a, i) == document_key(b, j) {
        assert(y.is_prefix_of(document_key(b, j)));
        assert(i =~= x.skip((a.len() + 1) as int));
        assert(j =~= x.skip((a.len() + 1) as int));
    }
}

} // verus!
