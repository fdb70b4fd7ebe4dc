//! Documents of a store for the document endpoints.

use vstd::prelude::*;
use vstd::string::*;

use crate::json;
use crate::json::{object_insert, Json, JsonView};
use crate::storage::automerge_store;
use crate::storage::automerge_store::AutomergeStore;
use crate::storage::json_convert::automerge_to_json;
use crate::storage::typed_collection;
use crate::storage::typed_collection::{key_prefix, TypedCollection};
use crate::text;

verus! {

/// Gives the documents of a store as JSON.
pub struct StoreBrokerAdapter<'a> {
    store: &'a AutomergeStore,
}

/// A JSON object with an ID in its field `_id`.
pub open spec fn with_id(j: JsonView, id: Seq<char>) -> JsonView {
    match j {
        JsonView::Object(entries) => JsonView::Object(json::inserted(entries, "_id"@, JsonView::Text(id))),
        _ => j,
    }
}

/// Whether JSON is what a document reads as, with its ID.
pub open spec fn is_document(doc: automerge::Automerge, id: Seq<char>, j: JsonView) -> bool {
    exists|read: JsonView| #[trigger] typed_collection::is_reading(doc, read) && j == with_id(read, id)
}

/// Whether `listed` are the documents of a collection, each once, with the IDs `ids`.
pub open spec fn lists_documents(
    docs: Map<Seq<char>, automerge::Automerge>,
    collection: Seq<char>,
    ids: Seq<Seq<char>>,
    listed: Seq<Json>,
) -> bool {
    &&& ids.len() == listed.len()
    &&& automerge_store::is_scan(docs, typed_collection::collection_prefix(collection), keys_of(collection, ids))
    &&& forall|i: int|
        0 <= i < listed.len() ==> is_document(
            docs[typed_collection::document_key(collection, ids[i])],
            ids[i],
            (#[trigger] listed[i])@,
        )
}

/// Whether `listed` are the documents of a collection, each once, in some order.
pub open spec fn is_listing(
    docs: Map<Seq<char>, automerge::Automerge>,
    collection: Seq<char>,
    listed: Seq<Json>,
) -> bool {
    exists|ids: Seq<Seq<char>>| #[trigger] lists_documents(docs, collection, ids, listed)
}

/// The keys of documents with given IDs.
pub open spec fn keys_of(collection: Seq<char>, ids: Seq<Seq<char>>) -> Seq<Seq<char>> {
    ids.map_values(|id: Seq<char>| typed_collection::document_key(collection, id))
}

/// Whether some document of a store belongs to a collection.
pub open spec fn has_documents(docs: Map<Seq<char>, automerge::Automerge>, collection: Seq<char>) -> bool {
    exists|k: Seq<char>| #[trigger]
        docs.contains_key(k) && typed_collection::collection_prefix(collection).is_prefix_of(k)
}

/// Puts an ID into the field `_id` of a JSON object.
fn inject_id(json: Json, id: &str) -> (r: Json)
    ensures
        r@ == with_id(json@, id@),
{
    match json {
        Json::Object(map) => {
            let mut map = map;
            object_insert(&mut map, "_id".to_string(), Json::Text(id.to_string()));
            Json::Object(map)
        },
        other => other,
    }
}

impl<'a> StoreBrokerAdapter<'a> {
    /// The documents that are given.
    pub closed spec fn docs(&self) -> Map<Seq<char>, automerge::Automerge> {
        self.store@
    }

    /// Create an adapter for a store.
    pub fn new(store: &'a AutomergeStore) -> (r: StoreBrokerAdapter<'a>)
        ensures
            r.docs() == store@,
    {
        StoreBrokerAdapter { store }
    }

    /// The documents of a collection as JSON, with their IDs.
    ///
    /// Returns `None` where the collection has no documents.
    pub fn list_documents(&self, collection: &str) -> (r: Option<Vec<Json>>)
        ensures
            match r {
                Some(listed) => has_documents(self.docs(), collection@) && is_listing(
                    self.docs(),
                    collection@,
                    listed@,
                ),
                None => !has_documents(self.docs(), collection@),
            },
    {
        let prefix = key_prefix(collection);
        let docs = self.store.scan_prefix(prefix.as_str());
        let ghost keys = automerge_store::found_keys(docs@);
        assert(keys.len() == docs@.len());
        if docs.len() == 0 {
            proof {
                assert forall|k: Seq<char>| #[trigger]
                    self.docs().contains_key(k) && typed_collection::collection_prefix(collection@).is_prefix_of(k) implies false by {
                    assert(keys.contains(k));
                }
            }
            return None;
        }
        assert(keys.contains(keys[0]));
        assert(has_documents(self.docs(), collection@));
        let ghost mut ids: Seq<Seq<char>> = Seq::empty();
        let mut results: Vec<Json> = Vec::new();
        let mut i: usize = 0;
        while i < docs.len()
            invariant
                i <= docs@.len(),
                keys == automerge_store::found_keys(docs@),
                prefix@ == typed_collection::collection_prefix(collection@),
                automerge_store::is_scan(self.docs(), prefix@, keys),
                forall|n: int| 0 <= n < docs@.len() ==> *(#[trigger] docs@[n]).1 == self.docs()[docs@[n].0@],
                ids.len() == results@.len(),
                keys_of(collection@, ids) == keys.take(i as int),
                forall|n: int|
                    0 <= n < results@.len() ==> is_document(
                        self.docs()[typed_collection::document_key(collection@, ids[n])],
                        ids[n],
                        (#[trigger] results@[n])@,
                    ),
            decreases docs@.len() - i,
        {
            let key: &str = docs[i].0.as_str();
            proof {
                assert(keys[i as int] == key@);
                assert(keys.contains(key@));
                assert(keys.take(i + 1) =~= keys.take(i as int).push(key@));
            }
            if let Some(id) = text::strip_prefix(key, prefix.as_str()) {
                let json = automerge_to_json(docs[i].1);
                assert(typed_collection::is_reading(self.docs()[key@], json@));
                results.push(inject_id(json, id));
                proof {
                    assert(keys_of(collection@, ids.push(id@)) =~= keys_of(collection@, ids).push(key@));
                    ids = ids.push(id@);
                }
            }
            i = i + 1;
        }
        proof {
            assert(keys.take(keys.len() as int) =~= keys);
            assert(lists_documents(self.docs(), collection@, ids, results@));
            assert(is_listing(self.docs(), collection@, results@));
        }
        Some(results)
    }

    /// A document of a collection as JSON, with its ID.
    pub fn get_document(&self, collection: &str, id: &str) -> (r: Option<Json>)
        ensures
            match r {
                Some(j) => self.docs().contains_key(typed_collection::document_key(collection@, id@)) && is_document(
                    self.docs()[typed_collection::document_key(collection@, id@)],
                    id@,
                    j@,
                ),
                None => !self.docs().contains_key(typed_collection::document_key(collection@, id@)),
            },
    {
        let found = TypedCollection::new(collection).get_json(self.store, id);
        match found {
            Some(json) => {
                assert(typed_collection::is_reading(
                    self.docs()[typed_collection::document_key(collection@, id@)],
                    json@,
                ));
                Some(inject_id(json, id))
            },
            None => None,
        }
    }
}

/// A document that is given has its ID in the field `_id`, and in every other field
/// what the document has there.
pub proof fn law_document_has_id(doc: automerge::Automerge, id: Seq<char>, j: JsonView, read: JsonView, key: Seq<char>)
    requires
        is_document(doc, id, j),
        typed_collection::is_reading(doc, read),
    ensures
        read is Object,
        j matches JsonView::Object(entries) && json::lookup(entries, "_id"@) == Some(JsonView::Text(id)) && (key != "_id"@
            ==> json::lookup(entries, key) == json::lookup(read->Object_0, key)),
{
    let found = choose|found: JsonView| #[trigger] typed_collection::is_reading(doc, found) && j == with_id(found, id);
    typed_collection::lemma_one_reading(doc, found, read);
    json::law_insert_then_lookup(read->Object_0, "_id"@, JsonView::Text(id), key);
    json::law_insert_then_lookup(read->Object_0, "_id"@, JsonView::Text(id), "_id"@);
}

/// A listing holds every document of its collection once and nothing else, each under its
/// own ID; there is something to list exactly if some document belongs to the collection.
pub proof fn law_listing(
    docs: Map<Seq<char>, automerge::Automerge>,
    collection: Seq<char>,
    ids: Seq<Seq<char>>,
    listed: Seq<Json>,
    id: Seq<char>,
    i: int,
)
    requires
        lists_documents(docs, collection, ids, listed),
    ensures
        ids.len() == listed.len(),
        ids.no_duplicates(),
        ids.contains(id) <==> docs.contains_key(typed_collection::document_key(collection, id)),
        0 <= i < listed.len() ==> is_document(
            docs[typed_collection::document_key(collection, ids[i])],
            ids[i],
            listed[i]@,
        ),
        has_documents(docs, collection) <==> listed.len() > 0,
{
    let keys = keys_of(collection, ids);
    let prefix = typed_collection::collection_prefix(collection);
    let key = typed_collection::document_key(collection, id);
    assert(prefix.is_prefix_of(key)) by {
        assert(key.subrange(0, prefix.len() as int) =~= prefix);
    }
    assert(key.skip(prefix.len() as int) =~= id);
    assert forall|a: int, b: int| 0 <= a < ids.len() && 0 <= b < ids.len() && a != b implies ids[a] != ids[b] by {
        assert(keys[a] != keys[b]);
    }
    if ids.contains(id) {
        let a = choose|a: int| 0 <= a < ids.len() && ids[a] == id;
        assert(keys[a] == key);
        assert(keys.contains(key));
    }
    if docs.contains_key(key) {
        assert(keys.contains(key));
        let a = choose|a: int| 0 <= a < keys.len() && keys[a] == key;
        let other = typed_collection::document_key(collection, ids[a]);
        assert(other.skip(prefix.len() as int) =~= ids[a]);
        assert(ids[a] == id);
    }
    if has_documents(docs, collection) {
        let k = choose|k: Seq<char>| #[trigger] docs.contains_key(k) && prefix.is_prefix_of(k);
        assert(keys.contains(k));
    }
    if listed.len() > 0 {
        assert(keys.contains(keys[0]));
        assert(docs.contains_key(keys[0]));
    }
}

} // verus!
