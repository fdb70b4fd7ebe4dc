//! A store of documents in memory.
//!
//! The store says who is to be told of a change; telling them is the caller's.

use vstd::prelude::*;
use vstd::string::*;

use crate::clock::now_ms;
use crate::json;
use crate::json::{Json, JsonView};
use crate::security::error::{joined, joined3};
use crate::sync::query;
use crate::sync::query::{GeoPoint, Query};
use crate::sync::types;
use crate::sync::types::{
    BackendConfig, BackendInfo, ChangeEvent, ChangeView, DeleteResult, DeleteView, DeletionPolicy,
    Document, DocumentView, PeerInfo, PeerInfoView, Tombstone, TombstoneView, TransportType,
};
use crate::text;
use crate::text::text_eq;
use crate::vec_map;
use crate::vec_map::VecMap;

pub use crate::sync::query::{compare_values, evaluate_query};

verus! {

/// Who watches which collection.
struct Observer {
    collection: String,
    query: Query,
}

/// An event and the observers that are to get it, by the numbers that
/// [`InMemoryBackend::observe`] gave them.
pub struct Notice {
    pub observers: Vec<usize>,
    pub event: ChangeEvent,
}

/// A [`Notice`] in terms of sequences.
#[verifier::ext_equal]
pub struct NoticeView {
    pub observers: Seq<usize>,
    pub event: ChangeView,
}

impl View for Notice {
    type V = NoticeView;

    open spec fn view(&self) -> NoticeView {
        NoticeView { observers: self.observers@, event: self.event@ }
    }
}

/// An optional notice by its view.
pub open spec fn notice_view(n: Option<Notice>) -> Option<NoticeView> {
    match n {
        Some(n) => Some(n@),
        None => None,
    }
}

/// A store of documents that keeps everything in memory.
pub struct InMemoryBackend {
    collections: VecMap<String, VecMap<String, Document>>,
    peers: VecMap<String, PeerInfo>,
    observers: Vec<Observer>,
    tombstones: VecMap<String, Tombstone>,
    config: Option<BackendConfig>,
    syncing: bool,
    subscriptions: Vec<String>,
    initialized: bool,
    deletion_policies: VecMap<String, DeletionPolicy>,
}

/// An [`InMemoryBackend`] in terms of sequences and maps.
#[verifier::ext_equal]
pub struct BackendView {
    /// Documents by collection and ID.
    pub collections: Map<Seq<char>, Map<Seq<char>, DocumentView>>,
    pub peers: Map<Seq<char>, PeerInfoView>,
    /// The collection that each observer watches.
    pub observers: Seq<Seq<char>>,
    pub tombstones: Map<Seq<char>, TombstoneView>,
    pub config: Option<BackendConfig>,
    pub syncing: bool,
    pub subscriptions: Seq<Seq<char>>,
    pub initialized: bool,
    pub policies: Map<Seq<char>, DeletionPolicy>,
}

spec fn collections_view(m: Map<Seq<char>, VecMap<String, Document>>) -> Map<Seq<char>, Map<Seq<char>, DocumentView>> {
    m.map_values(|c: VecMap<String, Document>| vec_map::values_view(c@))
}

spec fn observers_view(observers: Seq<Observer>) -> Seq<Seq<char>> {
    observers.map_values(|o: Observer| o.collection@)
}

impl View for InMemoryBackend {
    type V = BackendView;

    closed spec fn view(&self) -> BackendView {
        BackendView {
            collections: collections_view(self.collections@),
            peers: vec_map::values_view(self.peers@),
            observers: observers_view(self.observers@),
            tombstones: vec_map::values_view(self.tombstones@),
            config: self.config,
            syncing: self.syncing,
            subscriptions: text::texts(self.subscriptions@),
            initialized: self.initialized,
            policies: self.deletion_policies@,
        }
    }
}

/// A backend that holds nothing.
pub open spec fn empty_backend(initialized: bool) -> BackendView {
    BackendView {
        collections: Map::empty(),
        peers: Map::empty(),
        observers: Seq::empty(),
        tombstones: Map::empty(),
        config: None,
        syncing: false,
        subscriptions: Seq::empty(),
        initialized,
        policies: Map::empty(),
    }
}

/// The numbers of those observers that watch a collection, in order.
pub open spec fn watching(observers: Seq<Seq<char>>, collection: Seq<char>) -> Seq<usize>
    decreases observers.len(),
{
    if observers.len() == 0 {
        Seq::empty()
    } else {
        let before = watching(observers.drop_last(), collection);
        if observers.last() == collection {
            before.push((observers.len() - 1) as usize)
        } else {
            before
        }
    }
}

/// The number of documents in all collections.
pub open spec fn total_documents(collections: Map<Seq<char>, Map<Seq<char>, DocumentView>>) -> nat
    decreases collections.dom().len(),
    when collections.dom().finite()
{
    if collections.dom().len() == 0 {
        0
    } else {
        let c = collections.dom().choose();
        collections[c].dom().len() + total_documents(collections.remove(c))
    }
}

proof fn lemma_total_without(collections: Map<Seq<char>, Map<Seq<char>, DocumentView>>, c: Seq<char>)
    requires
        collections.dom().finite(),
        collections.contains_key(c),
    ensures
        total_documents(collections) == collections[c].dom().len() + total_documents(collections.remove(c)),
    decreases collections.dom().len(),
{
    let d = collections.dom().choose();
    assert(collections.dom().contains(c));
    assert(collections.dom().len() > 0) by {
        if collections.dom().len() == 0 {
            assert(collections.dom() =~= Set::empty());
        }
    }
    if d != c {
        assert(collections.dom().contains(d));
        let without_d = collections.remove(d);
        let without_c = collections.remove(c);
        lemma_total_without(without_d, c);
        lemma_total_without(without_c, d);
        assert(without_d.remove(c) =~= without_c.remove(d));
    }
}

/// The name under which a tombstone is kept.
pub open spec fn tombstone_key(collection: Seq<char>, doc_id: Seq<char>) -> Seq<char> {
    collection + ":"@ + doc_id
}

impl BackendView {
    /// The documents of a collection.
    pub open spec fn docs(self, collection: Seq<char>) -> Map<Seq<char>, DocumentView> {
        if self.collections.contains_key(collection) {
            self.collections[collection]
        } else {
            Map::empty()
        }
    }

    /// A document.
    pub open spec fn doc(self, collection: Seq<char>, id: Seq<char>) -> Option<DocumentView> {
        if self.docs(collection).contains_key(id) {
            Some(self.docs(collection)[id])
        } else {
            None
        }
    }

    /// The store with a document in place of what was there under its ID.
    pub open spec fn with_doc(self, collection: Seq<char>, id: Seq<char>, doc: DocumentView) -> BackendView {
        BackendView {
            collections: self.collections.insert(collection, self.docs(collection).insert(id, doc)),
            ..self
        }
    }

    /// The store without a document.
    pub open spec fn without_doc(self, collection: Seq<char>, id: Seq<char>) -> BackendView {
        if self.collections.contains_key(collection) {
            BackendView {
                collections: self.collections.insert(collection, self.collections[collection].remove(id)),
                ..self
            }
        } else {
            self
        }
    }

    /// The store with a tombstone.
    pub open spec fn with_tombstone(self, t: TombstoneView) -> BackendView {
        BackendView { tombstones: self.tombstones.insert(tombstone_key(t.collection, t.document_id), t), ..self }
    }

    /// The notice of an event in a collection.
    pub open spec fn notice(self, collection: Seq<char>, event: ChangeView) -> NoticeView {
        NoticeView { observers: watching(self.observers, collection), event }
    }

    /// The notice that a document went away; there is none where it was not there.
    pub open spec fn removal_notice(self, collection: Seq<char>, id: Seq<char>) -> Option<NoticeView> {
        if self.doc(collection, id) is Some {
            Some(self.notice(collection, ChangeView::Removed { collection, doc_id: id }))
        } else {
            None
        }
    }

    /// What deleting a document of a collection does.
    pub open spec fn policy(self, collection: Seq<char>) -> DeletionPolicy {
        if self.policies.contains_key(collection) {
            self.policies[collection]
        } else {
            DeletionPolicy::SoftDelete
        }
    }

    /// The store once a document was deleted, by the collection's policy.
    pub open spec fn after_delete(
        self,
        collection: Seq<char>,
        id: Seq<char>,
        reason: Option<Seq<char>>,
        now_ms: u64,
    ) -> BackendView {
        match self.policy(collection) {
            DeletionPolicy::SoftDelete => match self.doc(collection, id) {
                Some(doc) => self.with_doc(collection, id, doc.marked_deleted(now_ms)),
                None => self,
            },
            DeletionPolicy::Tombstone { .. } => self.without_doc(collection, id).with_tombstone(
                local_tombstone(collection, id, reason, now_ms),
            ),
            _ => self,
        }
    }

    /// What deleting a document returns, by the collection's policy.
    pub open spec fn delete_result(self, collection: Seq<char>, id: Seq<char>, now_ms: u64) -> DeleteView {
        let policy = self.policy(collection);
        match policy {
            DeletionPolicy::Immutable => DeleteView { deleted: false, tombstone_id: None, expires_at: None, policy },
            DeletionPolicy::Tombstone { tombstone_ttl_ms, .. } => DeleteView {
                deleted: true,
                tombstone_id: Some(id),
                expires_at: Some((now_ms + tombstone_ttl_ms) as u128),
                policy,
            },
            _ => DeleteView { deleted: true, tombstone_id: None, expires_at: None, policy },
        }
    }

    /// Who is told what of a deletion.
    pub open spec fn delete_notice(self, collection: Seq<char>, id: Seq<char>, now_ms: u64) -> Option<NoticeView> {
        match self.policy(collection) {
            DeletionPolicy::SoftDelete => match self.doc(collection, id) {
                Some(doc) => Some(
                    self.notice(
                        collection,
                        ChangeView::Updated { collection, document: doc.marked_deleted(now_ms) },
                    ),
                ),
                None => None,
            },
            DeletionPolicy::Tombstone { .. } => self.removal_notice(collection, id),
            _ => None,
        }
    }

    /// The document that `get` gives: a deleted one is not given.
    pub open spec fn visible(self, collection: Seq<char>, id: Seq<char>) -> Option<DocumentView> {
        match self.doc(collection, id) {
            Some(doc) => if doc.is_deleted() {
                None
            } else {
                Some(doc)
            },
            None => None,
        }
    }
}

/// The tombstone of a document that this node deleted.
pub open spec fn local_tombstone(
    collection: Seq<char>,
    id: Seq<char>,
    reason: Option<Seq<char>>,
    now_ms: u64,
) -> TombstoneView {
    TombstoneView { document_id: id, collection, deleted_at: now_ms, deleted_by: "local"@, lamport: 1, reason }
}

/// A document as it is stored.
pub open spec fn stored(doc: DocumentView, id: Seq<char>, now_ms: u64) -> DocumentView {
    DocumentView { id: Some(id), updated_at: now_ms, ..doc }
}

/// The ID under which a document is stored: its own or, where it has none, a new
/// one.
pub open spec fn id_for(doc: DocumentView, new_id: Seq<char>) -> Seq<char> {
    match doc.id {
        Some(id) => id,
        None => new_id,
    }
}

/// What is known of a peer that was just added.
pub open spec fn new_peer(address: Seq<char>, transport: TransportType, now_ms: u64) -> PeerInfoView {
    PeerInfoView {
        peer_id: "peer-"@ + address,
        address: Some(address),
        transport,
        connected: true,
        last_seen: now_ms,
        metadata: Seq::empty(),
    }
}

/// Whether a text has the form of a random UUID: groups of small hexadecimal
/// digits, with the version and variant in their places.
pub open spec fn is_random_uuid(t: Seq<char>) -> bool {
    &&& t.len() == 36
    &&& forall|i: int|
        0 <= i < 36 ==> if i == 8 || i == 13 || i == 18 || i == 23 {
            #[trigger] t[i] == '-'
        } else {
            '0' <= t[i] <= '9' || 'a' <= t[i] <= 'f'
        }
    &&& t[14] == '4'
    &&& t[19] == '8' || t[19] == '9' || t[19] == 'a' || t[19] == 'b'
}

/// Calls `uuid::Uuid::new_v4` and `to_string`: the text has the form of a random
/// UUID. Nothing is claimed of its digits.
#[verifier::external_body]
fn random_uuid() -> (r: String)
    ensures
        is_random_uuid(r@),
{
    uuid::Uuid::new_v4().to_string()
}

/// What to do while waiting for a peer.
#[derive(Debug)]
pub enum WaitStep {
    /// The peer is there.
    Found,
    /// The time is up.
    TimedOut(String),
    /// Look again after a number of milliseconds.
    Wait(u64),
}

/// A subscription to a collection.
#[derive(Debug)]
pub struct SyncSubscription {
    collection: String,
}

impl SyncSubscription {
    /// The collection.
    pub closed spec fn of(self) -> Seq<char> {
        self.collection@
    }

    /// The collection.
    pub fn collection(&self) -> (r: &str)
        ensures
            r@ == self.of(),
    {
        self.collection.as_str()
    }
}

impl InMemoryBackend {
    /// Create a new uninitialized backend
    pub fn new() -> (r: Self)
        ensures
            r@ == empty_backend(false),
    {
        let r = InMemoryBackend {
            collections: VecMap::new(),
            peers: VecMap::new(),
            observers: Vec::new(),
            tombstones: VecMap::new(),
            config: None,
            syncing: false,
            subscriptions: Vec::new(),
            initialized: false,
            deletion_policies: VecMap::new(),
        };
        proof {
            assert(r@.collections =~= Map::empty());
            assert(r@.peers =~= Map::empty());
            assert(r@.tombstones =~= Map::empty());
        }
        r
    }

    /// Create a new backend that's immediately ready for use
    pub fn new_initialized() -> (r: Self)
        ensures
            r@ == empty_backend(true),
    {
        let mut backend = Self::new();
        backend.initialized = true;
        backend
    }

    /// Get total document count across all collections
    pub fn document_count(&self) -> (r: usize)
        requires
            total_documents(self@.collections) <= usize::MAX,
        ensures
            r == total_documents(self@.collections),
    {
        let count: usize = self.collections.len();
        let ghost items = self.collections.items();
        let ghost all = self@.collections;
        let ghost mut rest = all;
        let mut sum: usize = 0;
        let mut i: usize = 0;
        assert(all.dom() =~= self.collections@.dom());
        while i < count
            invariant
                i <= count,
                count == items.len(),
                items == self.collections.items(),
                vec_map::keys_distinct(items),
                self.collections@ == vec_map::entries_map(items),
                all == collections_view(self.collections@),
                rest.dom().finite(),
                forall|j: int| 0 <= j < i ==> !rest.contains_key((#[trigger] items[j]).0@),
                forall|j: int|
                    i <= j < count ==> rest.contains_key((#[trigger] items[j]).0@) && rest[items[j].0@]
                        == vec_map::values_view(items[j].1@),
                forall|k: Seq<char>| #[trigger] rest.contains_key(k) ==> all.contains_key(k),
                sum + total_documents(rest) == total_documents(all),
                total_documents(all) <= usize::MAX,
            decreases count - i,
        {
            let entry = self.collections.item(i);
            let ghost name = items[i as int].0@;
            let docs: usize = entry.1.len();
            proof {
                lemma_total_without(rest, name);
                assert(rest[name].dom() =~= entry.1@.dom());
                rest = rest.remove(name);
                assert forall|j: int| i + 1 <= j < count implies rest.contains_key((#[trigger] items[j]).0@) && rest[items[j].0@]
                    == vec_map::values_view(items[j].1@) by {
                    assert(items[i as int].0@ != items[j].0@);
                }
            }
            sum = sum + docs;
            i = i + 1;
        }
        proof {
            assert forall|k: Seq<char>| !rest.contains_key(k) by {
                if rest.contains_key(k) {
                    assert(self.collections@.contains_key(k));
                    let j = vec_map::entry_index(items, k);
                    assert(vec_map::has_entry(items, k));
                    assert(items[j].0@ == k);
                }
            }
            assert(rest.dom() =~= Set::empty());
        }
        sum
    }

    /// Get the number of collections
    pub fn collection_count(&self) -> (r: usize)
        ensures
            r == self@.collections.dom().len(),
    {
        let r: usize = self.collections.len();
        assert(self@.collections.dom() =~= self.collections@.dom());
        r
    }

    /// Clear all documents in a collection
    pub fn clear_collection(&mut self, collection: &str)
        ensures
            final(self)@ == (if old(self)@.collections.contains_key(collection@) {
                BackendView {
                    collections: old(self)@.collections.insert(collection@, Map::empty()),
                    ..old(self)@
                }
            } else {
                old(self)@
            }),
    {
        let name = collection.to_owned();
        if self.collections.contains_key(&name) {
            let empty: VecMap<String, Document> = VecMap::new();
            assert(vec_map::values_view(empty@) =~= Map::empty());
            self.collections.insert(name, empty);
            assert(self@.collections =~= old(self)@.collections.insert(collection@, Map::empty()));
        }
    }

    /// Set deletion policy for a collection
    pub fn set_deletion_policy(&mut self, collection: &str, policy: DeletionPolicy)
        ensures
            final(self)@ == (BackendView { policies: old(self)@.policies.insert(collection@, policy), ..old(self)@ }),
    {
        self.deletion_policies.insert(collection.to_owned(), policy);
    }

    /// What deleting a document of a collection does.
    pub fn deletion_policy(&self, collection: &str) -> (r: DeletionPolicy)
        ensures
            r == self@.policy(collection@),
    {
        match self.deletion_policies.get(&collection.to_owned()) {
            Some(policy) => *policy,
            None => DeletionPolicy::default(),
        }
    }

    fn watchers(&self, collection: &str) -> (r: Vec<usize>)
        ensures
            r@ == watching(self@.observers, collection@),
    {
        let mut out: Vec<usize> = Vec::new();
        let mut i: usize = 0;
        let ghost all = observers_view(self.observers@);
        assert(all.take(0) =~= Seq::empty());
        while i < self.observers.len()
            invariant
                i <= self.observers@.len(),
                all == observers_view(self.observers@),
                out@ == watching(all.take(i as int), collection@),
            decreases self.observers@.len() - i,
        {
            assert(all.take(i + 1).drop_last() =~= all.take(i as int));
            if text_eq(self.observers[i].collection.as_str(), collection) {
                out.push(i);
            }
            i = i + 1;
        }
        assert(all.take(i as int) =~= all);
        out
    }

    /// The notice of an event for those who watch a collection.
    fn notify_observers(&self, collection: &str, event: ChangeEvent) -> (r: Notice)
        ensures
            r@ == self@.notice(collection@, event@),
    {
        Notice { observers: self.watchers(collection), event }
    }

    fn put_doc(&mut self, collection: &str, id: String, doc: Document)
        ensures
            final(self)@ == old(self)@.with_doc(collection@, id@, doc@),
    {
        let name = collection.to_owned();
        let mut docs = match self.collections.remove(&name) {
            Some(docs) => docs,
            None => VecMap::new(),
        };
        let ghost before = docs@;
        assert(vec_map::values_view(before) =~= old(self)@.docs(collection@));
        docs.insert(id, doc);
        assert(vec_map::values_view(docs@) =~= old(self)@.docs(collection@).insert(id@, doc@));
        self.collections.insert(name, docs);
        assert(self@.collections =~= old(self)@.with_doc(collection@, id@, doc@).collections);
    }

    fn take_doc(&mut self, collection: &str, id: &String) -> (r: Option<Document>)
        ensures
            final(self)@ == old(self)@.without_doc(collection@, id@),
            (match r {
                Some(d) => Some(d@),
                None => None,
            }) == old(self)@.doc(collection@, id@),
    {
        let name = collection.to_owned();
        match self.collections.remove(&name) {
            Some(docs) => {
                let mut docs = docs;
                assert(vec_map::values_view(docs@) =~= old(self)@.docs(collection@));
                let r = docs.remove(id);
                assert(vec_map::values_view(docs@) =~= old(self)@.docs(collection@).remove(id@));
                self.collections.insert(name, docs);
                assert(self@.collections =~= old(self)@.without_doc(collection@, id@).collections);
                r
            },
            None => {
                assert(self@.collections =~= old(self)@.collections);
                None
            },
        }
    }

    /// Stores a document, under `new_id` where it has no ID. Returns its ID and who
    /// is to be told.
    pub fn upsert_at(&mut self, collection: &str, document: Document, new_id: String, now_ms: u64) -> (r: (
        String,
        Notice,
    ))
        ensures
            r.0@ == id_for(document@, new_id@),
            final(self)@ == old(self)@.with_doc(collection@, r.0@, stored(document@, r.0@, now_ms)),
            r.1@ == old(self)@.notice(
                collection@,
                ChangeView::Updated { collection: collection@, document: stored(document@, r.0@, now_ms) },
            ),
    {
        let id = match &document.id {
            Some(id) => id.clone(),
            None => new_id,
        };
        let mut doc = document;
        doc.id = Some(id.clone());
        doc.updated_at = now_ms;
        let event = ChangeEvent::Updated { collection: collection.to_owned(), document: doc.clone() };
        let notice = self.notify_observers(collection, event);
        self.put_doc(collection, id.clone(), doc);
        (id, notice)
    }

    /// Stores a document now. One without an ID gets a random one.
    pub fn upsert(&mut self, collection: &str, document: Document) -> (r: (String, Notice))
        ensures
            document@.id is Some ==> r.0@ == document@.id->Some_0,
            document@.id is None ==> is_random_uuid(r.0@),
            exists|now_ms: u64|
                final(self)@ == old(self)@.with_doc(collection@, r.0@, #[trigger] stored(document@, r.0@, now_ms))
                    && r.1@ == old(self)@.notice(
                    collection@,
                    ChangeView::Updated { collection: collection@, document: stored(document@, r.0@, now_ms) },
                ),
    {
        let new_id = random_uuid();
        let now: u64 = now_ms();
        self.upsert_at(collection, document, new_id, now)
    }

    /// The documents of a collection that a query finds.
    pub fn query(&self, collection: &str, query: &Query) -> (r: Vec<Document>)
        ensures
            answers(self@.docs(collection@), *query, documents_view(r@)),
    {
        let ghost wanted = |d: DocumentView| query::finds(*query, d);
        let mut out: Vec<Document> = Vec::new();
        match self.collections.get(&collection.to_owned()) {
            Some(docs) => {
                let count: usize = docs.len();
                let ghost items = docs.items();
                let ghost mut at: Seq<int> = Seq::empty();
                let mut i: usize = 0;
                while i < count
                    invariant
                        i <= count,
                        count == items.len(),
                        items == docs.items(),
                        wanted == (|d: DocumentView| query::finds(*query, d)),
                        at.len() == out@.len(),
                        forall|k: int|
                            0 <= k < at.len() ==> 0 <= #[trigger] at[k] < i && out@[k]@ == items[at[k]].1@ && wanted(
                                out@[k]@,
                            ),
                        forall|a: int, b: int| 0 <= a < b < at.len() ==> #[trigger] at[a] < #[trigger] at[b],
                        forall|p: int| 0 <= p < i && wanted((#[trigger] items[p]).1@) ==> at.contains(p),
                    decreases count - i,
                {
                    let doc = &docs.item(i).1;
                    let ghost at_before = at;
                    if query.matches_deletion_state(doc) && evaluate_query(doc, query.inner_query()) {
                        out.push(doc.clone());
                        proof {
                            at = at.push(i as int);
                            assert(at[at_before.len() as int] == i);
                        }
                    }
                    proof {
                        assert forall|p: int| 0 <= p < i + 1 && wanted((#[trigger] items[p]).1@) implies at.contains(
                            p,
                        ) by {
                            if p < i {
                                let k = choose|k: int| 0 <= k < at_before.len() && at_before[k] == p;
                                assert(at[k] == p);
                            }
                        }
                    }
                    i = i + 1;
                }
                proof {
                    vec_map::lemma_selects(items, at, wanted, documents_view(out@));
                    assert(self@.docs(collection@) =~= vec_map::values_view(docs@));
                }
            },
            None => {
                proof {
                    let keys: Seq<Seq<char>> = Seq::empty();
                    assert(self@.docs(collection@) =~= Map::empty());
                    assert(vec_map::lists(self@.docs(collection@), wanted, keys, documents_view(out@)));
                }
            },
        }
        out
    }

    /// The document with an ID; a deleted one is not given.
    pub fn get(&self, collection: &str, doc_id: &String) -> (r: Option<Document>)
        ensures
            (match r {
                Some(d) => Some(d@),
                None => None,
            }) == self@.visible(collection@, doc_id@),
    {
        match self.collections.get(&collection.to_owned()) {
            Some(docs) => {
                assert(self@.docs(collection@) =~= vec_map::values_view(docs@));
                match docs.get(doc_id) {
                    Some(doc) => {
                        if doc.is_deleted() {
                            None
                        } else {
                            Some(doc.clone())
                        }
                    },
                    None => None,
                }
            },
            None => {
                assert(self@.docs(collection@) =~= Map::empty());
                None
            },
        }
    }

    /// The number of documents that a query finds.
    pub fn count(&self, collection: &str, query: &Query) -> (r: usize)
        ensures
            r == found_ids(self@.docs(collection@), *query).len(),
    {
        let found = self.query(collection, query);
        proof {
            law_each_found_once(self@.docs(collection@), *query, documents_view(found@));
        }
        found.len()
    }

    /// Removes a document; says who is to be told where it was there.
    pub fn remove(&mut self, collection: &str, doc_id: &String) -> (r: Option<Notice>)
        ensures
            final(self)@ == old(self)@.without_doc(collection@, doc_id@),
            notice_view(r) == old(self)@.removal_notice(collection@, doc_id@),
    {
        match self.take_doc(collection, doc_id) {
            Some(_) => {
                let event = ChangeEvent::Removed { collection: collection.to_owned(), doc_id: doc_id.clone() };
                Some(self.notify_observers(collection, event))
            },
            None => None,
        }
    }

    /// Begins to watch a collection. Returns the number of the observer.
    pub fn observe(&mut self, collection: &str, query: Query) -> (r: usize)
        ensures
            r == old(self)@.observers.len(),
            final(self)@ == (BackendView { observers: old(self)@.observers.push(collection@), ..old(self)@ }),
    {
        let r: usize = self.observers.len();
        self.observers.push(Observer { collection: collection.to_owned(), query });
        assert(self@.observers =~= old(self)@.observers.push(collection@));
        r
    }

    /// Deletes a document by the policy of its collection.
    pub fn delete_at(&mut self, collection: &str, doc_id: &String, reason: Option<&str>, now_ms: u64) -> (r: (
        DeleteResult,
        Option<Notice>,
    ))
        ensures
            final(self)@ == old(self)@.after_delete(
                collection@,
                doc_id@,
                (match reason {
                    Some(t) => Some(t@),
                    None => None,
                }),
                now_ms,
            ),
            r.0@ == old(self)@.delete_result(collection@, doc_id@, now_ms),
            notice_view(r.1) == old(self)@.delete_notice(collection@, doc_id@, now_ms),
    {
        let policy = self.deletion_policy(collection);
        match policy {
            DeletionPolicy::Immutable => (DeleteResult::immutable(), None),
            DeletionPolicy::SoftDelete => {
                let notice = match self.take_doc(collection, doc_id) {
                    Some(doc) => {
                        let mut doc = doc;
                        let ghost before = doc@;
                        doc.fields.insert("_deleted".to_owned(), Json::Bool(true));
                        doc.updated_at = now_ms;
                        assert(doc@.fields =~= before.marked_deleted(now_ms).fields);
                        assert(doc@ =~= before.marked_deleted(now_ms));
                        let event = ChangeEvent::Updated { collection: collection.to_owned(), document: doc.clone() };
                        let notice = self.notify_observers(collection, event);
                        self.put_doc(collection, doc_id.clone(), doc);
                        proof {
                            let old_docs = old(self)@.docs(collection@);
                            assert(old_docs.remove(doc_id@).insert(doc_id@, doc@) =~= old_docs.insert(doc_id@, doc@));
                            assert(self@.collections =~= old(self)@.with_doc(collection@, doc_id@, doc@).collections);
                        }
                        Some(notice)
                    },
                    None => {
                        assert(old(self)@.docs(collection@).remove(doc_id@) =~= old(self)@.docs(collection@));
                        assert(self@.collections =~= old(self)@.collections);
                        None
                    },
                };
                (DeleteResult::soft_deleted(policy), notice)
            },
            DeletionPolicy::Tombstone { tombstone_ttl_ms, .. } => {
                let notice = self.remove(collection, doc_id);
                let tombstone = Tombstone {
                    document_id: doc_id.clone(),
                    collection: collection.to_owned(),
                    deleted_at: now_ms,
                    deleted_by: "local".to_owned(),
                    lamport: 1,
                    reason: match reason {
                        Some(t) => Some(t.to_owned()),
                        None => None,
                    },
                };
                self.put_tombstone(tombstone);
                let result = DeleteResult {
                    deleted: true,
                    tombstone_id: Some(doc_id.clone()),
                    expires_at: Some(now_ms as u128 + tombstone_ttl_ms as u128),
                    policy,
                };
                (result, notice)
            },
            DeletionPolicy::ImplicitTTL => (DeleteResult::soft_deleted(policy), None),
        }
    }

    /// Deletes a document now, by the policy of its collection.
    pub fn delete(&mut self, collection: &str, doc_id: &String, reason: Option<&str>) -> (r: (
        DeleteResult,
        Option<Notice>,
    ))
        ensures
            exists|now_ms: u64|
                final(self)@ == old(self)@.after_delete(
                    collection@,
                    doc_id@,
                    (match reason {
                        Some(t) => Some(t@),
                        None => None,
                    }),
                    now_ms,
                ) && r.0@ == #[trigger] old(self)@.delete_result(collection@, doc_id@, now_ms) && notice_view(r.1) == old(
                    self,
                )@.delete_notice(collection@, doc_id@, now_ms),
    {
        let now: u64 = now_ms();
        self.delete_at(collection, doc_id, reason, now)
    }

    fn put_tombstone(&mut self, tombstone: Tombstone)
        ensures
            final(self)@ == old(self)@.with_tombstone(tombstone@),
    {
        let key = joined3(tombstone.collection.as_str(), ":", tombstone.document_id.as_str());
        self.tombstones.insert(key, tombstone);
        assert(self@.tombstones =~= old(self)@.with_tombstone(tombstone@).tombstones);
    }

    /// The tombstones of a collection.
    pub fn get_tombstones(&self, collection: &str) -> (r: Vec<Tombstone>)
        ensures
            vec_map::selects(
                self@.tombstones,
                |t: TombstoneView| t.collection == collection@,
                tombstones_view(r@),
            ),
    {
        let ghost wanted = |t: TombstoneView| t.collection == collection@;
        let mut out: Vec<Tombstone> = Vec::new();
        let count: usize = self.tombstones.len();
        let ghost items = self.tombstones.items();
        let ghost mut at: Seq<int> = Seq::empty();
        let mut i: usize = 0;
        while i < count
            invariant
                i <= count,
                count == items.len(),
                items == self.tombstones.items(),
                wanted == (|t: TombstoneView| t.collection == collection@),
                at.len() == out@.len(),
                forall|k: int|
                    0 <= k < at.len() ==> 0 <= #[trigger] at[k] < i && out@[k]@ == items[at[k]].1@ && wanted(out@[k]@),
                forall|a: int, b: int| 0 <= a < b < at.len() ==> #[trigger] at[a] < #[trigger] at[b],
                forall|p: int| 0 <= p < i && wanted((#[trigger] items[p]).1@) ==> at.contains(p),
            decreases count - i,
        {
            let tombstone = &self.tombstones.item(i).1;
            let ghost at_before = at;
            if text_eq(tombstone.collection.as_str(), collection) {
                out.push(tombstone.clone());
                proof {
                    at = at.push(i as int);
                    assert(at[at_before.len() as int] == i);
                }
            }
            proof {
                assert forall|p: int| 0 <= p < i + 1 && wanted((#[trigger] items[p]).1@) implies at.contains(p) by {
                    if p < i {
                        let k = choose|k: int| 0 <= k < at_before.len() && at_before[k] == p;
                        assert(at[k] == p);
                    }
                }
            }
            i = i + 1;
        }
        proof {
            vec_map::lemma_selects(items, at, wanted, tombstones_view(out@));
        }
        out
    }

    /// Applies the tombstone of a document that another node deleted.
    pub fn apply_tombstone(&mut self, tombstone: &Tombstone) -> (r: Option<Notice>)
        ensures
            final(self)@ == old(self)@.without_doc(tombstone@.collection, tombstone@.document_id).with_tombstone(
                tombstone@,
            ),
            notice_view(r) == old(self)@.removal_notice(tombstone@.collection, tombstone@.document_id),
    {
        let notice = self.remove(tombstone.collection.as_str(), &tombstone.document_id);
        self.put_tombstone(tombstone.clone());
        notice
    }

    /// The peers that are known.
    pub fn discovered_peers(&self) -> (r: Vec<PeerInfo>)
        ensures
            vec_map::selects(self@.peers, |p: PeerInfoView| true, peers_view(r@)),
    {
        let ghost wanted = |p: PeerInfoView| true;
        let mut out: Vec<PeerInfo> = Vec::new();
        let count: usize = self.peers.len();
        let ghost items = self.peers.items();
        let mut i: usize = 0;
        while i < count
            invariant
                i <= count,
                count == items.len(),
                items == self.peers.items(),
                out@.len() == i,
                forall|k: int| 0 <= k < i ==> (#[trigger] out@[k])@ == items[k].1@,
            decreases count - i,
        {
            out.push(self.peers.item(i).1.clone());
            i = i + 1;
        }
        proof {
            let at = Seq::new(count as nat, |k: int| k);
            assert forall|p: int| 0 <= p < items.len() implies at.contains(p) by {
                assert(at[p] == p);
            }
            vec_map::lemma_selects(items, at, wanted, peers_view(out@));
        }
        out
    }

    /// Adds a peer; returns what is known of it, which those who wait for new peers
    /// are to be told.
    pub fn add_peer_at(&mut self, address: &str, transport: TransportType, now_ms: u64) -> (r: PeerInfo)
        ensures
            r@ == new_peer(address@, transport, now_ms),
            final(self)@ == (BackendView {
                peers: old(self)@.peers.insert("peer-"@ + address@, new_peer(address@, transport, now_ms)),
                ..old(self)@
            }),
    {
        let peer_id = joined("peer-", address);
        let info = PeerInfo {
            peer_id: peer_id.clone(),
            address: Some(address.to_owned()),
            transport,
            connected: true,
            last_seen: now_ms,
            metadata: Vec::new(),
        };
        assert(info@ =~= new_peer(address@, transport, now_ms));
        let copy = info.clone();
        self.peers.insert(peer_id, info);
        assert(self@.peers =~= old(self)@.peers.insert("peer-"@ + address@, info@));
        copy
    }

    /// Adds a peer now.
    pub fn add_peer(&mut self, address: &str, transport: TransportType) -> (r: PeerInfo)
        ensures
            exists|now_ms: u64|
                r@ == #[trigger] new_peer(address@, transport, now_ms) && final(self)@ == (BackendView {
                    peers: old(self)@.peers.insert("peer-"@ + address@, new_peer(address@, transport, now_ms)),
                    ..old(self)@
                }),
    {
        let now: u64 = now_ms();
        self.add_peer_at(address, transport, now)
    }

    /// What to do next while waiting for a peer until `deadline`.
    pub fn wait_for_peer(&self, peer_id: &String, now: u64, deadline: u64) -> (r: WaitStep)
        ensures
            r is Found <==> self@.peers.contains_key(peer_id@),
            r is TimedOut <==> !self@.peers.contains_key(peer_id@) && now >= deadline,
            r matches WaitStep::TimedOut(t) ==> t@ == "Timeout waiting for peer "@ + peer_id@,
            r matches WaitStep::Wait(ms) ==> ms == 50,
    {
        if self.peers.contains_key(peer_id) {
            WaitStep::Found
        } else if now >= deadline {
            WaitStep::TimedOut(joined("Timeout waiting for peer ", peer_id.as_str()))
        } else {
            WaitStep::Wait(50)
        }
    }

    /// What is known of a peer.
    pub fn get_peer_info(&self, peer_id: &String) -> (r: Option<PeerInfo>)
        ensures
            match r {
                Some(info) => self@.peers.contains_key(peer_id@) && info@ == self@.peers[peer_id@],
                None => !self@.peers.contains_key(peer_id@),
            },
    {
        match self.peers.get(peer_id) {
            Some(info) => Some(info.clone()),
            None => None,
        }
    }

    pub fn start_sync(&mut self)
        ensures
            final(self)@ == (BackendView { syncing: true, ..old(self)@ }),
    {
        self.syncing = true;
    }

    pub fn stop_sync(&mut self)
        ensures
            final(self)@ == (BackendView { syncing: false, ..old(self)@ }),
    {
        self.syncing = false;
    }

    pub fn is_syncing(&self) -> (r: bool)
        ensures
            r == self@.syncing,
    {
        self.syncing
    }

    /// Subscribes to a collection.
    pub fn subscribe(&mut self, collection: &str) -> (r: SyncSubscription)
        ensures
            r.of() == collection@,
            final(self)@ == (BackendView { subscriptions: old(self)@.subscriptions.push(collection@), ..old(self)@ }),
    {
        self.subscriptions.push(collection.to_owned());
        assert(self@.subscriptions =~= old(self)@.subscriptions.push(collection@));
        SyncSubscription { collection: collection.to_owned() }
    }

    /// Makes the backend ready.
    pub fn initialize(&mut self, config: BackendConfig)
        ensures
            final(self)@ == (BackendView { config: Some(config), initialized: true, ..old(self)@ }),
    {
        self.config = Some(config);
        self.initialized = true;
    }

    /// Stops syncing; the backend is no longer ready.
    pub fn shutdown(&mut self)
        ensures
            final(self)@ == (BackendView { syncing: false, initialized: false, ..old(self)@ }),
    {
        self.syncing = false;
        self.initialized = false;
    }

    pub fn is_ready(&self) -> (r: bool)
        ensures
            r == self@.initialized,
    {
        self.initialized
    }

    pub fn backend_info(&self) -> (r: BackendInfo)
        ensures
            r.name@ == "InMemory"@,
            r.version@ == "0.2.0"@,
    {
        BackendInfo { name: "InMemory".to_owned(), version: "0.2.0".to_owned() }
    }
}

impl Default for InMemoryBackend {
    fn default() -> (r: Self)
        ensures
            r@ == empty_backend(false),
    {
        Self::new()
    }
}

/// Whether `results` answers a query on documents: those that it finds, each once,
/// in some order.
pub open spec fn answers(docs: Map<Seq<char>, DocumentView>, query: Query, results: Seq<DocumentView>) -> bool {
    vec_map::selects(docs, |d: DocumentView| query::finds(query, d), results)
}

/// The IDs of the documents that a query finds.
pub open spec fn found_ids(docs: Map<Seq<char>, DocumentView>, query: Query) -> Set<Seq<char>> {
    docs.dom().filter(|id: Seq<char>| query::finds(query, docs[id]))
}

/// The answer to a query has as many documents as the query finds, each of them
/// found.
pub proof fn law_each_found_once(docs: Map<Seq<char>, DocumentView>, query: Query, results: Seq<DocumentView>)
    requires
        answers(docs, query, results),
    ensures
        found_ids(docs, query).finite(),
        results.len() == found_ids(docs, query).len(),
        forall|i: int| 0 <= i < results.len() ==> query::finds(query, #[trigger] results[i]),
        forall|id: Seq<char>| #[trigger] found_ids(docs, query).contains(id) ==> results.contains(docs[id]),
{
    let wanted = |d: DocumentView| query::finds(query, d);
    let keys = choose|keys: Seq<Seq<char>>| #[trigger] vec_map::lists(docs, wanted, keys, results);
    assert(vec_map::lists(docs, wanted, keys, results));
    let ids = found_ids(docs, query);
    assert forall|id: Seq<char>| keys.to_set().contains(id) implies ids.contains(id) by {
        let i = choose|i: int| 0 <= i < keys.len() && keys[i] == id;
        assert(docs.contains_key(keys[i]) && wanted(results[i]));
    }
    assert forall|id: Seq<char>| ids.contains(id) implies keys.to_set().contains(id) by {
        assert(docs.contains_key(id) && wanted(docs[id]));
    }
    assert(keys.to_set() =~= ids);
    keys.unique_seq_to_set();
    assert forall|i: int| 0 <= i < results.len() implies query::finds(query, #[trigger] results[i]) by {
        assert(docs.contains_key(keys[i]) && wanted(results[i]));
    }
    assert forall|id: Seq<char>| #[trigger] ids.contains(id) implies results.contains(docs[id]) by {
        assert(keys.contains(id));
        let i = choose|i: int| 0 <= i < keys.len() && keys[i] == id;
        assert(results[i] == docs[keys[i]]);
    }
}

/// Documents by their views.
pub open spec fn documents_view(docs: Seq<Document>) -> Seq<DocumentView> {
    docs.map_values(|d: Document| d@)
}

/// Tombstones by their views.
pub open spec fn tombstones_view(tombstones: Seq<Tombstone>) -> Seq<TombstoneView> {
    tombstones.map_values(|t: Tombstone| t@)
}

/// Peers by their views.
pub open spec fn peers_view(peers: Seq<PeerInfo>) -> Seq<PeerInfoView> {
    peers.map_values(|p: PeerInfo| p@)
}

/// Whether every document is kept under its own ID.
pub open spec fn ids_agree(store: BackendView) -> bool {
    forall|c: Seq<char>, id: Seq<char>| #[trigger]
        store.docs(c).contains_key(id) ==> store.docs(c)[id].id == Some(id)
}

/// Documents are kept under their own IDs, whatever happens.
pub proof fn law_ids_agree(
    store: BackendView,
    collection: Seq<char>,
    id: Seq<char>,
    doc: DocumentView,
    reason: Option<Seq<char>>,
    tombstone: TombstoneView,
    now_ms: u64,
)
    requires
        ids_agree(store),
    ensures
        ids_agree(empty_backend(true)),
        ids_agree(store.with_doc(collection, id, stored(doc, id, now_ms))),
        ids_agree(store.without_doc(collection, id)),
        ids_agree(store.after_delete(collection, id, reason, now_ms)),
        ids_agree(store.without_doc(tombstone.collection, tombstone.document_id).with_tombstone(tombstone)),
{
    let a = store.with_doc(collection, id, stored(doc, id, now_ms));
    assert forall|c: Seq<char>, k: Seq<char>| #[trigger] a.docs(c).contains_key(k) implies a.docs(c)[k].id == Some(k) by {
        if c == collection && k != id {
            assert(store.docs(c).contains_key(k));
        } else if c != collection {
            assert(store.docs(c).contains_key(k));
        }
    }
    lemma_without_keeps_ids(store, collection, id);
    lemma_without_keeps_ids(store, tombstone.collection, tombstone.document_id);
    let b = store.without_doc(tombstone.collection, tombstone.document_id);
    assert forall|c: Seq<char>, k: Seq<char>| #[trigger] b.with_tombstone(tombstone).docs(c).contains_key(k) implies b.with_tombstone(
        tombstone,
    ).docs(c)[k].id == Some(k) by {
        assert(b.docs(c).contains_key(k));
    }
    let d = store.after_delete(collection, id, reason, now_ms);
    let w = store.without_doc(collection, id);
    assert forall|c: Seq<char>, k: Seq<char>| #[trigger] d.docs(c).contains_key(k) implies d.docs(c)[k].id == Some(k) by {
        match store.policy(collection) {
            DeletionPolicy::SoftDelete => {
                assert(store.docs(c).contains_key(k));
            },
            DeletionPolicy::Tombstone { .. } => {
                assert(w.docs(c).contains_key(k));
            },
            _ => {
                assert(store.docs(c).contains_key(k));
            },
        }
    }
}

proof fn lemma_without_keeps_ids(store: BackendView, collection: Seq<char>, id: Seq<char>)
    requires
        ids_agree(store),
    ensures
        ids_agree(store.without_doc(collection, id)),
{
    let w = store.without_doc(collection, id);
    assert forall|c: Seq<char>, k: Seq<char>| #[trigger] w.docs(c).contains_key(k) implies w.docs(c)[k].id == Some(k) by {
        assert(store.docs(c).contains_key(k));
    }
}

/// Asking for the document with an ID gives what `get` gives: that document alone,
/// or nothing where it is not there or deleted.
pub proof fn law_get_is_query_by_id(
    store: BackendView,
    collection: Seq<char>,
    id: Seq<char>,
    query: Query,
    results: Seq<DocumentView>,
)
    requires
        ids_agree(store),
        query matches Query::Eq { field, value } && field@ == "id"@ && value@ == JsonView::Text(id),
        answers(store.docs(collection), query, results),
    ensures
        results == match store.visible(collection, id) {
            Some(doc) => seq![doc],
            None => Seq::empty(),
        },
{
    let docs = store.docs(collection);
    let wanted = |d: DocumentView| query::finds(query, d);
    let keys = choose|keys: Seq<Seq<char>>| #[trigger] vec_map::lists(docs, wanted, keys, results);
    assert(vec_map::lists(docs, wanted, keys, results));
    assert forall|i: int| 0 <= i < keys.len() implies keys[i] == id && results[i] == docs[id] && !docs[id].is_deleted() by {
        assert(docs.contains_key(keys[i]) && results[i] == docs[keys[i]] && wanted(results[i]));
        assert(store.docs(collection).contains_key(keys[i]));
    }
    if keys.len() > 1 {
        assert(keys[0] == keys[1]);
    }
    match store.visible(collection, id) {
        Some(doc) => {
            assert(store.docs(collection).contains_key(id));
            assert(docs.contains_key(id) && wanted(docs[id]));
            assert(keys.contains(id));
            assert(keys.len() == 1);
            assert(keys[0] == id);
            assert(results =~= seq![doc]);
        },
        None => {
            if keys.len() > 0 {
                assert(keys[0] == id);
                assert(docs.contains_key(id));
            }
            assert(results =~= Seq::empty());
        },
    }
}

/// A document that was stored is found again as it was stored, and all other
/// documents are as they were.
pub proof fn law_upsert_then_get(
    store: BackendView,
    collection: Seq<char>,
    doc: DocumentView,
    new_id: Seq<char>,
    now_ms: u64,
    other_collection: Seq<char>,
    other_id: Seq<char>,
)
    requires
        !doc.is_deleted(),
    ensures
        ({
            let id = id_for(doc, new_id);
            let after = store.with_doc(collection, id, stored(doc, id, now_ms));
            &&& after.visible(collection, id) == Some(stored(doc, id, now_ms))
            &&& (other_collection != collection || other_id != id) ==> after.doc(other_collection, other_id) == store.doc(
                other_collection,
                other_id,
            )
        }),
{
}

/// Deleting a document hides it from then on under every policy that deletes, and
/// leaves it alone where documents cannot be deleted. A soft deletion keeps the
/// document for those who ask for deleted ones; with tombstones a tombstone is left
/// in its place. No other document is touched.
pub proof fn law_delete(
    store: BackendView,
    collection: Seq<char>,
    id: Seq<char>,
    reason: Option<Seq<char>>,
    now_ms: u64,
    other_collection: Seq<char>,
    other_id: Seq<char>,
)
    ensures
        ({
            let after = store.after_delete(collection, id, reason, now_ms);
            let result = store.delete_result(collection, id, now_ms);
            &&& (other_collection != collection || other_id != id) ==> after.doc(other_collection, other_id) == store.doc(
                other_collection,
                other_id,
            )
            &&& match store.policy(collection) {
                DeletionPolicy::SoftDelete => {
                    &&& result.deleted
                    &&& after.visible(collection, id) is None
                    &&& store.doc(collection, id) is Some ==> after.doc(collection, id) is Some && query::finds(
                        Query::DeletedOnly,
                        after.doc(collection, id)->Some_0,
                    )
                },
                DeletionPolicy::Tombstone { .. } => {
                    &&& result.deleted
                    &&& after.doc(collection, id) is None
                    &&& result.tombstone_id == Some(id)
                    &&& after.tombstones.contains_key(tombstone_key(collection, id))
                    &&& after.tombstones[tombstone_key(collection, id)] == local_tombstone(
                        collection,
                        id,
                        reason,
                        now_ms,
                    )
                },
                DeletionPolicy::Immutable => !result.deleted && after == store,
                DeletionPolicy::ImplicitTTL => after == store,
            }
        }),
{
}

/// A notice goes to exactly those observers that watch the collection.
pub proof fn law_watchers(observers: Seq<Seq<char>>, collection: Seq<char>, i: usize)
    requires
        observers.len() <= usize::MAX,
    ensures
        watching(observers, collection).contains(i) <==> i < observers.len() && observers[i as int] == collection,
    decreases observers.len(),
{
    if observers.len() > 0 {
        law_watchers(observers.drop_last(), collection, i);
        let before = watching(observers.drop_last(), collection);
        let after = watching(observers, collection);
        if before.contains(i) {
            let k = choose|k: int| 0 <= k < before.len() && before[k] == i;
            assert(after[k] == i);
        }
        if after.contains(i) {
            let k = choose|k: int| 0 <= k < after.len() && after[k] == i;
            if k < before.len() {
                assert(before[k] == i);
            }
        }
        if i == observers.len() - 1 && observers.last() == collection {
            assert(after[before.len() as int] == i);
        }
    }
}

/// The documents in all collections are counted once each: none where nothing is held, and
/// a collection adds those that it holds.
pub proof fn law_document_count(collections: Map<Seq<char>, Map<Seq<char>, DocumentView>>, c: Seq<char>)
    requires
        collections.dom().finite(),
    ensures
        total_documents(Map::empty()) == 0,
        collections.contains_key(c) ==> total_documents(collections) == collections[c].dom().len() + total_documents(
            collections.remove(c),
        ),
{
    if collections.contains_key(c) {
        lemma_total_without(collections, c);
    }
}

/// A new backend is empty and idle: no collection holds a document, nobody watches, no peer
/// is known, nothing was deleted, and every collection is deleted from as by default.
pub proof fn law_new_backend(initialized: bool, collection: Seq<char>, id: Seq<char>)
    ensures
        ({
            let b = empty_backend(initialized);
            &&& b.initialized == initialized
            &&& !b.syncing
            &&& b.config is None
            &&& b.doc(collection, id) is None
            &&& b.visible(collection, id) is None
            &&& b.observers.len() == 0
            &&& b.subscriptions.len() == 0
            &&& !b.peers.contains_key(id)
            &&& !b.tombstones.contains_key(id)
            &&& b.policy(collection) == DeletionPolicy::SoftDelete
        }),
{
}

} // verus!
