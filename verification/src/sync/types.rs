//! Documents, deletion and peers.

use vstd::prelude::*;
use vstd::string::*;

use crate::clock::now_ms;
use crate::json;
use crate::json::{Json, JsonView};
use crate::text;
use crate::text::clone_optional;
use crate::vec_map;
use crate::vec_map::VecMap;

verus! {

/// A document: named fields, an ID once it has one, and when it last changed, in
/// milliseconds since the epoch.
pub struct Document {
    pub id: Option<String>,
    pub fields: VecMap<String, Json>,
    pub updated_at: u64,
}

/// A [`Document`] in terms of sequences and maps.
#[verifier::ext_equal]
pub struct DocumentView {
    pub id: Option<Seq<char>>,
    pub fields: Map<Seq<char>, JsonView>,
    pub updated_at: u64,
}

impl View for Document {
    type V = DocumentView;

    open spec fn view(&self) -> DocumentView {
        DocumentView {
            id: text::optional_text(self.id),
            fields: json::fields_view(self.fields@),
            updated_at: self.updated_at,
        }
    }
}

impl DocumentView {
    /// The value of a field.
    pub open spec fn field(self, name: Seq<char>) -> Option<JsonView> {
        if self.fields.contains_key(name) {
            Some(self.fields[name])
        } else {
            None
        }
    }

    /// Whether the document is marked as deleted.
    pub open spec fn is_deleted(self) -> bool {
        self.field("_deleted"@) == Some(JsonView::Bool(true))
    }

    /// The document marked as deleted.
    pub open spec fn marked_deleted(self, now_ms: u64) -> DocumentView {
        DocumentView {
            fields: self.fields.insert("_deleted"@, JsonView::Bool(true)),
            updated_at: now_ms,
            ..self
        }
    }
}

/// Copies the fields of a document.
pub fn clone_fields(fields: &VecMap<String, Json>) -> (r: VecMap<String, Json>)
    ensures
        json::fields_view(r@) == json::fields_view(fields@),
{
    let count: usize = fields.len();
    let ghost items = fields.items();
    let mut out: VecMap<String, Json> = VecMap::new();
    let mut i: usize = 0;
    while i < count
        invariant
            i <= count,
            count == items.len(),
            items == fields.items(),
            vec_map::keys_distinct(items),
            fields@ == vec_map::entries_map(items),
            forall|k: Seq<char>| #[trigger] out@.contains_key(k) ==> fields@.contains_key(k) && out@[k]@ == fields@[k]@,
            forall|j: int| 0 <= j < i ==> out@.contains_key((#[trigger] items[j]).0@),
        decreases count - i,
    {
        let entry = fields.item(i);
        out.insert(entry.0.clone(), entry.1.clone());
        i = i + 1;
    }
    proof {
        assert forall|k: Seq<char>| fields@.contains_key(k) implies #[trigger] out@.contains_key(k) by {
            assert(vec_map::has_entry(items, k));
            let j = vec_map::entry_index(items, k);
            assert(items[j].0@ == k);
        }
        assert(json::fields_view(out@) =~= json::fields_view(fields@));
    }
    out
}

impl Document {
    /// A document without an ID.
    pub fn new(fields: VecMap<String, Json>) -> (r: Self)
        ensures
            r.id is None,
            r.fields == fields,
    {
        Document { id: None, fields, updated_at: now_ms() }
    }

    /// A document with an ID.
    pub fn with_id(id: &str, fields: VecMap<String, Json>) -> (r: Self)
        ensures
            text::optional_text(r.id) == Some(id@),
            r.fields == fields,
    {
        Document { id: Some(id.to_owned()), fields, updated_at: now_ms() }
    }

    /// The value of a field.
    pub fn get(&self, field: &str) -> (r: Option<&Json>)
        ensures
            (match r {
                Some(v) => Some(v@),
                None => None,
            }) == self@.field(field@),
    {
        self.fields.get(&field.to_owned())
    }

    /// Whether the document is marked as deleted.
    pub fn is_deleted(&self) -> (r: bool)
        ensures
            r == self@.is_deleted(),
    {
        match self.get("_deleted") {
            Some(Json::Bool(b)) => *b,
            _ => false,
        }
    }
}

impl Clone for Document {
    fn clone(&self) -> (r: Self)
        ensures
            r@ == self@,
    {
        Document { id: clone_optional(&self.id), fields: clone_fields(&self.fields), updated_at: self.updated_at }
    }
}

/// What happened to a document of a collection.
pub enum ChangeEvent {
    Updated { collection: String, document: Document },
    Removed { collection: String, doc_id: String },
}

/// A [`ChangeEvent`] in terms of sequences.
#[verifier::ext_equal]
pub enum ChangeView {
    Updated { collection: Seq<char>, document: DocumentView },
    Removed { collection: Seq<char>, doc_id: Seq<char> },
}

impl View for ChangeEvent {
    type V = ChangeView;

    open spec fn view(&self) -> ChangeView {
        match self {
            ChangeEvent::Updated { collection, document } => ChangeView::Updated {
                collection: collection@,
                document: document@,
            },
            ChangeEvent::Removed { collection, doc_id } => ChangeView::Removed {
                collection: collection@,
                doc_id: doc_id@,
            },
        }
    }
}

/// What deleting a document of a collection does.
#[derive(Clone, Copy, Debug, PartialEq, Eq, Structural)]
pub enum DeletionPolicy {
    /// Nothing; documents go away when they are out of date.
    ImplicitTTL,
    /// The document is removed, and a tombstone keeps it from coming back for a
    /// number of milliseconds.
    Tombstone { tombstone_ttl_ms: u64, delete_wins: bool },
    /// The document stays and is marked as deleted.
    SoftDelete,
    /// Nothing; documents cannot be deleted.
    Immutable,
}

impl Default for DeletionPolicy {
    fn default() -> (r: Self)
        ensures
            r == DeletionPolicy::SoftDelete,
    {
        DeletionPolicy::SoftDelete
    }
}

/// What came of a deletion.
#[derive(Debug)]
pub struct DeleteResult {
    pub deleted: bool,
    pub tombstone_id: Option<String>,
    /// When the tombstone goes, in milliseconds since the epoch.
    pub expires_at: Option<u128>,
    pub policy: DeletionPolicy,
}

/// A [`DeleteResult`] in terms of sequences.
#[verifier::ext_equal]
pub struct DeleteView {
    pub deleted: bool,
    pub tombstone_id: Option<Seq<char>>,
    pub expires_at: Option<u128>,
    pub policy: DeletionPolicy,
}

impl View for DeleteResult {
    type V = DeleteView;

    open spec fn view(&self) -> DeleteView {
        DeleteView {
            deleted: self.deleted,
            tombstone_id: text::optional_text(self.tombstone_id),
            expires_at: self.expires_at,
            policy: self.policy,
        }
    }
}

impl DeleteResult {
    /// The result for a collection whose documents cannot be deleted.
    pub fn immutable() -> (r: Self)
        ensures
            r@ == (DeleteView {
                deleted: false,
                tombstone_id: None,
                expires_at: None,
                policy: DeletionPolicy::Immutable,
            }),
    {
        DeleteResult { deleted: false, tombstone_id: None, expires_at: None, policy: DeletionPolicy::Immutable }
    }

    /// The result where no tombstone is left.
    pub fn soft_deleted(policy: DeletionPolicy) -> (r: Self)
        ensures
            r@ == (DeleteView { deleted: true, tombstone_id: None, expires_at: None, policy }),
    {
        DeleteResult { deleted: true, tombstone_id: None, expires_at: None, policy }
    }
}

/// The trace of a deleted document.
#[derive(Debug)]
pub struct Tombstone {
    pub document_id: String,
    pub collection: String,
    /// When the document was deleted, in milliseconds since the epoch.
    pub deleted_at: u64,
    pub deleted_by: String,
    pub lamport: u64,
    pub reason: Option<String>,
}

/// A [`Tombstone`] in terms of sequences.
#[verifier::ext_equal]
pub struct TombstoneView {
    pub document_id: Seq<char>,
    pub collection: Seq<char>,
    pub deleted_at: u64,
    pub deleted_by: Seq<char>,
    pub lamport: u64,
    pub reason: Option<Seq<char>>,
}

impl View for Tombstone {
    type V = TombstoneView;

    open spec fn view(&self) -> TombstoneView {
        TombstoneView {
            document_id: self.document_id@,
            collection: self.collection@,
            deleted_at: self.deleted_at,
            deleted_by: self.deleted_by@,
            lamport: self.lamport,
            reason: text::optional_text(self.reason),
        }
    }
}

impl Clone for Tombstone {
    fn clone(&self) -> (r: Self)
        ensures
            r@ == self@,
    {
        Tombstone {
            document_id: self.document_id.clone(),
            collection: self.collection.clone(),
            deleted_at: self.deleted_at,
            deleted_by: self.deleted_by.clone(),
            lamport: self.lamport,
            reason: clone_optional(&self.reason),
        }
    }
}

/// How a peer is reached.
#[derive(Clone, Copy, Debug, PartialEq, Eq, Structural)]
pub enum TransportType {
    Tcp,
    Bluetooth,
    Mdns,
    WebSocket,
    Custom,
}

/// What is known of a peer.
#[derive(Debug)]
pub struct PeerInfo {
    pub peer_id: String,
    pub address: Option<String>,
    pub transport: TransportType,
    pub connected: bool,
    /// When the peer was last seen, in milliseconds since the epoch.
    pub last_seen: u64,
    pub metadata: Vec<(String, String)>,
}

/// A [`PeerInfo`] in terms of sequences.
#[verifier::ext_equal]
pub struct PeerInfoView {
    pub peer_id: Seq<char>,
    pub address: Option<Seq<char>>,
    pub transport: TransportType,
    pub connected: bool,
    pub last_seen: u64,
    pub metadata: Seq<(Seq<char>, Seq<char>)>,
}

impl View for PeerInfo {
    type V = PeerInfoView;

    open spec fn view(&self) -> PeerInfoView {
        PeerInfoView {
            peer_id: self.peer_id@,
            address: text::optional_text(self.address),
            transport: self.transport,
            connected: self.connected,
            last_seen: self.last_seen,
            metadata: self.metadata@.map_values(|e: (String, String)| (e.0@, e.1@)),
        }
    }
}

impl Clone for PeerInfo {
    fn clone(&self) -> (r: Self)
        ensures
            r@ == self@,
    {
        let mut metadata: Vec<(String, String)> = Vec::new();
        let mut i: usize = 0;
        while i < self.metadata.len()
            invariant
                i <= self.metadata@.len(),
                metadata@.len() == i,
                forall|j: int|
                    0 <= j < i ==> (#[trigger] metadata@[j]).0@ == self.metadata@[j].0@ && metadata@[j].1@
                        == self.metadata@[j].1@,
            decreases self.metadata@.len() - i,
        {
            metadata.push((self.metadata[i].0.clone(), self.metadata[i].1.clone()));
            i = i + 1;
        }
        assert(metadata@.map_values(|e: (String, String)| (e.0@, e.1@)) =~= self.metadata@.map_values(
            |e: (String, String)| (e.0@, e.1@),
        ));
        PeerInfo {
            peer_id: self.peer_id.clone(),
            address: clone_optional(&self.address),
            transport: self.transport,
            connected: self.connected,
            last_seen: self.last_seen,
            metadata,
        }
    }
}

/// How a backend is set up.
#[derive(Debug)]
pub struct BackendConfig {
    pub app_id: String,
    pub persistence_dir: String,
    pub shared_key: Option<String>,
}

/// Name and version of a backend.
#[derive(Debug)]
pub struct BackendInfo {
    pub name: String,
    pub version: String,
}

} // verus!
