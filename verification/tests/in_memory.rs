//! The in-memory backend and its queries.

use std::cell::RefCell;
use std::rc::Rc;

use peat_mesh::clock::now_ms;
use peat_mesh::json::{equal_values, Json, Number, Order};
use peat_mesh::sync::in_memory::{compare_values, evaluate_query, InMemoryBackend, Notice, SyncSubscription, WaitStep};
use peat_mesh::sync::query::{GeoPoint, Query};
use peat_mesh::sync::types::{
    BackendConfig, BackendInfo, ChangeEvent, DeleteResult, DeletionPolicy, Document, PeerInfo, Tombstone, TransportType,
};
use peat_mesh::vec_map::VecMap;

fn fields<const N: usize>(entries: [(&str, Json); N]) -> VecMap<String, Json> {
    let mut map = VecMap::new();
    for (key, value) in entries {
        map.insert(key.to_string(), value);
    }
    map
}

fn double(x: f64) -> Json {
    Json::Number(Number::Double(x.to_bits()))
}

fn same(found: Option<&Json>, expected: Json) -> bool {
    match found {
        Some(value) => equal_values(value, &expected),
        None => false,
    }
}

fn point(lat: f64, lon: f64) -> GeoPoint {
    GeoPoint { lat: lat.to_bits(), lon: lon.to_bits() }
}

/// The distance of two places on the globe in meters.
fn distance(a: GeoPoint, b: GeoPoint) -> f64 {
    let (lat_a, lat_b) = (f64::from_bits(a.lat).to_radians(), f64::from_bits(b.lat).to_radians());
    let lon = (f64::from_bits(b.lon) - f64::from_bits(a.lon)).to_radians();
    let h = ((lat_b - lat_a) / 2.0).sin().powi(2) + lat_a.cos() * lat_b.cos() * (lon / 2.0).sin().powi(2);
    2.0 * 6_371_000.0 * h.sqrt().asin()
}

/// A query for the documents of a collection near a place.
fn within_radius(backend: &Backend, collection: &str, lat: f64, lon: f64, meters: f64) -> Query {
    let center = point(lat, lon);
    let mut inside = Vec::new();
    for doc in backend.query(collection, &Query::All).unwrap() {
        if let Some(place) = doc.place(&None, &None) {
            if distance(place, center) <= meters {
                inside.push(place);
            }
        }
    }
    Query::WithinRadius { center, radius_meters: meters.to_bits(), inside, lat_field: None, lon_field: None }
}

/// The events that an observer was told.
struct Stream {
    number: usize,
    told: Rc<RefCell<Vec<(usize, ChangeEvent)>>>,
}

impl Stream {
    fn next(&self) -> Option<ChangeEvent> {
        let mut told = self.told.borrow_mut();
        let at = told.iter().position(|(number, _)| *number == self.number)?;
        Some(told.remove(at).1)
    }
}

/// A backend that hands the notices to its observers.
struct Backend {
    inner: RefCell<InMemoryBackend>,
    told: Rc<RefCell<Vec<(usize, ChangeEvent)>>>,
}

fn copy(event: &ChangeEvent) -> ChangeEvent {
    match event {
        ChangeEvent::Updated { collection, document } => {
            ChangeEvent::Updated { collection: collection.clone(), document: document.clone() }
        }
        ChangeEvent::Removed { collection, doc_id } => {
            ChangeEvent::Removed { collection: collection.clone(), doc_id: doc_id.clone() }
        }
    }
}

impl Backend {
    fn with(inner: InMemoryBackend) -> Self {
        Backend { inner: RefCell::new(inner), told: Rc::new(RefCell::new(Vec::new())) }
    }

    fn new() -> Self {
        Self::with(InMemoryBackend::new())
    }

    fn new_initialized() -> Self {
        Self::with(InMemoryBackend::new_initialized())
    }

    fn tell(&self, notice: Option<Notice>) {
        if let Some(notice) = notice {
            for number in &notice.observers {
                self.told.borrow_mut().push((*number, copy(&notice.event)));
            }
        }
    }

    fn upsert(&self, collection: &str, doc: Document) -> Result<String, String> {
        let (id, notice) = self.inner.borrow_mut().upsert(collection, doc);
        self.tell(Some(notice));
        Ok(id)
    }

    fn query(&self, collection: &str, query: &Query) -> Result<Vec<Document>, String> {
        Ok(self.inner.borrow().query(collection, query))
    }

    fn get(&self, collection: &str, id: &String) -> Result<Option<Document>, String> {
        Ok(self.inner.borrow().get(collection, id))
    }

    fn count(&self, collection: &str, query: &Query) -> Result<usize, String> {
        Ok(self.inner.borrow().count(collection, query))
    }

    fn remove(&self, collection: &str, id: &String) -> Result<(), String> {
        let notice = self.inner.borrow_mut().remove(collection, id);
        self.tell(notice);
        Ok(())
    }

    fn observe(&self, collection: &str, _query: &Query) -> Result<Stream, String> {
        let number = self.inner.borrow_mut().observe(collection, Query::All);
        Ok(Stream { number, told: self.told.clone() })
    }

    fn delete(&self, collection: &str, id: &String, reason: Option<&str>) -> Result<DeleteResult, String> {
        let (result, notice) = self.inner.borrow_mut().delete(collection, id, reason);
        self.tell(notice);
        Ok(result)
    }

    fn set_deletion_policy(&self, collection: &str, policy: DeletionPolicy) {
        self.inner.borrow_mut().set_deletion_policy(collection, policy);
    }

    fn get_tombstones(&self, collection: &str) -> Result<Vec<Tombstone>, String> {
        Ok(self.inner.borrow().get_tombstones(collection))
    }

    fn apply_tombstone(&self, tombstone: &Tombstone) -> Result<(), String> {
        let notice = self.inner.borrow_mut().apply_tombstone(tombstone);
        self.tell(notice);
        Ok(())
    }

    fn add_peer(&self, address: &str, transport: TransportType) -> Result<PeerInfo, String> {
        Ok(self.inner.borrow_mut().add_peer(address, transport))
    }

    fn discovered_peers(&self) -> Result<Vec<PeerInfo>, String> {
        Ok(self.inner.borrow().discovered_peers())
    }

    fn start_sync(&self) -> Result<(), String> {
        self.inner.borrow_mut().start_sync();
        Ok(())
    }

    fn stop_sync(&self) -> Result<(), String> {
        self.inner.borrow_mut().stop_sync();
        Ok(())
    }

    fn is_syncing(&self) -> Result<bool, String> {
        Ok(self.inner.borrow().is_syncing())
    }

    fn subscribe(&self, collection: &str, _query: &Query) -> Result<SyncSubscription, String> {
        Ok(self.inner.borrow_mut().subscribe(collection))
    }

    fn initialize(&self, config: BackendConfig) -> Result<(), String> {
        self.inner.borrow_mut().initialize(config);
        Ok(())
    }

    fn shutdown(&self) -> Result<(), String> {
        self.inner.borrow_mut().shutdown();
        Ok(())
    }

    fn is_ready(&self) -> bool {
        self.inner.borrow().is_ready()
    }

    fn backend_info(&self) -> BackendInfo {
        self.inner.borrow().backend_info()
    }

    fn document_count(&self) -> usize {
        self.inner.borrow().document_count()
    }

    fn collection_count(&self) -> usize {
        self.inner.borrow().collection_count()
    }

    fn clear_collection(&self, collection: &str) {
        self.inner.borrow_mut().clear_collection(collection);
    }
}

// --- DocumentStore: upsert ---

#[test]
fn test_upsert_new_document() {
    let backend = Backend::new_initialized();
    let doc = Document::new(fields([("name", Json::text("test"))]));

    let id = backend.upsert("col", doc).unwrap();
    assert!(!id.is_empty());

    let result = backend.get("col", &id).unwrap();
    assert!(result.is_some());
    assert!(same(result.unwrap().get("name"), Json::text("test")));
}

#[test]
fn test_upsert_update_existing() {
    let backend = Backend::new_initialized();
    let doc = Document::with_id(
        "d1",
        fields([("v", Json::unsigned(1))]),
    );
    backend.upsert("col", doc).unwrap();

    // Update
    let doc2 = Document::with_id(
        "d1",
        fields([("v", Json::unsigned(2))]),
    );
    backend.upsert("col", doc2).unwrap();

    let result = backend
        .get("col", &"d1".to_string())
        .unwrap()
        .unwrap();
    assert!(same(result.get("v"), Json::unsigned(2)));
}

#[test]
fn test_upsert_with_id() {
    let backend = Backend::new_initialized();
    let doc = Document::with_id("my-id", fields([]));
    let id = backend.upsert("col", doc).unwrap();
    assert_eq!(id, "my-id");
}

// --- DocumentStore: query ---

#[test]
fn test_query_all() {
    let backend = Backend::new_initialized();
    backend
        .upsert("col", Document::with_id("a", fields([])))
        .unwrap();
    backend
        .upsert("col", Document::with_id("b", fields([])))
        .unwrap();

    let results = backend.query("col", &Query::All).unwrap();
    assert_eq!(results.len(), 2);
}

#[test]
fn test_query_eq() {
    let backend = Backend::new_initialized();
    backend
        .upsert(
            "col",
            Document::with_id(
                "d1",
                fields([("status", Json::text("active"))]),
            ),
        )
        .unwrap();
    backend
        .upsert(
            "col",
            Document::with_id(
                "d2",
                fields([("status", Json::text("inactive"))]),
            ),
        )
        .unwrap();

    let results = backend
        .query(
            "col",
            &Query::Eq {
                field: "status".to_string(),
                value: Json::text("active"),
            },
        )
        .unwrap();
    assert_eq!(results.len(), 1);
    assert_eq!(results[0].id, Some("d1".to_string()));
}

#[test]
fn test_query_eq_by_id() {
    let backend = Backend::new_initialized();
    backend
        .upsert("col", Document::with_id("d1", fields([])))
        .unwrap();
    backend
        .upsert("col", Document::with_id("d2", fields([])))
        .unwrap();

    let results = backend
        .query(
            "col",
            &Query::Eq {
                field: "id".to_string(),
                value: Json::text("d1"),
            },
        )
        .unwrap();
    assert_eq!(results.len(), 1);
}

#[test]
fn test_query_lt() {
    let backend = Backend::new_initialized();
    backend
        .upsert(
            "col",
            Document::with_id(
                "d1",
                fields([("score", Json::unsigned(10))]),
            ),
        )
        .unwrap();
    backend
        .upsert(
            "col",
            Document::with_id(
                "d2",
                fields([("score", Json::unsigned(20))]),
            ),
        )
        .unwrap();

    let results = backend
        .query(
            "col",
            &Query::Lt {
                field: "score".to_string(),
                value: Json::unsigned(15),
            },
        )
        .unwrap();
    assert_eq!(results.len(), 1);
    assert_eq!(results[0].id, Some("d1".to_string()));
}

#[test]
fn test_query_gt() {
    let backend = Backend::new_initialized();
    backend
        .upsert(
            "col",
            Document::with_id(
                "d1",
                fields([("score", Json::unsigned(10))]),
            ),
        )
        .unwrap();
    backend
        .upsert(
            "col",
            Document::with_id(
                "d2",
                fields([("score", Json::unsigned(20))]),
            ),
        )
        .unwrap();

    let results = backend
        .query(
            "col",
            &Query::Gt {
                field: "score".to_string(),
                value: Json::unsigned(15),
            },
        )
        .unwrap();
    assert_eq!(results.len(), 1);
    assert_eq!(results[0].id, Some("d2".to_string()));
}

#[test]
fn test_query_and() {
    let backend = Backend::new_initialized();
    backend
        .upsert(
            "col",
            Document::with_id(
                "d1",
                fields([
                    ("type", Json::text("sensor")),
                    ("score", Json::unsigned(10)),
                ]),
            ),
        )
        .unwrap();
    backend
        .upsert(
            "col",
            Document::with_id(
                "d2",
                fields([
                    ("type", Json::text("sensor")),
                    ("score", Json::unsigned(20)),
                ]),
            ),
        )
        .unwrap();

    let results = backend
        .query(
            "col",
            &Query::And(vec![
                Query::Eq {
                    field: "type".to_string(),
                    value: Json::text("sensor"),
                },
                Query::Gt {
                    field: "score".to_string(),
                    value: Json::unsigned(15),
                },
            ]),
        )
        .unwrap();
    assert_eq!(results.len(), 1);
    assert_eq!(results[0].id, Some("d2".to_string()));
}

#[test]
fn test_query_or() {
    let backend = Backend::new_initialized();
    backend
        .upsert(
            "col",
            Document::with_id(
                "d1",
                fields([("status", Json::text("active"))]),
            ),
        )
        .unwrap();
    backend
        .upsert(
            "col",
            Document::with_id(
                "d2",
                fields([("status", Json::text("pending"))]),
            ),
        )
        .unwrap();
    backend
        .upsert(
            "col",
            Document::with_id(
                "d3",
                fields([("status", Json::text("inactive"))]),
            ),
        )
        .unwrap();

    let results = backend
        .query(
            "col",
            &Query::Or(vec![
                Query::Eq {
                    field: "status".to_string(),
                    value: Json::text("active"),
                },
                Query::Eq {
                    field: "status".to_string(),
                    value: Json::text("pending"),
                },
            ]),
        )
        .unwrap();
    assert_eq!(results.len(), 2);
}

#[test]
fn test_query_not() {
    let backend = Backend::new_initialized();
    backend
        .upsert(
            "col",
            Document::with_id(
                "d1",
                fields([("status", Json::text("active"))]),
            ),
        )
        .unwrap();
    backend
        .upsert(
            "col",
            Document::with_id(
                "d2",
                fields([("status", Json::text("inactive"))]),
            ),
        )
        .unwrap();

    let results = backend
        .query(
            "col",
            &Query::Not(Box::new(Query::Eq {
                field: "status".to_string(),
                value: Json::text("inactive"),
            })),
        )
        .unwrap();
    assert_eq!(results.len(), 1);
    assert_eq!(results[0].id, Some("d1".to_string()));
}

#[test]
fn test_query_within_radius() {
    let backend = Backend::new_initialized();
    // San Francisco
    backend
        .upsert(
            "beacons",
            Document::with_id(
                "sf",
                fields([
                    ("lat", double(37.7749)),
                    ("lon", double(-122.4194)),
                ]),
            ),
        )
        .unwrap();
    // Los Angeles (far away)
    backend
        .upsert(
            "beacons",
            Document::with_id(
                "la",
                fields([
                    ("lat", double(34.0522)),
                    ("lon", double(-118.2437)),
                ]),
            ),
        )
        .unwrap();

    let results = backend
        .query(
            "beacons",
            &within_radius(&backend, "beacons", 37.78, -122.42, 5000.0),
        )
        .unwrap();
    assert_eq!(results.len(), 1);
    assert_eq!(results[0].id, Some("sf".to_string()));
}

#[test]
fn test_query_within_bounds() {
    let backend = Backend::new_initialized();
    backend
        .upsert(
            "beacons",
            Document::with_id(
                "in",
                fields([
                    ("lat", double(37.5)),
                    ("lon", double(-122.5)),
                ]),
            ),
        )
        .unwrap();
    backend
        .upsert(
            "beacons",
            Document::with_id(
                "out",
                fields([
                    ("lat", double(40.0)),
                    ("lon", double(-120.0)),
                ]),
            ),
        )
        .unwrap();

    let results = backend
        .query(
            "beacons",
            &Query::WithinBounds {
                min: point(37.0, -123.0),
                max: point(38.0, -122.0),
                lat_field: None,
                lon_field: None,
            },
        )
        .unwrap();
    assert_eq!(results.len(), 1);
    assert_eq!(results[0].id, Some("in".to_string()));
}

#[test]
fn test_query_deletion_filters() {
    let backend = Backend::new_initialized();
    backend
        .upsert(
            "col",
            Document::with_id(
                "alive",
                fields([("name", Json::text("alive"))]),
            ),
        )
        .unwrap();

    let mut deleted_fields: VecMap<String, Json> = VecMap::new();
    deleted_fields.insert("name".to_string(), Json::text("deleted"));
    deleted_fields.insert("_deleted".to_string(), Json::Bool(true));
    backend
        .upsert("col", Document::with_id("dead", deleted_fields))
        .unwrap();

    // Normal query excludes deleted
    let results = backend.query("col", &Query::All).unwrap();
    assert_eq!(results.len(), 1);

    // IncludeDeleted shows all
    let results = backend
        .query("col", &Query::IncludeDeleted(Box::new(Query::All)))
        .unwrap();
    assert_eq!(results.len(), 2);

    // DeletedOnly shows only deleted
    let results = backend.query("col", &Query::DeletedOnly).unwrap();
    assert_eq!(results.len(), 1);
    assert_eq!(results[0].id, Some("dead".to_string()));
}

// --- DocumentStore: remove ---

#[test]
fn test_remove_document() {
    let backend = Backend::new_initialized();
    backend
        .upsert("col", Document::with_id("d1", fields([])))
        .unwrap();

    backend.remove("col", &"d1".to_string()).unwrap();
    let result = backend.get("col", &"d1".to_string()).unwrap();
    assert!(result.is_none());
}

// --- DocumentStore: get ---

#[test]
fn test_get_nonexistent() {
    let backend = Backend::new_initialized();
    let result = backend.get("col", &"missing".to_string()).unwrap();
    assert!(result.is_none());
}

// --- DocumentStore: count ---

#[test]
fn test_count() {
    let backend = Backend::new_initialized();
    backend
        .upsert("col", Document::with_id("a", fields([])))
        .unwrap();
    backend
        .upsert("col", Document::with_id("b", fields([])))
        .unwrap();

    let count = backend.count("col", &Query::All).unwrap();
    assert_eq!(count, 2);
}

// --- DocumentStore: observe ---

#[test]
fn test_observe_updates() {
    let backend = Backend::new_initialized();

    let stream = backend.observe("col", &Query::All).unwrap();

    // Insert a document
    backend
        .upsert(
            "col",
            Document::with_id(
                "d1",
                fields([("v", Json::unsigned(1))]),
            ),
        )
        .unwrap();

    // Should receive update
    let event = stream.next().unwrap();
    match event {
        ChangeEvent::Updated { document, .. } => {
            assert_eq!(document.id, Some("d1".to_string()));
        }
        _ => panic!("Expected Updated event"),
    }
}

#[test]
fn test_observe_removals() {
    let backend = Backend::new_initialized();

    let stream = backend.observe("col", &Query::All).unwrap();

    backend
        .upsert("col", Document::with_id("d1", fields([])))
        .unwrap();
    // Consume the update event
    let _ = stream.next();

    // Remove
    backend.remove("col", &"d1".to_string()).unwrap();

    let event = stream.next().unwrap();
    match event {
        ChangeEvent::Removed { doc_id, .. } => {
            assert_eq!(doc_id, "d1");
        }
        _ => panic!("Expected Removed event"),
    }
}

// --- DocumentStore: delete policies ---

#[test]
fn test_delete_soft() {
    let backend = Backend::new_initialized();
    backend
        .upsert("col", Document::with_id("d1", fields([])))
        .unwrap();

    let result = backend
        .delete("col", &"d1".to_string(), None)
        .unwrap();
    assert!(result.deleted);

    // The document still exists, marked as deleted
    let results = backend
        .query("col", &Query::IncludeDeleted(Box::new(Query::All)))
        .unwrap();
    assert_eq!(results.len(), 1);
    assert!(same(results[0].get("_deleted"), Json::Bool(true)));

    // What is marked as deleted is not given
    let doc = backend.get("col", &"d1".to_string()).unwrap();
    assert!(doc.is_none()); // Excluded by deletion filter
}

#[test]
fn test_delete_tombstone() {
    let backend = Backend::new_initialized();
    backend
        .set_deletion_policy(
            "col",
            DeletionPolicy::Tombstone {
                tombstone_ttl_ms: 3_600_000,
                delete_wins: true,
            },
        );

    backend
        .upsert("col", Document::with_id("d1", fields([])))
        .unwrap();

    let result = backend
        .delete("col", &"d1".to_string(), Some("test reason"))
        .unwrap();
    assert!(result.deleted);
    assert!(result.tombstone_id.is_some());

    // Document removed
    let doc = backend.get("col", &"d1".to_string()).unwrap();
    assert!(doc.is_none());

    // Tombstone exists
    let tombstones = backend.get_tombstones("col").unwrap();
    assert_eq!(tombstones.len(), 1);
    assert_eq!(tombstones[0].document_id, "d1");
    assert_eq!(tombstones[0].reason, Some("test reason".to_string()));
}

#[test]
fn test_delete_immutable() {
    let backend = Backend::new_initialized();
    backend
        .set_deletion_policy("col", DeletionPolicy::Immutable);

    backend
        .upsert("col", Document::with_id("d1", fields([])))
        .unwrap();

    let result = backend
        .delete("col", &"d1".to_string(), None)
        .unwrap();
    assert!(!result.deleted);

    // Document still exists
    let doc = backend.get("col", &"d1".to_string()).unwrap();
    assert!(doc.is_some());
}

#[test]
fn test_tombstone_operations() {
    let backend = Backend::new_initialized();
    backend
        .upsert("col", Document::with_id("d1", fields([])))
        .unwrap();

    let tombstone = Tombstone {
        collection: "col".to_string(),
        document_id: "d1".to_string(),
        deleted_at: now_ms(),
        deleted_by: "remote-node".to_string(),
        lamport: 5,
        reason: None,
    };

    backend.apply_tombstone(&tombstone).unwrap();

    let doc = backend.get("col", &"d1".to_string()).unwrap();
    assert!(doc.is_none());

    let tombstones = backend.get_tombstones("col").unwrap();
    assert_eq!(tombstones.len(), 1);
}

// --- PeerDiscovery ---

#[test]
fn test_add_peer() {
    let backend = Backend::new_initialized();
    backend
        .add_peer("192.168.1.1:5000", TransportType::Tcp)
        .unwrap();

    let peers = backend.discovered_peers().unwrap();
    assert_eq!(peers.len(), 1);
    assert!(peers[0].connected);
}

// --- SyncEngine ---

#[test]
fn test_start_stop_sync() {
    let backend = Backend::new_initialized();

    assert!(!backend.is_syncing().unwrap());

    backend.start_sync().unwrap();
    assert!(backend.is_syncing().unwrap());

    backend.stop_sync().unwrap();
    assert!(!backend.is_syncing().unwrap());
}

#[test]
fn test_subscribe() {
    let backend = Backend::new_initialized();
    let sub = backend.subscribe("beacons", &Query::All).unwrap();
    assert_eq!(sub.collection(), "beacons");
}

#[test]
fn test_is_syncing() {
    let backend = Backend::new_initialized();
    assert!(!backend.is_syncing().unwrap());
}

// --- DataSyncBackend ---

#[test]
fn test_lifecycle() {
    let backend = Backend::new();

    assert!(!backend.is_ready());

    backend
        .initialize(BackendConfig {
            app_id: "test".to_string(),
            persistence_dir: "/tmp/test".to_string(),
            shared_key: None,
        })
        .unwrap();

    assert!(backend.is_ready());

    backend.shutdown().unwrap();
    assert!(!backend.is_ready());
}

#[test]
fn test_backend_info() {
    let backend = Backend::new_initialized();
    let info = backend.backend_info();
    assert_eq!(info.name, "InMemory");
}

#[test]
fn test_is_ready() {
    let backend = Backend::new();
    assert!(!backend.is_ready());

    let backend = Backend::new_initialized();
    assert!(backend.is_ready());
}

// --- Convenience API ---

#[test]
fn test_document_count() {
    let backend = Backend::new_initialized();
    assert_eq!(backend.document_count(), 0);

    backend
        .upsert("a", Document::with_id("d1", fields([])))
        .unwrap();
    backend
        .upsert("b", Document::with_id("d2", fields([])))
        .unwrap();

    assert_eq!(backend.document_count(), 2);
}

#[test]
fn test_collection_count() {
    let backend = Backend::new_initialized();
    assert_eq!(backend.collection_count(), 0);

    backend
        .upsert("a", Document::with_id("d1", fields([])))
        .unwrap();
    backend
        .upsert("b", Document::with_id("d2", fields([])))
        .unwrap();

    assert_eq!(backend.collection_count(), 2);
}

#[test]
fn test_clear_collection() {
    let backend = Backend::new_initialized();
    backend
        .upsert("col", Document::with_id("d1", fields([])))
        .unwrap();
    backend
        .upsert("col", Document::with_id("d2", fields([])))
        .unwrap();

    assert_eq!(backend.document_count(), 2);
    backend.clear_collection("col");
    assert_eq!(backend.document_count(), 0);
}

#[test]
fn test_default_impl() {
    let _backend: InMemoryBackend = Default::default();
    assert!(!_backend.is_ready());
}

// --- Integration ---

#[test]
fn test_full_workflow() {
    let backend = Backend::new();

    // Initialize
    backend
        .initialize(BackendConfig {
            app_id: "integration-test".to_string(),
            persistence_dir: "/tmp/test".to_string(),
            shared_key: None,
        })
        .unwrap();
    assert!(backend.is_ready());

    // Start sync
    backend.start_sync().unwrap();
    assert!(backend.is_syncing().unwrap());

    // Subscribe
    let _sub = backend.subscribe("beacons", &Query::All).unwrap();

    // Add peer
    backend
        .add_peer("192.168.1.1:5000", TransportType::Tcp)
        .unwrap();

    // CRUD operations via trait
    let store = &backend;
    let id = store
        .upsert(
            "beacons",
            Document::new(fields([
                ("lat", double(37.7749)),
                ("lon", double(-122.4194)),
                ("name", Json::text("SF HQ")),
            ])),
        )
        .unwrap();

    let results = store.query("beacons", &Query::All).unwrap();
    assert_eq!(results.len(), 1);
    assert!(same(results[0].get("name"), Json::text("SF HQ")));

    // Spatial query
    let nearby = store
        .query(
            "beacons",
            &within_radius(&backend, "beacons", 37.78, -122.42, 5000.0),
        )
        .unwrap();
    assert_eq!(nearby.len(), 1);

    // Delete
    store
        .delete("beacons", &id, Some("decommissioned"))
        .unwrap();

    // Stop
    backend.stop_sync().unwrap();
    backend.shutdown().unwrap();
}

// --- Query evaluator unit tests ---

#[test]
fn test_evaluate_query_custom() {
    let doc = Document::with_id("d1", fields([]));
    assert!(evaluate_query(&doc, &Query::Custom("anything".to_string())));
}

#[test]
fn test_evaluate_query_missing_field_lt() {
    let doc = Document::with_id("d1", fields([]));
    let query = Query::Lt {
        field: "missing".to_string(),
        value: Json::unsigned(10),
    };
    assert!(!evaluate_query(&doc, &query));
}

#[test]
fn test_evaluate_query_missing_field_gt() {
    let doc = Document::with_id("d1", fields([]));
    let query = Query::Gt {
        field: "missing".to_string(),
        value: Json::unsigned(10),
    };
    assert!(!evaluate_query(&doc, &query));
}

#[test]
fn test_compare_values_strings() {
    let a = Json::text("apple");
    let b = Json::text("banana");
    assert_eq!(compare_values(&a, &b), Some(Order::Less));
}

#[test]
fn test_compare_values_incompatible() {
    let a = Json::text("string");
    let b = Json::unsigned(42);
    assert_eq!(compare_values(&a, &b), None);
}

#[test]
fn test_wait_for_peer_success() {
    let mut backend = InMemoryBackend::new_initialized();
    let peer = "peer-10.0.0.1:5000".to_string();
    assert!(matches!(backend.wait_for_peer(&peer, 0, 2000), WaitStep::Wait(50)));
    backend.add_peer("10.0.0.1:5000", TransportType::Tcp);
    assert!(matches!(backend.wait_for_peer(&peer, 50, 2000), WaitStep::Found));
    assert_eq!(backend.get_peer_info(&peer).unwrap().address, Some("10.0.0.1:5000".to_string()));
}

#[test]
fn test_wait_for_peer_timeout() {
    let backend = InMemoryBackend::new_initialized();
    match backend.wait_for_peer(&"missing-peer".to_string(), 100, 100) {
        WaitStep::TimedOut(text) => assert_eq!(text, "Timeout waiting for peer missing-peer"),
        other => panic!("expected TimedOut, got {:?}", other),
    }
}

#[test]
fn test_generated_id_is_a_random_uuid() {
    let mut backend = InMemoryBackend::new();
    let (a, _) = backend.upsert("col", Document::new(fields([])));
    let (b, _) = backend.upsert("col", Document::new(fields([])));
    assert_ne!(a, b);
    assert_eq!(a.len(), 36);
    assert_eq!(&a[14..15], "4");
}

#[test]
fn test_upsert_at_keeps_the_time() {
    let mut backend = InMemoryBackend::new();
    let doc = Document::with_id("d", fields([("v", Json::unsigned(1))]));
    let (id, notice) = backend.upsert_at("col", doc, "unused".to_string(), 123);
    assert_eq!(id, "d");
    assert!(notice.observers.is_empty());
    assert_eq!(backend.get("col", &id).unwrap().updated_at, 123);
}

#[test]
fn test_tombstone_expiry() {
    let mut backend = InMemoryBackend::new();
    backend.set_deletion_policy("col", DeletionPolicy::Tombstone { tombstone_ttl_ms: 10, delete_wins: true });
    backend.upsert("col", Document::with_id("d", fields([])));
    let (result, notice) = backend.delete_at("col", &"d".to_string(), Some("gone"), 100);
    assert_eq!(result.expires_at, Some(110));
    assert_eq!(result.policy, backend.deletion_policy("col"));
    assert!(matches!(notice.unwrap().event, ChangeEvent::Removed { .. }));
    assert_eq!(backend.get_tombstones("col")[0].deleted_at, 100);
    assert!(backend.get_tombstones("other").is_empty());
}

#[test]
fn test_only_watchers_of_the_collection_are_told() {
    let backend = Backend::new();
    let one = backend.observe("a", &Query::All).unwrap();
    let two = backend.observe("b", &Query::All).unwrap();
    backend.upsert("b", Document::with_id("d", fields([]))).unwrap();
    assert!(one.next().is_none());
    assert!(two.next().is_some());
    assert!(two.next().is_none());
}

#[test]
fn test_numbers_compare_as_doubles() {
    let big = Json::unsigned(u64::MAX);
    assert_eq!(compare_values(&double(18446744073709551616.0), &big), Some(Order::Equal));
    assert_eq!(compare_values(&Json::Number(Number::Negative(-1)), &double(-0.5)), Some(Order::Less));
    assert_eq!(compare_values(&Json::unsigned(2), &Json::unsigned(1)), Some(Order::Greater));
    assert_eq!(compare_values(&double(f64::NAN), &double(1.0)), None);
    assert_eq!(compare_values(&Json::text("a"), &Json::text("\u{e9}")), Some(Order::Less));
    for n in [0u64, 1, (1 << 53) - 1, (1 << 53) + 1, (1 << 54) + 2, (1 << 54) + 6, u64::MAX] {
        assert_eq!(Number::Unsigned(n).to_double_bits(), (n as f64).to_bits());
        let i = -((n / 2) as i64) - 1;
        assert_eq!(Number::Negative(i).to_double_bits(), (i as f64).to_bits());
    }
}

#[test]
fn test_de_morgan() {
    let doc = Document::with_id("d", fields([("n", Json::unsigned(5))]));
    let below = || Query::Lt { field: "n".to_string(), value: Json::unsigned(6) };
    let above = || Query::Gt { field: "n".to_string(), value: Json::unsigned(6) };
    let neither = Query::Not(Box::new(Query::Or(vec![below(), above()])));
    let both = Query::And(vec![Query::Not(Box::new(below())), Query::Not(Box::new(above()))]);
    assert_eq!(evaluate_query(&doc, &neither), evaluate_query(&doc, &both));
    assert!(evaluate_query(&doc, &Query::And(vec![])));
    assert!(!evaluate_query(&doc, &Query::Or(vec![])));
}
