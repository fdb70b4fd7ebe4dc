//! Certificates and revocations in documents.

use base64::Engine;
use peat_mesh::clock::now_ms;
use peat_mesh::security::certificate::{MeshCertificate, MeshTier};
use peat_mesh::security::enrollment::{
    EnrollmentRequest, EnrollmentService, EnrollmentStatus, StaticEnrollmentService,
};
use peat_mesh::security::error::SecurityError;
use peat_mesh::security::keypair::DeviceKeypair;
use peat_mesh::security::permissions;
use peat_mesh::json::Json;
use peat_mesh::storage::automerge_store::AutomergeStore;
use peat_mesh::storage::certificate_store::{
    CertificateEntry, CertificateStore, RevocationEntry, CERTIFICATES_COLLECTION, REVOCATIONS_COLLECTION,
};
use peat_mesh::storage::typed_collection::TypedCollection;

fn make_store() -> AutomergeStore {
    AutomergeStore::in_memory()
}

fn doubles(bits: u64) -> automerge::ScalarValue {
    automerge::ScalarValue::F64(f64::from_bits(bits))
}

fn make_cert(
    authority: &DeviceKeypair,
    member: &DeviceKeypair,
    node_id: &str,
    tier: MeshTier,
) -> MeshCertificate {
    let now = now_ms();
    MeshCertificate::new(
        member.public_key_bytes(),
        "DEADBEEF".to_string(),
        node_id.to_string(),
        tier,
        permissions::STANDARD,
        now,
        now + 3600000,
        authority.public_key_bytes(),
    )
    .signed(authority)
}

#[test]
fn test_publish_and_load_certificate() {
    let mut store = make_store();
    let authority = DeviceKeypair::generate();
    let member = DeviceKeypair::generate();

    let mut cert_store = CertificateStore::new(&[authority.public_key_bytes()]);
    let cert = make_cert(&authority, &member, "tac-1", MeshTier::Tactical);

    cert_store.publish_certificate(&mut store, &cert, &doubles).unwrap();

    // Bundle should have it immediately
    let b = cert_store.bundle();
    assert!(b.validate_node_id("tac-1", now_ms()));
    assert_eq!(b.len(), 1);
}

#[test]
fn test_load_all_from_crdt() {
    let mut store = make_store();
    let authority = DeviceKeypair::generate();

    let mut cert_store = CertificateStore::new(&[authority.public_key_bytes()]);

    // Publish 3 certs
    for i in 0..3 {
        let member = DeviceKeypair::generate();
        let cert = make_cert(
            &authority,
            &member,
            &format!("node-{i}"),
            MeshTier::Tactical,
        );
        cert_store.publish_certificate(&mut store, &cert, &doubles).unwrap();
    }

    // Create a new CertificateStore from the same underlying store
    let mut cert_store2 = CertificateStore::new(&[authority.public_key_bytes()]);
    let loaded = cert_store2.load_all(&store);
    assert_eq!(loaded, 3);

    let b = cert_store2.bundle();
    assert_eq!(b.len(), 3);
    assert!(b.validate_node_id("node-0", now_ms()));
    assert!(b.validate_node_id("node-1", now_ms()));
    assert!(b.validate_node_id("node-2", now_ms()));
}

#[test]
fn test_revocation_skips_on_load() {
    let mut store = make_store();
    let authority = DeviceKeypair::generate();
    let member = DeviceKeypair::generate();

    let mut cert_store = CertificateStore::new(&[authority.public_key_bytes()]);
    let cert = make_cert(&authority, &member, "revoked-node", MeshTier::Tactical);

    cert_store.publish_certificate(&mut store, &cert, &doubles).unwrap();
    cert_store
        .publish_revocation(&mut store, &member.public_key_bytes(), "compromised", &doubles)
        .unwrap();

    // New store should skip the revoked cert
    let mut cert_store2 = CertificateStore::new(&[authority.public_key_bytes()]);
    let loaded = cert_store2.load_all(&store);
    assert_eq!(loaded, 0);
}

#[test]
fn test_certificate_entry_roundtrip() {
    let authority = DeviceKeypair::generate();
    let member = DeviceKeypair::generate();
    let cert = make_cert(&authority, &member, "hub-1", MeshTier::Regional);

    let entry = CertificateEntry::from_certificate(&cert);
    let decoded = entry.to_certificate().unwrap();

    assert_eq!(decoded.subject_public_key, cert.subject_public_key);
    assert_eq!(decoded.mesh_id, cert.mesh_id);
    assert_eq!(decoded.node_id, "hub-1");
    assert_eq!(decoded.tier, MeshTier::Regional);
    assert!(decoded.verify().is_ok());
}

#[test]
fn test_publish_root_certificate() {
    let mut store = make_store();
    let authority = DeviceKeypair::generate();

    let mut cert_store = CertificateStore::new(&[authority.public_key_bytes()]);

    let root = MeshCertificate::new_root(
        &authority,
        "DEADBEEF".to_string(),
        "enterprise-0".to_string(),
        MeshTier::Enterprise,
        now_ms(),
        0,
    );

    cert_store.publish_certificate(&mut store, &root, &doubles).unwrap();

    let b = cert_store.bundle();
    assert!(b.validate_node_id("enterprise-0", now_ms()));
}

#[test]
fn test_rebuild_after_revocation() {
    let mut store = make_store();
    let authority = DeviceKeypair::generate();
    let member1 = DeviceKeypair::generate();
    let member2 = DeviceKeypair::generate();

    let mut cert_store = CertificateStore::new(&[authority.public_key_bytes()]);

    let cert1 = make_cert(&authority, &member1, "node-a", MeshTier::Tactical);
    let cert2 = make_cert(&authority, &member2, "node-b", MeshTier::Tactical);

    cert_store.publish_certificate(&mut store, &cert1, &doubles).unwrap();
    cert_store.publish_certificate(&mut store, &cert2, &doubles).unwrap();

    // Revoke node-a
    cert_store
        .publish_revocation(&mut store, &member1.public_key_bytes(), "lost device", &doubles)
        .unwrap();

    // Rebuild should exclude revoked cert
    cert_store.rebuild_bundle(&store);

    let b = cert_store.bundle();
    // node-b should still be valid; node-a's cert left the bundle
    assert!(b.validate_node_id("node-b", now_ms()));
    assert!(b.get_certificate(&member1.public_key_bytes()).is_none());
    assert!(!b.validate_peer(&member1.public_key_bytes(), now_ms()));
    assert!(!b.validate_node_id("node-a", now_ms()));
    assert_eq!(b.authority_count(), 1);
}

/// End-to-end enrollment flow: request, service issues cert, publish to CRDT, bundle
/// validates, revoke, bundle rejects on rebuild.
#[test]
fn test_enrollment_to_crdt_flow() {
    let mut store = make_store();
    let authority = DeviceKeypair::generate();
    let member = DeviceKeypair::generate();

    // Authority sets up enrollment service
    let mut svc = StaticEnrollmentService::new(
        authority.clone(),
        "test-mesh".to_string(),
        3600000, // 1 hour
    );
    svc.add_token(
        b"bootstrap-123".to_vec(),
        MeshTier::Tactical,
        permissions::STANDARD,
    );

    // Member creates enrollment request
    let request = EnrollmentRequest::new(
        &member,
        "test-mesh".to_string(),
        "tac-node-1".to_string(),
        MeshTier::Tactical,
        b"bootstrap-123".to_vec(),
        now_ms(),
    );

    // Service processes the request and issues a certificate
    let response = svc.process_request(&request).unwrap();
    assert_eq!(
        response.status,
        EnrollmentStatus::Approved
    );
    let cert = response
        .certificate
        .expect("approved response should have certificate");

    // Verify the certificate is valid
    assert!(cert.verify().is_ok());
    assert_eq!(cert.node_id, "tac-node-1");
    assert_eq!(cert.subject_public_key, member.public_key_bytes());

    // Publish certificate to CRDT store
    let mut cert_store = CertificateStore::new(&[authority.public_key_bytes()]);
    cert_store.publish_certificate(&mut store, &cert, &doubles).unwrap();

    // Bundle should validate the new peer
    {
        let b = cert_store.bundle();
        assert!(b.validate_node_id("tac-node-1", now_ms()));
        assert_eq!(b.get_node_tier("tac-node-1"), Some(MeshTier::Tactical));
    }

    // Simulate: load from a fresh store (as another node would after sync)
    let mut cert_store2 = CertificateStore::new(&[authority.public_key_bytes()]);
    let loaded = cert_store2.load_all(&store);
    assert_eq!(loaded, 1);
    {
        let b = cert_store2.bundle();
        assert!(b.validate_node_id("tac-node-1", now_ms()));
    }

    // Revoke the member
    cert_store
        .publish_revocation(&mut store, &member.public_key_bytes(), "compromised device", &doubles)
        .unwrap();
    cert_store.rebuild_bundle(&store);
    assert!(!cert_store.bundle().validate_node_id("tac-node-1", now_ms()));

    // A third store loading fresh should not see the revoked cert
    let mut cert_store3 = CertificateStore::new(&[authority.public_key_bytes()]);
    let loaded = cert_store3.load_all(&store);
    assert_eq!(loaded, 0, "revoked certificate should not be loaded");
}

/// Enrollment with bad token is denied.
#[test]
fn test_enrollment_bad_token_denied() {
    let authority = DeviceKeypair::generate();
    let member = DeviceKeypair::generate();

    let svc = StaticEnrollmentService::new(authority, "mesh-1".to_string(), 3600000);
    // No tokens registered

    let request = EnrollmentRequest::new(
        &member,
        "mesh-1".to_string(),
        "rogue-node".to_string(),
        MeshTier::Tactical,
        b"invalid-token".to_vec(),
        now_ms(),
    );

    let response = svc.process_request(&request).unwrap();
    assert!(matches!(response.status, EnrollmentStatus::Denied { .. }));
    assert!(response.certificate.is_none());
}

/// Layer 2 gating: validate_peer with EndpointId-style bytes.
#[test]
fn test_bundle_validate_peer_bytes() {
    let mut store = make_store();
    let authority = DeviceKeypair::generate();
    let member = DeviceKeypair::generate();

    let mut cert_store = CertificateStore::new(&[authority.public_key_bytes()]);
    let cert = make_cert(&authority, &member, "node-x", MeshTier::Tactical);
    cert_store.publish_certificate(&mut store, &cert, &doubles).unwrap();

    let b = cert_store.bundle();

    // validate_peer checks subject_public_key bytes
    assert!(b.validate_peer(&member.public_key_bytes(), now_ms()));

    // Unknown key should fail
    let unknown = DeviceKeypair::generate();
    assert!(!b.validate_peer(&unknown.public_key_bytes(), now_ms()));
}

#[test]
fn test_certificate_entry_content() {
    let authority = DeviceKeypair::from_secret([4u8; 32]);
    let cert = MeshCertificate::new(
        [0xABu8; 32],
        "DEADBEEF".to_string(),
        "n".to_string(),
        MeshTier::Edge,
        permissions::RELAY,
        1,
        2,
        authority.public_key_bytes(),
    )
    .signed(&authority);
    let entry = CertificateEntry::from_certificate_at(&cert, 99);
    assert_eq!(entry.subject, "ab".repeat(32));
    assert_eq!(entry.issuer, hex::encode(authority.public_key_bytes()));
    assert_eq!(entry.tier, "Edge");
    assert_eq!(entry.written_at_ms, 99);
    assert_eq!(entry.cert_data, base64::engine::general_purpose::STANDARD.encode(cert.encode()));
}

#[test]
fn test_bad_entries_are_refused() {
    let authority = DeviceKeypair::generate();
    let cert = make_cert(&authority, &authority, "n", MeshTier::Edge);
    let mut entry = CertificateEntry::from_certificate(&cert);
    entry.cert_data = "!".to_string();
    assert!(matches!(entry.to_certificate(), Err(SecurityError::SerializationError(_))));
    entry.cert_data = "AAAA".to_string();
    assert!(entry.to_certificate().is_err());
}

fn put_entry(store: &mut AutomergeStore, entry: &CertificateEntry) {
    TypedCollection::new(CERTIFICATES_COLLECTION)
        .upsert(store, &entry.subject, &entry.to_json(), &doubles)
        .unwrap();
}

#[test]
fn test_changes_are_applied() {
    let authority = DeviceKeypair::generate();
    let member = DeviceKeypair::generate();
    let stranger = DeviceKeypair::generate();
    let name = hex::encode(member.public_key_bytes());
    let mut cert_store = CertificateStore::new(&[authority.public_key_bytes()]);
    let entry = CertificateEntry::from_certificate(&make_cert(&authority, &member, "node", MeshTier::Edge));
    let foreign = CertificateEntry::from_certificate(&make_cert(&stranger, &member, "other", MeshTier::Edge));

    let mut revoked = make_store();
    put_entry(&mut revoked, &entry);
    cert_store
        .publish_revocation_at(&mut revoked, &member.public_key_bytes(), "lost", 5, &doubles)
        .unwrap();
    cert_store.handle_cert_change(&revoked, &name);
    let mut untrusted = make_store();
    put_entry(&mut untrusted, &foreign);
    cert_store.handle_cert_change(&untrusted, &name);
    cert_store.handle_cert_change(&make_store(), &name);
    assert!(cert_store.bundle().is_empty());

    let mut good = make_store();
    put_entry(&mut good, &entry);
    cert_store.handle_cert_change(&good, &name);
    assert!(cert_store.bundle().validate_node_id("node", now_ms()));

    assert!(cert_store.handle_revocation_change(&revoked, &name));
    assert!(cert_store.bundle().is_empty());
    assert!(!cert_store.handle_revocation_change(&good, &name));
    let nonsense = RevocationEntry { subject: "abcd".to_string(), reason: String::new(), timestamp_ms: 0 };
    TypedCollection::new(REVOCATIONS_COLLECTION)
        .upsert(&mut good, "abcd", &nonsense.to_json(), &doubles)
        .unwrap();
    assert!(!cert_store.handle_revocation_change(&good, "abcd"));
}

#[test]
fn test_documents_of_entries() {
    let authority = DeviceKeypair::from_secret([4u8; 32]);
    let cert = MeshCertificate::new(
        [0xABu8; 32],
        "DEADBEEF".to_string(),
        "n".to_string(),
        MeshTier::Edge,
        permissions::RELAY,
        1,
        2,
        authority.public_key_bytes(),
    )
    .signed(&authority);
    let mut store = make_store();
    let mut cert_store = CertificateStore::new(&[]);
    cert_store.publish_certificate_at(&mut store, &cert, 99, &doubles).unwrap();
    cert_store.publish_revocation_at(&mut store, &[0xABu8; 32], "lost", 7, &doubles).unwrap();

    // The documents hold what serde makes of the entries
    let id = "ab".repeat(32);
    let json = TypedCollection::new("certificates").get_json(&store, &id).unwrap();
    let Json::Object(fields) = &json else { panic!("no object") };
    let keys: Vec<&str> = fields.iter().map(|f| f.0.as_str()).collect();
    assert_eq!(
        keys,
        [
            "cert_data",
            "expires_at_ms",
            "issuer",
            "node_id",
            "permissions",
            "subject",
            "tier",
            "written_at_ms"
        ]
    );
    let read = CertificateEntry::from_json(&json).unwrap();
    assert_eq!(read.cert_data, base64::engine::general_purpose::STANDARD.encode(cert.encode()));
    assert_eq!((read.node_id.as_str(), read.tier.as_str()), ("n", "Edge"));
    assert_eq!((read.subject, read.issuer), (id.clone(), hex::encode(authority.public_key_bytes())));
    assert_eq!((read.permissions, read.expires_at_ms, read.written_at_ms), (1, 2, 99));

    let json = TypedCollection::new("revocations").get_json(&store, &id).unwrap();
    let read = RevocationEntry::from_json(&json).unwrap();
    assert_eq!((read.subject.as_str(), read.reason.as_str(), read.timestamp_ms), (id.as_str(), "lost", 7));
    assert!(CertificateEntry::from_json(&json).is_none());
    assert!(CertificateEntry::from_json(&Json::Null).is_none());
    assert!(RevocationEntry::from_json(&Json::Null).is_none());
}

#[test]
fn test_entries_that_are_no_entries() {
    let authority = DeviceKeypair::generate();
    let cert = make_cert(&authority, &authority, "n", MeshTier::Edge);
    let json = CertificateEntry::from_certificate(&cert).to_json();
    assert!(CertificateEntry::from_json(&json).is_some());
    let Json::Object(fields) = json else { panic!("no object") };

    let with = |key: &str, value: Json| {
        let mut changed: Vec<(String, Json)> = fields.iter().map(|f| (f.0.clone(), f.1.clone())).collect();
        peat_mesh::json::object_insert(&mut changed, key.to_string(), value);
        CertificateEntry::from_json(&Json::Object(changed))
    };
    // Unknown fields are ignored, and a field of another kind is an error
    assert!(with("extra", Json::Null).is_some());
    assert!(with("tier", Json::unsigned(1)).is_none());
    assert!(with("expires_at_ms", Json::text("1")).is_none());
    assert_eq!(with("permissions", Json::unsigned(255)).unwrap().permissions, 255);
    assert!(with("permissions", Json::unsigned(256)).is_none());

    // So is a field that is missing
    for i in 0..fields.len() {
        let mut less: Vec<(String, Json)> = fields.iter().map(|f| (f.0.clone(), f.1.clone())).collect();
        less.remove(i);
        assert!(CertificateEntry::from_json(&Json::Object(less)).is_none());
    }
}

#[test]
fn test_times_beyond_signed_integers_are_not_kept() {
    let authority = DeviceKeypair::generate();
    let member = DeviceKeypair::generate();
    let cert = MeshCertificate::new(
        member.public_key_bytes(),
        "DEADBEEF".to_string(),
        "far".to_string(),
        MeshTier::Edge,
        permissions::STANDARD,
        0,
        u64::MAX,
        authority.public_key_bytes(),
    )
    .signed(&authority);
    let mut store = make_store();
    let mut cert_store = CertificateStore::new(&[authority.public_key_bytes()]);
    cert_store.publish_certificate(&mut store, &cert, &doubles).unwrap();
    assert!(cert_store.bundle().validate_node_id("far", now_ms()));
    // The document holds a double, which is no time
    assert_eq!(CertificateStore::new(&[authority.public_key_bytes()]).load_all(&store), 0);
}

#[test]
fn test_publishing_again_replaces_the_document() {
    let authority = DeviceKeypair::generate();
    let member = DeviceKeypair::generate();
    let mut store = make_store();
    let mut cert_store = CertificateStore::new(&[authority.public_key_bytes()]);
    for node_id in ["first", "second"] {
        let cert = make_cert(&authority, &member, node_id, MeshTier::Edge);
        cert_store.publish_certificate(&mut store, &cert, &doubles).unwrap();
    }
    let mut fresh = CertificateStore::new(&[authority.public_key_bytes()]);
    assert_eq!(fresh.load_all(&store), 1);
    assert!(fresh.bundle().validate_node_id("second", now_ms()));
    assert!(!fresh.bundle().validate_node_id("first", now_ms()));
}
