//! Connections between nodes that sync.

use peat_mesh::security::bundle::CertificateBundle;
use peat_mesh::security::certificate::{MeshCertificate, MeshTier};
use peat_mesh::security::keypair::DeviceKeypair;
use peat_mesh::security::permissions;
use peat_mesh::storage::mesh_sync_transport::{
    on_auth_length, run_formation_auth, AcceptStep, ConnectionAction, ConnectionEvent, FormationAuthResult,
    MeshSyncTransport, SyncProtocolHandler,
};
use peat_mesh::storage::sync_transport::CAP_AUTOMERGE_ALPN;

#[test]
fn test_connections() {
    let mut transport = MeshSyncTransport::new();
    let (a, b) = ([1u8; 32], [2u8; 32]);
    transport.start_sync_connection(a, 10);
    transport.insert_connection(b, 20);
    transport.insert_connection(b, 21);
    assert_eq!(transport.get_connection(&a), Some(10));
    assert_eq!(transport.get_connection(&b), Some(21));
    assert_eq!(transport.on_connection_event(&a, ConnectionEvent::StreamOpened), ConnectionAction::HandleStream);
    assert_eq!(transport.connected_peers(&vec![20]).len(), 2);
    assert_eq!(transport.connected_peers(&vec![21]), [a]);
    assert_eq!(transport.get_connection(&b), None);
    assert_eq!(transport.on_connection_event(&a, ConnectionEvent::Closed), ConnectionAction::CleanUp);
    assert!(transport.connected_peers(&vec![]).is_empty());
    transport.remove_connection(&a);
}

#[test]
fn test_gates() {
    let authority = DeviceKeypair::generate();
    let member = DeviceKeypair::generate();
    let make = || {
        let mut bundle = CertificateBundle::new();
        bundle.add_authority(authority.public_key_bytes());
        let cert = MeshCertificate::new(
            member.public_key_bytes(),
            "M".to_string(),
            "n".to_string(),
            MeshTier::Edge,
            permissions::RELAY,
            10,
            20,
            authority.public_key_bytes(),
        )
        .signed(&authority);
        bundle.add_certificate(cert).unwrap();
        bundle
    };
    let key = member.public_key_bytes();
    let stranger = [7u8; 32];

    assert_eq!(SyncProtocolHandler::new().accept(&stranger, 15), AcceptStep::Start);
    assert_eq!(SyncProtocolHandler::with_formation_key().accept(&stranger, 15), AcceptStep::Authenticate);
    let lenient = SyncProtocolHandler::new().with_certificate_bundle(make(), false);
    assert_eq!(lenient.accept(&stranger, 15), AcceptStep::Start);
    let strict = SyncProtocolHandler::with_formation_key().with_certificate_bundle(make(), true);
    assert_eq!(strict.accept(&stranger, 15), AcceptStep::CertificateRequired);
    assert_eq!(strict.accept(&key, 15), AcceptStep::Authenticate);
    assert_eq!(strict.accept(&key, 25), AcceptStep::CertificateRequired);
    assert_eq!(strict.on_formation_auth(true), AcceptStep::Start);
    assert_eq!(strict.on_formation_auth(false), AcceptStep::FormationAuthFailed);
    assert_eq!(AcceptStep::CertificateRequired.close_code(), Some(2));
    assert_eq!(AcceptStep::FormationAuthFailed.close_code(), Some(1));
    assert_eq!(AcceptStep::CertificateRequired.close_reason(), Some("certificate required"));
    assert_eq!(AcceptStep::FormationAuthFailed.close_reason(), Some("formation auth failed"));
    assert_eq!(AcceptStep::Start.close_code(), None);
    assert_eq!(AcceptStep::Authenticate.close_reason(), None);
}

#[test]
fn test_formation_auth() {
    assert_eq!(on_auth_length(&256u32.to_le_bytes()), Ok(256));
    assert_eq!(on_auth_length(&257u32.to_le_bytes()), Err("response too large: 257".to_string()));
    assert_eq!(run_formation_auth(Ok(true)), (Some(FormationAuthResult::Accepted), Ok(())));
    assert_eq!(
        run_formation_auth(Ok(false)),
        (Some(FormationAuthResult::Rejected), Err("HMAC verification failed".to_string()))
    );
    assert_eq!(run_formation_auth(Err("short".to_string())), (None, Err("invalid response: short".to_string())));
}

#[test]
fn test_sync_alpn() {
    assert_eq!(&CAP_AUTOMERGE_ALPN, b"cap/automerge/1");
}

#[test]
fn test_bundle_can_be_replaced() {
    let authority = DeviceKeypair::generate();
    let member = DeviceKeypair::generate();
    let key = member.public_key_bytes();
    let mut strict = SyncProtocolHandler::with_formation_key().with_certificate_bundle(CertificateBundle::new(), true);
    assert_eq!(strict.accept(&key, 15), AcceptStep::CertificateRequired);
    let mut bundle = CertificateBundle::new();
    bundle.add_authority(authority.public_key_bytes());
    let cert = MeshCertificate::new(
        key,
        "M".to_string(),
        "n".to_string(),
        MeshTier::Edge,
        permissions::RELAY,
        10,
        20,
        authority.public_key_bytes(),
    )
    .signed(&authority);
    bundle.add_certificate(cert).unwrap();
    strict.set_certificate_bundle(bundle);
    assert_eq!(strict.accept(&key, 15), AcceptStep::Authenticate);
    assert_eq!(strict.accept(&[7u8; 32], 15), AcceptStep::CertificateRequired);
    strict.set_certificate_bundle(CertificateBundle::new());
    assert_eq!(strict.accept(&key, 15), AcceptStep::CertificateRequired);
}
