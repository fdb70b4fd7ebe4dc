//! Enrollment requests and the static enrollment service.

use peat_mesh::security::certificate::{MeshCertificate, MeshTier};
use peat_mesh::security::enrollment::{
    EnrollmentRequest, EnrollmentResponse, EnrollmentService, EnrollmentStatus, StaticEnrollmentService,
};
use peat_mesh::security::error::SecurityError;
use peat_mesh::security::keypair::DeviceKeypair;
use peat_mesh::security::permissions;

fn now_ms() -> u64 {
    std::time::SystemTime::now()
        .duration_since(std::time::UNIX_EPOCH)
        .unwrap()
        .as_millis() as u64
}

#[test]
fn test_enrollment_request_sign_verify() {
    let member = DeviceKeypair::generate();
    let now = now_ms();

    let req = EnrollmentRequest::new(
        &member,
        "A1B2C3D4".to_string(),
        "tac-west-1".to_string(),
        MeshTier::Tactical,
        b"bootstrap-token-123".to_vec(),
        now,
    );

    assert!(req.verify_signature().is_ok());
    assert_eq!(req.subject_public_key, member.public_key_bytes());
    assert_eq!(req.mesh_id, "A1B2C3D4");
    assert_eq!(req.node_id, "tac-west-1");
}

#[test]
fn test_enrollment_request_encode_decode() {
    let member = DeviceKeypair::generate();
    let now = now_ms();

    let req = EnrollmentRequest::new(
        &member,
        "A1B2C3D4".to_string(),
        "edge-unit-7".to_string(),
        MeshTier::Edge,
        b"token".to_vec(),
        now,
    );

    let encoded = req.encode();
    let decoded = EnrollmentRequest::decode(&encoded).unwrap();

    assert_eq!(decoded.subject_public_key, req.subject_public_key);
    assert_eq!(decoded.mesh_id, req.mesh_id);
    assert_eq!(decoded.node_id, "edge-unit-7");
    assert_eq!(decoded.requested_tier, req.requested_tier);
    assert_eq!(decoded.bootstrap_token, req.bootstrap_token);
    assert_eq!(decoded.timestamp_ms, req.timestamp_ms);
    assert!(decoded.verify_signature().is_ok());
}

#[test]
fn test_enrollment_request_decode_too_short() {
    assert!(EnrollmentRequest::decode(&[0u8; 10]).is_err());
}

#[test]
fn test_enrollment_response_approved() {
    let authority = DeviceKeypair::generate();
    let now = now_ms();

    let cert = MeshCertificate::new_root(
        &authority,
        "DEADBEEF".to_string(),
        "enterprise-0".to_string(),
        MeshTier::Enterprise,
        now,
        now + 3600000,
    );

    let resp = EnrollmentResponse::approved(cert, Some(b"secret".to_vec()), now);
    assert_eq!(resp.status, EnrollmentStatus::Approved);
    assert!(resp.certificate.is_some());
    assert!(resp.formation_secret.is_some());
}

#[test]
fn test_enrollment_response_denied() {
    let now = now_ms();
    let resp = EnrollmentResponse::denied("bad token".to_string(), now);
    assert_eq!(
        resp.status,
        EnrollmentStatus::Denied {
            reason: "bad token".to_string()
        }
    );
    assert!(resp.certificate.is_none());
}

#[test]
fn test_static_enrollment_service_approve() {
    let authority = DeviceKeypair::generate();
    let member = DeviceKeypair::generate();
    let now = now_ms();
    let validity = 24 * 60 * 60 * 1000; // 24 hours

    let mut service =
        StaticEnrollmentService::new(authority.clone(), "DEADBEEF".to_string(), validity);
    service.add_token(
        b"valid-token".to_vec(),
        MeshTier::Tactical,
        permissions::STANDARD,
    );

    let req = EnrollmentRequest::new(
        &member,
        "DEADBEEF".to_string(),
        "tac-node-1".to_string(),
        MeshTier::Tactical,
        b"valid-token".to_vec(),
        now,
    );

    let resp = service.process_request(&req).unwrap();
    assert_eq!(resp.status, EnrollmentStatus::Approved);

    let cert = resp.certificate.unwrap();
    assert!(cert.verify().is_ok());
    assert_eq!(cert.subject_public_key, member.public_key_bytes());
    assert_eq!(cert.node_id, "tac-node-1");
    assert_eq!(cert.tier, MeshTier::Tactical);
    assert_eq!(cert.permissions, permissions::STANDARD);
    assert_eq!(cert.issuer_public_key, authority.public_key_bytes());
}

#[test]
fn test_static_enrollment_service_deny_bad_token() {
    let authority = DeviceKeypair::generate();
    let member = DeviceKeypair::generate();
    let now = now_ms();

    let service = StaticEnrollmentService::new(authority, "DEADBEEF".to_string(), 3600000);

    let req = EnrollmentRequest::new(
        &member,
        "DEADBEEF".to_string(),
        "tac-node-2".to_string(),
        MeshTier::Tactical,
        b"invalid-token".to_vec(),
        now,
    );

    let resp = service.process_request(&req).unwrap();
    match resp.status {
        EnrollmentStatus::Denied { reason } => {
            assert!(reason.contains("invalid bootstrap token"));
        }
        other => panic!("expected Denied, got {:?}", other),
    }
}

#[test]
fn test_static_enrollment_service_deny_wrong_mesh() {
    let authority = DeviceKeypair::generate();
    let member = DeviceKeypair::generate();
    let now = now_ms();

    let mut service = StaticEnrollmentService::new(authority, "DEADBEEF".to_string(), 3600000);
    service.add_token(b"token".to_vec(), MeshTier::Tactical, permissions::STANDARD);

    let req = EnrollmentRequest::new(
        &member,
        "WRONG_MESH".to_string(),
        "tac-node-3".to_string(),
        MeshTier::Tactical,
        b"token".to_vec(),
        now,
    );

    let resp = service.process_request(&req).unwrap();
    match resp.status {
        EnrollmentStatus::Denied { reason } => {
            assert!(reason.contains("mesh ID mismatch"));
        }
        other => panic!("expected Denied, got {:?}", other),
    }
}

#[test]
fn test_enrollment_status_byte() {
    assert_eq!(EnrollmentStatus::Pending.to_byte(), 0);
    assert_eq!(EnrollmentStatus::Approved.to_byte(), 1);
    assert_eq!(
        EnrollmentStatus::Denied {
            reason: "x".to_string()
        }
        .to_byte(),
        2
    );
    assert_eq!(
        EnrollmentStatus::Revoked {
            reason: "x".to_string()
        }
        .to_byte(),
        3
    );
}

#[test]
fn test_static_enrollment_service_bad_signature() {
    let authority = DeviceKeypair::generate();
    let member = DeviceKeypair::generate();
    let mut service = StaticEnrollmentService::new(authority, "DEADBEEF".to_string(), 1000);
    service.add_token(b"token".to_vec(), MeshTier::Edge, permissions::RELAY);
    let mut req = EnrollmentRequest::new(
        &member,
        "DEADBEEF".to_string(),
        "edge-1".to_string(),
        MeshTier::Edge,
        b"token".to_vec(),
        5,
    );
    req.node_id = "edge-2".to_string();
    assert!(matches!(req.verify_signature(), Err(SecurityError::InvalidSignature(_))));
    assert!(matches!(service.process_request(&req), Err(SecurityError::InvalidSignature(_))));
}

#[test]
fn test_static_enrollment_service_grants_what_the_token_says() {
    let authority = DeviceKeypair::generate();
    let member = DeviceKeypair::generate();
    let mut service = StaticEnrollmentService::new(authority, "DEADBEEF".to_string(), 1000);
    service.add_token(b"token".to_vec(), MeshTier::Edge, permissions::RELAY);
    service.add_token(b"token".to_vec(), MeshTier::Regional, permissions::ENROLL);
    let req = EnrollmentRequest::new(
        &member,
        "DEADBEEF".to_string(),
        "hub".to_string(),
        MeshTier::Enterprise,
        b"token".to_vec(),
        5,
    );
    let resp = service.process_request_at(&req, 10_000).unwrap();
    let cert = resp.certificate.unwrap();
    assert_eq!(cert.tier, MeshTier::Regional);
    assert_eq!(cert.permissions, permissions::ENROLL);
    assert_eq!(cert.issued_at_ms, 10_000);
    assert_eq!(cert.expires_at_ms, 11_000);
    assert_eq!(resp.timestamp_ms, 10_000);
    assert!(resp.formation_secret.is_none());
}

#[test]
fn test_static_enrollment_service_keeps_no_status() {
    let service = StaticEnrollmentService::new(DeviceKeypair::generate(), "DEADBEEF".to_string(), 1000);
    assert_eq!(service.check_status(&[0u8; 32]).unwrap(), EnrollmentStatus::Pending);
    assert!(matches!(service.revoke(&[0u8; 32], "lost".to_string()), Err(SecurityError::Internal(_))));
}

#[test]
fn test_enrollment_response_pending() {
    let resp = EnrollmentResponse::pending(7);
    assert_eq!(resp.status, EnrollmentStatus::Pending);
    assert!(resp.certificate.is_none());
    assert!(resp.formation_secret.is_none());
    assert_eq!(resp.timestamp_ms, 7);
}

#[test]
fn test_enrollment_request_truncated() {
    let member = DeviceKeypair::from_secret([3u8; 32]);
    let req = EnrollmentRequest::new(
        &member,
        "A1B2C3D4".to_string(),
        "edge".to_string(),
        MeshTier::Edge,
        b"token".to_vec(),
        9,
    );
    let good = req.encode();
    for n in 0..good.len() {
        assert!(matches!(EnrollmentRequest::decode(&good[..n]), Err(SecurityError::SerializationError(_))));
    }
}

#[test]
fn test_error_texts() {
    assert_eq!(SecurityError::Internal("x".to_string()).text(), "internal error: x");
}
