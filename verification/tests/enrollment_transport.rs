//! The enrollment protocol.

use peat_mesh::security::certificate::MeshTier;
use peat_mesh::security::enrollment::{
    EnrollmentRequest, EnrollmentResponse, EnrollmentStatus, StaticEnrollmentService,
};
use peat_mesh::security::error::SecurityError;
use peat_mesh::security::keypair::DeviceKeypair;
use peat_mesh::security::permissions;
use peat_mesh::storage::enrollment_transport::{
    answer, frame, frame_request, now_ms, on_request_length, on_response_length, EnrollmentProtocolHandler, RequestHead,
    CAP_ENROLLMENT_ALPN, MAX_REQUEST_SIZE, MAX_RESPONSE_SIZE,
};
use peat_mesh::storage::sync_transport::CAP_AUTOMERGE_ALPN;

#[test]
fn test_enrollment_alpn_is_valid() {
    assert_eq!(&CAP_ENROLLMENT_ALPN, b"peat/enroll/1");
    assert!(!CAP_ENROLLMENT_ALPN.is_empty());
    assert!(CAP_ENROLLMENT_ALPN.len() < 256);
    assert!(CAP_ENROLLMENT_ALPN.iter().all(|b| b.is_ascii()));
}

#[test]
fn test_enrollment_alpn_contains_version() {
    let alpn_str = std::str::from_utf8(&CAP_ENROLLMENT_ALPN).unwrap();
    assert!(
        alpn_str.contains("/1"),
        "ALPN should include version suffix"
    );
    assert!(
        alpn_str.starts_with("peat/"),
        "ALPN should start with peat/ prefix"
    );
}

#[test]
fn test_enrollment_alpn_distinct_from_sync() {
    assert_ne!(
        &CAP_ENROLLMENT_ALPN[..], &CAP_AUTOMERGE_ALPN[..],
        "Enrollment and sync ALPNs must be distinct"
    );
}

#[test]
fn test_max_request_size_reasonable() {
    assert_eq!(MAX_REQUEST_SIZE, 65536);
    assert!(
        MAX_REQUEST_SIZE >= 1024,
        "Request limit should allow reasonable payloads"
    );
    assert!(
        MAX_REQUEST_SIZE <= 1_048_576,
        "Request limit should prevent abuse"
    );
}

#[test]
fn test_max_response_size_reasonable() {
    assert_eq!(MAX_RESPONSE_SIZE, 65536);
    assert_eq!(
        MAX_REQUEST_SIZE, MAX_RESPONSE_SIZE,
        "Request and response limits should match"
    );
}

#[test]
fn test_now_ms_returns_plausible_timestamp() {
    let ts = now_ms();
    // Should be after 2020-01-01 (1577836800000 ms)
    assert!(ts > 1_577_836_800_000, "Timestamp should be after 2020");
    // Should be before 2100-01-01 (4102444800000 ms)
    assert!(ts < 4_102_444_800_000, "Timestamp should be before 2100");
}

#[test]
fn test_now_ms_is_monotonic() {
    let t1 = now_ms();
    let t2 = now_ms();
    assert!(t2 >= t1, "Sequential timestamps should be non-decreasing");
}

#[test]
fn test_handler_debug_impl() {
    let _: fn(&EnrollmentProtocolHandler, &mut std::fmt::Formatter) -> std::fmt::Result =
        <EnrollmentProtocolHandler as std::fmt::Debug>::fmt;
}

fn denied_reason(resp: &EnrollmentResponse) -> &str {
    match &resp.status {
        EnrollmentStatus::Denied { reason } => reason,
        other => panic!("expected Denied, got {:?}", other),
    }
}

#[test]
fn test_frames() {
    assert_eq!(frame(b"abc"), [3, 0, 0, 0, b'a', b'b', b'c']);
    assert_eq!(frame(&[]), [0, 0, 0, 0]);
    let handler = EnrollmentProtocolHandler;
    assert_eq!(handler.frame_response(&[9]).unwrap(), [1, 0, 0, 0, 9]);
}

#[test]
fn test_request_length_limit() {
    match on_request_length(&65536u32.to_le_bytes(), 5) {
        RequestHead::Read(n) => assert_eq!(n, 65536),
        RequestHead::Refuse(_) => panic!("the largest request is read"),
    }
    match on_request_length(&65537u32.to_le_bytes(), 5) {
        RequestHead::Read(_) => panic!("a larger request is refused"),
        RequestHead::Refuse(resp) => {
            assert_eq!(denied_reason(&resp), "request too large: 65537 bytes (max 65536)");
            assert_eq!(resp.timestamp_ms, 5);
        }
    }
    assert_eq!(on_response_length(&65536u32.to_le_bytes()).unwrap(), 65536);
    assert!(on_response_length(&65537u32.to_le_bytes()).is_err());
}

#[test]
fn test_request_travels_to_the_service() {
    let authority = DeviceKeypair::generate();
    let member = DeviceKeypair::generate();
    let mut service = StaticEnrollmentService::new(authority.clone(), "DEADBEEF".to_string(), 1000);
    service.add_token(b"token".to_vec(), MeshTier::Edge, permissions::RELAY);
    let request = EnrollmentRequest::new(
        &member,
        "DEADBEEF".to_string(),
        "edge-1".to_string(),
        MeshTier::Edge,
        b"token".to_vec(),
        1,
    );
    let sent = frame_request(&request);
    let mut len_buf = [0u8; 4];
    len_buf.copy_from_slice(&sent[..4]);
    let n = match on_request_length(&len_buf, 0) {
        RequestHead::Read(n) => n,
        RequestHead::Refuse(_) => panic!("the request is small"),
    };
    assert_eq!(n, sent.len() - 4);
    let handler = EnrollmentProtocolHandler;
    let (response, approved) = handler.handle_enrollment(&service, &sent[4..], 77);
    assert!(approved);
    assert_eq!(response.status, EnrollmentStatus::Approved);
    assert_eq!(response.certificate.unwrap().issuer_public_key, authority.public_key_bytes());

    let (response, approved) = handler.handle_enrollment(&service, &sent[5..], 77);
    assert!(!approved);
    assert!(matches!(response.status, EnrollmentStatus::Denied { .. }));
    assert_eq!(response.timestamp_ms, 77);
}

#[test]
fn test_service_error_is_answered() {
    let resp = answer(Err(SecurityError::Internal("down".to_string())), 3);
    assert_eq!(denied_reason(&resp), "enrollment error: internal error: down");
    assert_eq!(answer(Ok(EnrollmentResponse::pending(4)), 3).timestamp_ms, 4);
}
