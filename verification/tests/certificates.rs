//! Certificates and bundles of certificates.

use peat_mesh::security::bundle::CertificateBundle;
use peat_mesh::security::certificate::{MeshCertificate, MeshTier};
use peat_mesh::security::error::SecurityError;
use peat_mesh::security::keypair::DeviceKeypair;
use peat_mesh::security::permissions;

fn now_ms() -> u64 {
    std::time::SystemTime::now()
        .duration_since(std::time::UNIX_EPOCH)
        .unwrap()
        .as_millis() as u64
}

fn one_hour_ms() -> u64 {
    60 * 60 * 1000
}

#[test]
fn test_mesh_tier_roundtrip() {
    for tier in [
        MeshTier::Enterprise,
        MeshTier::Regional,
        MeshTier::Tactical,
        MeshTier::Edge,
    ] {
        assert_eq!(MeshTier::from_byte(tier.to_byte()), Some(tier));
        assert_eq!(MeshTier::from_str_name(tier.as_str()), Some(tier));
    }
    assert_eq!(MeshTier::from_byte(99), None);
    assert_eq!(MeshTier::from_str_name("unknown"), None);
}

#[test]
fn test_mesh_tier_case_insensitive() {
    assert_eq!(
        MeshTier::from_str_name("enterprise"),
        Some(MeshTier::Enterprise)
    );
    assert_eq!(
        MeshTier::from_str_name("TACTICAL"),
        Some(MeshTier::Tactical)
    );
    assert_eq!(MeshTier::from_str_name(" Edge "), Some(MeshTier::Edge));
}

#[test]
fn test_mesh_tier_ordering() {
    assert!(MeshTier::Enterprise < MeshTier::Regional);
    assert!(MeshTier::Regional < MeshTier::Tactical);
    assert!(MeshTier::Tactical < MeshTier::Edge);
}

/// Helper: create a test cert with node_id.
fn make_cert(
    authority: &DeviceKeypair,
    member: &DeviceKeypair,
    node_id: &str,
    tier: MeshTier,
    perms: u8,
    issued: u64,
    expires: u64,
) -> MeshCertificate {
    MeshCertificate::new(
        member.public_key_bytes(),
        "DEADBEEF".to_string(),
        node_id.to_string(),
        tier,
        perms,
        issued,
        expires,
        authority.public_key_bytes(),
    )
    .signed(authority)
}

#[test]
fn test_certificate_sign_verify() {
    let authority = DeviceKeypair::generate();
    let member = DeviceKeypair::generate();
    let now = now_ms();

    let cert = make_cert(
        &authority,
        &member,
        "tac-1",
        MeshTier::Tactical,
        permissions::STANDARD,
        now,
        now + one_hour_ms(),
    );

    assert!(cert.verify().is_ok());
    assert!(cert.is_valid(now));
    assert!(!cert.is_root());
    assert!(cert.has_permission(permissions::RELAY));
    assert!(cert.has_permission(permissions::EMERGENCY));
    assert!(!cert.has_permission(permissions::ADMIN));
    assert_eq!(cert.node_id, "tac-1");
}

#[test]
fn test_certificate_root() {
    let authority = DeviceKeypair::generate();
    let now = now_ms();

    let cert = MeshCertificate::new_root(
        &authority,
        "DEADBEEF".to_string(),
        "enterprise-0".to_string(),
        MeshTier::Enterprise,
        now,
        now + one_hour_ms(),
    );

    assert!(cert.verify().is_ok());
    assert!(cert.is_root());
    assert!(cert.has_permission(permissions::AUTHORITY));
    assert_eq!(cert.node_id, "enterprise-0");
}

#[test]
fn test_certificate_expired() {
    let authority = DeviceKeypair::generate();
    let member = DeviceKeypair::generate();
    let now = now_ms();

    let cert = make_cert(
        &authority,
        &member,
        "tac-1",
        MeshTier::Tactical,
        permissions::STANDARD,
        now - 2 * one_hour_ms(),
        now - one_hour_ms(),
    );

    assert!(cert.verify().is_ok());
    assert!(!cert.is_valid(now));
}

#[test]
fn test_certificate_no_expiration() {
    let authority = DeviceKeypair::generate();
    let member = DeviceKeypair::generate();
    let now = now_ms();

    let cert = make_cert(
        &authority,
        &member,
        "tac-1",
        MeshTier::Tactical,
        permissions::STANDARD,
        now,
        0,
    );

    assert!(cert.is_valid(now));
    assert!(cert.is_valid(now + 365 * 24 * one_hour_ms()));
    assert_eq!(cert.time_remaining_ms(now), u64::MAX);
}

#[test]
fn test_certificate_wrong_signer() {
    let authority = DeviceKeypair::generate();
    let imposter = DeviceKeypair::generate();
    let member = DeviceKeypair::generate();
    let now = now_ms();

    // Claims authority issued it, but imposter signed it
    let cert = MeshCertificate::new(
        member.public_key_bytes(),
        "DEADBEEF".to_string(),
        "tac-1".to_string(),
        MeshTier::Tactical,
        permissions::STANDARD,
        now,
        now + one_hour_ms(),
        authority.public_key_bytes(),
    )
    .signed(&imposter);

    assert!(cert.verify().is_err());
}

#[test]
fn test_certificate_encode_decode() {
    let authority = DeviceKeypair::generate();
    let member = DeviceKeypair::generate();
    let now = now_ms();

    let cert = MeshCertificate::new(
        member.public_key_bytes(),
        "A1B2C3D4".to_string(),
        "regional-hub-1".to_string(),
        MeshTier::Regional,
        permissions::STANDARD | permissions::ENROLL,
        now,
        now + one_hour_ms(),
        authority.public_key_bytes(),
    )
    .signed(&authority);

    let encoded = cert.encode();
    let decoded = MeshCertificate::decode(&encoded).unwrap();

    assert_eq!(decoded.subject_public_key, cert.subject_public_key);
    assert_eq!(decoded.mesh_id, cert.mesh_id);
    assert_eq!(decoded.node_id, "regional-hub-1");
    assert_eq!(decoded.tier, cert.tier);
    assert_eq!(decoded.permissions, cert.permissions);
    assert_eq!(decoded.issued_at_ms, cert.issued_at_ms);
    assert_eq!(decoded.expires_at_ms, cert.expires_at_ms);
    assert_eq!(decoded.issuer_public_key, cert.issuer_public_key);
    assert_eq!(decoded.signature, cert.signature);
    assert!(decoded.verify().is_ok());
}

#[test]
fn test_certificate_decode_too_short() {
    assert!(MeshCertificate::decode(&[0u8; 10]).is_err());
}

#[test]
fn test_bundle_validate_peer() {
    let authority = DeviceKeypair::generate();
    let member = DeviceKeypair::generate();
    let now = now_ms();

    let cert = make_cert(
        &authority,
        &member,
        "tac-1",
        MeshTier::Tactical,
        permissions::STANDARD,
        now,
        now + one_hour_ms(),
    );

    let mut bundle = CertificateBundle::new();
    bundle.add_authority(authority.public_key_bytes());
    bundle.add_certificate(cert).unwrap();

    assert!(bundle.validate_peer(&member.public_key_bytes(), now));
    assert_eq!(
        bundle.get_peer_tier(&member.public_key_bytes()),
        Some(MeshTier::Tactical)
    );
    assert_eq!(
        bundle.get_peer_permissions(&member.public_key_bytes()),
        Some(permissions::STANDARD)
    );

    let stranger = DeviceKeypair::generate();
    assert!(!bundle.validate_peer(&stranger.public_key_bytes(), now));
}

#[test]
fn test_bundle_validate_by_node_id() {
    let authority = DeviceKeypair::generate();
    let member = DeviceKeypair::generate();
    let now = now_ms();

    let cert = make_cert(
        &authority,
        &member,
        "tactical-west-3",
        MeshTier::Tactical,
        permissions::STANDARD,
        now,
        now + one_hour_ms(),
    );

    let mut bundle = CertificateBundle::new();
    bundle.add_authority(authority.public_key_bytes());
    bundle.add_certificate(cert).unwrap();

    // Validate by node_id (the PeerConnector path)
    assert!(bundle.validate_node_id("tactical-west-3", now));
    assert!(!bundle.validate_node_id("unknown-node", now));

    // Tier lookup by node_id
    assert_eq!(
        bundle.get_node_tier("tactical-west-3"),
        Some(MeshTier::Tactical)
    );
    assert_eq!(bundle.get_node_tier("unknown"), None);

    // Certificate lookup by node_id
    let found = bundle
        .get_certificate_by_node_id("tactical-west-3")
        .unwrap();
    assert_eq!(found.subject_public_key, member.public_key_bytes());
}

#[test]
fn test_bundle_rejects_untrusted_issuer() {
    let untrusted = DeviceKeypair::generate();
    let member = DeviceKeypair::generate();
    let now = now_ms();

    let cert = MeshCertificate::new(
        member.public_key_bytes(),
        "DEADBEEF".to_string(),
        "tac-1".to_string(),
        MeshTier::Tactical,
        permissions::STANDARD,
        now,
        now + one_hour_ms(),
        untrusted.public_key_bytes(),
    )
    .signed(&untrusted);

    let mut bundle = CertificateBundle::new();
    let result = bundle.add_certificate(cert);
    assert!(result.is_err());
}

#[test]
fn test_bundle_accepts_root_cert() {
    let authority = DeviceKeypair::generate();
    let now = now_ms();

    let root = MeshCertificate::new_root(
        &authority,
        "DEADBEEF".to_string(),
        "enterprise-0".to_string(),
        MeshTier::Enterprise,
        now,
        now + one_hour_ms(),
    );

    let mut bundle = CertificateBundle::new();
    bundle.add_certificate(root).unwrap();
    assert!(bundle.validate_peer(&authority.public_key_bytes(), now));
    assert!(bundle.validate_node_id("enterprise-0", now));
}

#[test]
fn test_bundle_remove_expired() {
    let authority = DeviceKeypair::generate();
    let now = now_ms();

    let expired_member = DeviceKeypair::generate();
    let expired_cert = make_cert(
        &authority,
        &expired_member,
        "expired-node",
        MeshTier::Tactical,
        permissions::STANDARD,
        now - 2 * one_hour_ms(),
        now - one_hour_ms(),
    );

    let valid_member = DeviceKeypair::generate();
    let valid_cert = make_cert(
        &authority,
        &valid_member,
        "valid-node",
        MeshTier::Tactical,
        permissions::STANDARD,
        now,
        now + one_hour_ms(),
    );

    let mut bundle = CertificateBundle::new();
    bundle.add_authority(authority.public_key_bytes());
    bundle.add_certificate_unchecked(expired_cert);
    bundle.add_certificate(valid_cert).unwrap();
    assert_eq!(bundle.len(), 2);

    let removed = bundle.remove_expired(now);
    assert_eq!(removed, 1);
    assert_eq!(bundle.len(), 1);
    // node_id index cleaned up
    assert!(!bundle.validate_node_id("expired-node", now));
    assert!(bundle.validate_node_id("valid-node", now));
}

#[test]
fn test_time_remaining() {
    let authority = DeviceKeypair::generate();
    let member = DeviceKeypair::generate();
    let now = now_ms();

    let cert = make_cert(
        &authority,
        &member,
        "tac-1",
        MeshTier::Tactical,
        permissions::STANDARD,
        now,
        now + one_hour_ms(),
    );

    let remaining = cert.time_remaining_ms(now);
    assert!(remaining > 0);
    assert!(remaining <= one_hour_ms());

    let remaining_expired = cert.time_remaining_ms(now + 2 * one_hour_ms());
    assert_eq!(remaining_expired, 0);
}

#[test]
fn test_bundle_load_from_files() {
    let authority = DeviceKeypair::generate();
    let member = DeviceKeypair::generate();
    let stranger = DeviceKeypair::generate();
    let now = now_ms();
    let cert = make_cert(
        &authority,
        &member,
        "tac-1",
        MeshTier::Tactical,
        permissions::STANDARD,
        now,
        now + one_hour_ms(),
    );
    let foreign = make_cert(
        &stranger,
        &member,
        "tac-2",
        MeshTier::Tactical,
        permissions::STANDARD,
        now,
        now + one_hour_ms(),
    );

    let mut bundle = CertificateBundle::new();
    // Too short, and 32 bytes that are no point of the curve.
    let mut no_point = [0u8; 32];
    no_point[0] = 2;
    let keys = vec![authority.public_key_bytes().to_vec(), vec![1, 2, 3], no_point.to_vec()];
    assert_eq!(bundle.load_authorities(&keys), 1);
    assert_eq!(bundle.authority_count(), 1);

    let files = vec![cert.encode(), foreign.encode(), vec![0u8; 10]];
    assert_eq!(bundle.load_certificates(&files), 1);
    assert!(bundle.validate_peer(&member.public_key_bytes(), now));
    assert!(bundle.validate_node_id("tac-1", now));
    assert!(!bundle.validate_node_id("tac-2", now));
}

#[test]
fn test_tier_order_is_that_of_bytes() {
    let tiers = [MeshTier::Enterprise, MeshTier::Regional, MeshTier::Tactical, MeshTier::Edge];
    for (i, a) in tiers.iter().enumerate() {
        assert_eq!(a.to_byte(), i as u8);
        for b in tiers.iter() {
            assert_eq!(a < b, a.to_byte() < b.to_byte());
            assert_eq!(a.partial_cmp(b), Some(a.cmp(b)));
        }
    }
}

#[test]
fn test_unsigned_certificate_gives_nothing() {
    let mut bundle = CertificateBundle::new();
    bundle.add_certificate_unchecked(MeshCertificate::new(
        [1; 32],
        "M".to_string(),
        "n".to_string(),
        MeshTier::Edge,
        3,
        0,
        0,
        [2; 32],
    ));
    assert_eq!(bundle.get_peer_tier(&[1; 32]), None);
    assert_eq!(bundle.get_peer_permissions(&[1; 32]), None);
    assert_eq!(bundle.get_node_tier("n"), None);
    assert!(bundle.get_certificate(&[1; 32]).is_some());
}

#[test]
fn test_validation_asks_for_a_trusted_authority() {
    let authority = DeviceKeypair::generate();
    let member = DeviceKeypair::generate();
    let key = member.public_key_bytes();
    let cert = make_cert(&authority, &member, "node", MeshTier::Tactical, permissions::STANDARD, 10, 20);
    let mut bundle = CertificateBundle::new();
    bundle.add_certificate_unchecked(cert);
    assert!(!bundle.validate_peer(&key, 15));
    assert!(!bundle.validate_node_id("node", 15));
    assert_eq!(bundle.get_peer_tier(&key), Some(MeshTier::Tactical));
    assert_eq!(bundle.get_peer_tier_at(&key, 15), None);

    bundle.add_authority(authority.public_key_bytes());
    assert!(bundle.validate_peer(&key, 15));
    assert!(bundle.validate_node_id("node", 15));
    assert_eq!(bundle.get_peer_tier_at(&key, 15), Some(MeshTier::Tactical));
    assert_eq!(bundle.get_peer_permissions_at(&key, 15), Some(permissions::STANDARD));
    assert_eq!(bundle.get_node_tier_at("node", 15), Some(MeshTier::Tactical));
    for out in [9, 20] {
        assert_eq!(bundle.get_peer_tier_at(&key, out), None);
        assert_eq!(bundle.get_peer_permissions_at(&key, out), None);
        assert_eq!(bundle.get_node_tier_at("node", out), None);
    }
    bundle.clear_certificates();
    assert!(bundle.is_empty());
    assert_eq!(bundle.authority_count(), 1);
}

#[test]
fn test_indexes_agree() {
    let authority = DeviceKeypair::generate();
    let (a, b) = (DeviceKeypair::generate(), DeviceKeypair::generate());
    let cert = |who: &DeviceKeypair, name: &str, until: u64| {
        make_cert(&authority, who, name, MeshTier::Edge, permissions::RELAY, 0, until)
    };
    let holder = |bundle: &CertificateBundle, name: &str| {
        bundle.get_certificate_by_node_id(name).map(|c| c.subject_public_key)
    };
    let mut bundle = CertificateBundle::new();
    bundle.add_authority(authority.public_key_bytes());

    // A key that is filed under a new name gives its old one up
    bundle.add_certificate(cert(&a, "old", 100)).unwrap();
    bundle.add_certificate(cert(&a, "new", 100)).unwrap();
    assert_eq!(holder(&bundle, "old"), None);
    assert_eq!(holder(&bundle, "new"), Some(a.public_key_bytes()));

    // Of two that share a name, the one that was filed last holds it
    bundle.add_certificate(cert(&b, "new", 50)).unwrap();
    assert_eq!(holder(&bundle, "new"), Some(b.public_key_bytes()));
    assert_eq!(bundle.len(), 2);

    // Where it expires, the name falls to the one that remains
    assert_eq!(bundle.remove_expired(50), 1);
    assert_eq!(holder(&bundle, "new"), Some(a.public_key_bytes()));

    // So it does where the holder is renamed, and names may be empty
    bundle.add_certificate(cert(&b, "new", 90)).unwrap();
    bundle.add_certificate(cert(&b, "", 90)).unwrap();
    assert_eq!(holder(&bundle, "new"), Some(a.public_key_bytes()));
    assert_eq!(holder(&bundle, ""), None);
    assert_eq!(bundle.remove_expired(100), 2);
    assert_eq!(holder(&bundle, "new"), None);
}

#[test]
fn test_not_yet_issued_is_not_expired() {
    let mut bundle = CertificateBundle::new();
    bundle.add_certificate_unchecked(MeshCertificate::new(
        [1; 32],
        "M".to_string(),
        "n".to_string(),
        MeshTier::Edge,
        0,
        100,
        0,
        [2; 32],
    ));
    assert_eq!(bundle.remove_expired(50), 0);
    assert_eq!(bundle.len(), 1);
}

#[test]
fn test_certificate_wire_format() {
    let authority = DeviceKeypair::from_secret([7u8; 32]);
    let cert = MeshCertificate::new(
        [1u8; 32],
        "AB".to_string(),
        "n".to_string(),
        MeshTier::Edge,
        permissions::RELAY,
        0x0102030405060708,
        0,
        authority.public_key_bytes(),
    );
    let encoded = cert.encode();
    // subject, lengths and texts, tier, permissions, two times, issuer, signature
    let mut expected = vec![1u8; 32];
    expected.extend_from_slice(&cert.signable_bytes()[32..]);
    expected.extend_from_slice(&[0u8; 64]);
    assert_eq!(encoded, expected);
    assert_eq!(MeshCertificate::decode(&encoded).unwrap().signable_bytes(), cert.signable_bytes());
}

#[test]
fn test_certificate_decode_rejects() {
    let authority = DeviceKeypair::from_secret([7u8; 32]);
    let cert = make_cert(
        &authority,
        &authority,
        "node",
        MeshTier::Edge,
        permissions::RELAY,
        1,
        2,
    );
    let good = cert.encode();
    // Every proper prefix is refused.
    for n in 0..good.len() {
        assert!(matches!(MeshCertificate::decode(&good[..n]), Err(SecurityError::SerializationError(_))));
    }
    // The tier byte follows the two texts.
    let tier_at = good.len() - 64 - 32 - 16 - 2;
    let mut bad_tier = good.clone();
    assert_eq!(bad_tier[tier_at], 3);
    bad_tier[tier_at] = 9;
    assert!(MeshCertificate::decode(&bad_tier).is_err());
    // Changing one byte of what was signed breaks the signature.
    let mut bad_perms = good.clone();
    bad_perms[tier_at + 1] = permissions::ADMIN;
    let tampered = MeshCertificate::decode(&bad_perms).unwrap();
    assert!(matches!(tampered.verify(), Err(SecurityError::InvalidSignature(_))));
}

#[test]
fn test_verify_rejects_issuer_that_is_no_key() {
    let mut no_point = [0u8; 32];
    no_point[0] = 2;
    let cert = MeshCertificate::new(
        [1u8; 32],
        "AB".to_string(),
        "n".to_string(),
        MeshTier::Edge,
        0,
        0,
        0,
        no_point,
    );
    assert!(matches!(cert.verify(), Err(SecurityError::InvalidPublicKey(_))));
}

#[test]
fn test_not_yet_valid() {
    let authority = DeviceKeypair::generate();
    let cert = make_cert(&authority, &authority, "n", MeshTier::Edge, 0, 100, 200);
    assert!(!cert.is_valid(99));
    assert!(cert.is_valid(100));
    assert!(cert.is_valid(199));
    assert!(!cert.is_valid(200));
    assert_eq!(cert.time_remaining_ms(150), 50);
}

#[test]
fn test_ed25519_known_answer() {
    // The first test vector of RFC 8032.
    let secret = [
        0x9d, 0x61, 0xb1, 0x9d, 0xef, 0xfd, 0x5a, 0x60, 0xba, 0x84, 0x4a, 0xf4, 0x92, 0xec, 0x2c, 0xc4, 0x44, 0x49, 0xc5,
        0x69, 0x7b, 0x32, 0x69, 0x19, 0x70, 0x3b, 0xac, 0x03, 0x1c, 0xae, 0x7f, 0x60,
    ];
    let public = [
        0xd7, 0x5a, 0x98, 0x01, 0x82, 0xb1, 0x0a, 0xb7, 0xd5, 0x4b, 0xfe, 0xd3, 0xc9, 0x64, 0x07, 0x3a, 0x0e, 0xe1, 0x72,
        0xf3, 0xda, 0xa6, 0x23, 0x25, 0xaf, 0x02, 0x1a, 0x68, 0xf7, 0x07, 0x51, 0x1a,
    ];
    let keypair = DeviceKeypair::from_secret(secret);
    assert_eq!(keypair.public_key_bytes(), public);
    assert_eq!(keypair.secret_key_bytes(), secret);
    let signature = keypair.sign(b"");
    assert_eq!(signature[..4], [0xe5, 0x56, 0x43, 0x00]);
    assert!(keypair.verify(b"", &signature).is_ok());
    assert!(keypair.verify(b"x", &signature).is_err());
    assert_eq!(DeviceKeypair::from_secret_bytes(&secret).unwrap().public_key_bytes(), public);
    assert!(matches!(DeviceKeypair::from_secret_bytes(&secret[1..]), Err(SecurityError::KeypairError(_))));
}

#[test]
fn test_tier_name_outside_ascii() {
    assert_eq!(MeshTier::from_str_name("\u{2003}EDGE\u{a0}"), Some(MeshTier::Edge));
    assert_eq!(MeshTier::from_str_name("ed ge"), None);
}
