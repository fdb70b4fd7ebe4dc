//! The genesis of a mesh and its credentials.

use peat_mesh::security::bundle::CertificateBundle;
use peat_mesh::security::certificate::MeshTier;
use peat_mesh::security::error::SecurityError;
use peat_mesh::security::genesis::{MembershipPolicy, MeshCredentials, MeshGenesis};
use peat_mesh::security::keypair::DeviceKeypair;
use peat_mesh::security::permissions;

#[test]
fn test_create_genesis() {
    let genesis = MeshGenesis::create("ALPHA-TEAM", MembershipPolicy::Controlled);

    assert_eq!(genesis.mesh_name, "ALPHA-TEAM");
    assert_eq!(genesis.policy, MembershipPolicy::Controlled);
    assert!(genesis.created_at_ms > 0);
}

#[test]
fn test_mesh_id_format() {
    let genesis = MeshGenesis::create("TEST", MembershipPolicy::Open);
    let mesh_id = genesis.mesh_id();

    assert_eq!(mesh_id.len(), 8);
    assert!(mesh_id
        .chars()
        .all(|c| c.is_ascii_hexdigit() && !c.is_lowercase()));
}

#[test]
fn test_mesh_id_deterministic() {
    let seed = [0x42u8; 32];
    let genesis = MeshGenesis::with_seed("TEST", seed, MembershipPolicy::Open);

    assert_eq!(genesis.mesh_id(), genesis.mesh_id());
}

#[test]
fn test_different_names_different_ids() {
    let seed = [0x42u8; 32];
    let g1 = MeshGenesis::with_seed("ALPHA", seed, MembershipPolicy::Open);
    let g2 = MeshGenesis::with_seed("BRAVO", seed, MembershipPolicy::Open);

    assert_ne!(g1.mesh_id(), g2.mesh_id());
}

#[test]
fn test_different_seeds_different_ids() {
    let g1 = MeshGenesis::with_seed("TEST", [0x42u8; 32], MembershipPolicy::Open);
    let g2 = MeshGenesis::with_seed("TEST", [0x43u8; 32], MembershipPolicy::Open);

    assert_ne!(g1.mesh_id(), g2.mesh_id());
}

#[test]
fn test_formation_secret_deterministic() {
    let seed = [0x42u8; 32];
    let genesis = MeshGenesis::with_seed("TEST", seed, MembershipPolicy::Open);

    let s1 = genesis.formation_secret();
    let s2 = genesis.formation_secret();

    assert_eq!(s1, s2);
    assert_ne!(s1, seed); // Derived, not the seed itself
}

#[test]
fn test_formation_secret_differs_from_mesh_id_source() {
    let genesis = MeshGenesis::create("TEST", MembershipPolicy::Open);
    let formation = genesis.formation_secret();
    let mesh_id_bytes = genesis.derive("peat-mesh:mesh-id");

    assert_ne!(formation, mesh_id_bytes); // Different HKDF contexts
}

#[test]
fn test_authority_keypair_deterministic() {
    let seed = [0x42u8; 32];
    let g1 = MeshGenesis::with_seed("TEST", seed, MembershipPolicy::Open);
    let g2 = MeshGenesis::with_seed("TEST", seed, MembershipPolicy::Open);

    assert_eq!(g1.authority_public_key(), g2.authority_public_key());
}

#[test]
fn test_authority_can_sign_and_verify() {
    let genesis = MeshGenesis::create("TEST", MembershipPolicy::Open);
    let msg = b"hello mesh";
    let sig = genesis.authority().sign(msg);
    assert!(genesis.authority().verify(msg, &sig).is_ok());
}

#[test]
fn test_root_certificate() {
    let genesis = MeshGenesis::create("TEST", MembershipPolicy::Controlled);
    let root = genesis.root_certificate("enterprise-0");

    assert!(root.verify().is_ok());
    assert!(root.is_root());
    assert_eq!(root.mesh_id, genesis.mesh_id());
    assert_eq!(root.node_id, "enterprise-0");
    assert_eq!(root.tier, MeshTier::Enterprise);
    assert_eq!(root.permissions, permissions::AUTHORITY);
    assert_eq!(root.expires_at_ms, 0); // No expiration
    assert_eq!(root.subject_public_key, genesis.authority_public_key());
    assert_eq!(root.issuer_public_key, genesis.authority_public_key());
}

#[test]
fn test_issue_certificate() {
    let genesis = MeshGenesis::create("TEST", MembershipPolicy::Controlled);
    let member = DeviceKeypair::generate();

    let cert = genesis.issue_certificate(
        member.public_key_bytes(),
        "tac-west-1",
        MeshTier::Tactical,
        permissions::STANDARD,
        24 * 60 * 60 * 1000, // 24 hours
    );

    assert!(cert.verify().is_ok());
    assert!(!cert.is_root());
    assert_eq!(cert.mesh_id, genesis.mesh_id());
    assert_eq!(cert.node_id, "tac-west-1");
    assert_eq!(cert.tier, MeshTier::Tactical);
    assert_eq!(cert.permissions, permissions::STANDARD);
    assert_eq!(cert.subject_public_key, member.public_key_bytes());
    assert_eq!(cert.issuer_public_key, genesis.authority_public_key());
    assert!(cert.expires_at_ms > cert.issued_at_ms);
}

#[test]
fn test_issue_certificate_no_expiration() {
    let genesis = MeshGenesis::create("TEST", MembershipPolicy::Open);
    let member = DeviceKeypair::generate();

    let cert = genesis.issue_certificate(
        member.public_key_bytes(),
        "hub-1",
        MeshTier::Regional,
        permissions::STANDARD | permissions::ENROLL,
        0, // No expiration
    );

    assert!(cert.verify().is_ok());
    assert_eq!(cert.expires_at_ms, 0);
}

#[test]
fn test_credentials() {
    let genesis = MeshGenesis::create("TEST", MembershipPolicy::Controlled);
    let creds = genesis.credentials();

    assert_eq!(creds.mesh_id, genesis.mesh_id());
    assert_eq!(creds.mesh_name, genesis.mesh_name);
    assert_eq!(creds.formation_secret, genesis.formation_secret());
    assert_eq!(creds.authority_public_key, genesis.authority_public_key());
    assert_eq!(creds.policy, genesis.policy);
}

#[test]
fn test_encode_decode_genesis_roundtrip() {
    let genesis = MeshGenesis::create("ALPHA-TEAM", MembershipPolicy::Strict);
    let encoded = genesis.encode();
    let decoded = MeshGenesis::decode(&encoded).unwrap();

    assert_eq!(decoded.mesh_name, genesis.mesh_name);
    assert_eq!(decoded.mesh_id(), genesis.mesh_id());
    assert_eq!(decoded.formation_secret(), genesis.formation_secret());
    assert_eq!(
        decoded.authority_public_key(),
        genesis.authority_public_key()
    );
    assert_eq!(decoded.policy, genesis.policy);
}

#[test]
fn test_decode_genesis_too_short() {
    assert!(MeshGenesis::decode(&[0u8; 10]).is_err());
}

#[test]
fn test_decode_genesis_invalid_policy() {
    let genesis = MeshGenesis::create("X", MembershipPolicy::Open);
    let mut encoded = genesis.encode();
    // Corrupt the policy byte (last byte)
    *encoded.last_mut().unwrap() = 99;
    assert!(MeshGenesis::decode(&encoded).is_err());
}

#[test]
fn test_encode_decode_credentials_roundtrip() {
    let genesis = MeshGenesis::create("BRAVO-NET", MembershipPolicy::Controlled);
    let creds = genesis.credentials();
    let encoded = creds.encode();
    let decoded = MeshCredentials::decode(&encoded).unwrap();

    assert_eq!(decoded.mesh_id, creds.mesh_id);
    assert_eq!(decoded.mesh_name, creds.mesh_name);
    assert_eq!(decoded.formation_secret, creds.formation_secret);
    assert_eq!(decoded.authority_public_key, creds.authority_public_key);
    assert_eq!(decoded.policy, creds.policy);
}

#[test]
fn test_decode_credentials_too_short() {
    assert!(MeshCredentials::decode(&[0u8; 10]).is_err());
}

#[test]
fn test_with_authority_external_keypair() {
    let external_authority = DeviceKeypair::generate();
    let seed = [0x42u8; 32];
    let genesis = MeshGenesis::with_authority(
        "HSM-MESH",
        seed,
        external_authority.clone(),
        MembershipPolicy::Strict,
    );

    assert_eq!(
        genesis.authority_public_key(),
        external_authority.public_key_bytes()
    );
    // External authority ≠ seed-derived authority
    let derived = MeshGenesis::with_seed("HSM-MESH", seed, MembershipPolicy::Strict);
    assert_ne!(
        genesis.authority_public_key(),
        derived.authority_public_key()
    );
}

#[test]
fn test_policy_default() {
    assert_eq!(MembershipPolicy::default(), MembershipPolicy::Controlled);
}

#[test]
fn test_policy_from_str_name() {
    assert_eq!(
        MembershipPolicy::from_str_name("open"),
        Some(MembershipPolicy::Open)
    );
    assert_eq!(
        MembershipPolicy::from_str_name("CONTROLLED"),
        Some(MembershipPolicy::Controlled)
    );
    assert_eq!(
        MembershipPolicy::from_str_name(" Strict "),
        Some(MembershipPolicy::Strict)
    );
    assert_eq!(MembershipPolicy::from_str_name("invalid"), None);
}

#[test]
fn test_policy_byte_roundtrip() {
    for policy in [
        MembershipPolicy::Open,
        MembershipPolicy::Controlled,
        MembershipPolicy::Strict,
    ] {
        assert_eq!(MembershipPolicy::from_byte(policy.to_byte()), Some(policy));
    }
    assert_eq!(MembershipPolicy::from_byte(99), None);
}


#[test]
fn test_derivation_is_hkdf_sha256() {
    let genesis = MeshGenesis::with_seed("TEST", [0x42u8; 32], MembershipPolicy::Open);
    let hk = hkdf::Hkdf::<sha2::Sha256>::new(Some(b"TEST"), &[0x42u8; 32]);
    let mut id = [0u8; 32];
    hk.expand(b"peat-mesh:mesh-id", &mut id).unwrap();
    let mut secret = [0u8; 32];
    hk.expand(b"peat-mesh:formation-secret", &mut secret).unwrap();
    assert_eq!(genesis.formation_secret(), secret);
    assert_eq!(genesis.mesh_id(), hex::encode_upper(&id[..4]));
    assert_eq!(*genesis.mesh_seed(), [0x42u8; 32]);
}

#[test]
fn test_created_meshes_differ() {
    let a = MeshGenesis::create("TEST", MembershipPolicy::Open);
    let b = MeshGenesis::create("TEST", MembershipPolicy::Open);
    assert_ne!(a.mesh_seed(), b.mesh_seed());
}

#[test]
fn test_issued_certificate_is_admitted() {
    let genesis = MeshGenesis::with_seed_at("TEST", [1u8; 32], MembershipPolicy::Strict, 77);
    assert_eq!(genesis.created_at_ms, 77);
    let member = DeviceKeypair::generate();
    let cert = genesis.issue_certificate_at(
        member.public_key_bytes(),
        "n1",
        MeshTier::Edge,
        permissions::RELAY,
        50,
        1000,
    );
    assert_eq!(cert.expires_at_ms, 1050);
    let mut bundle = CertificateBundle::new();
    bundle.add_authority(genesis.authority_public_key());
    bundle.add_certificate(cert).unwrap();
    assert!(!bundle.validate_peer(&member.public_key_bytes(), 999));
    assert!(bundle.validate_peer(&member.public_key_bytes(), 1049));
    assert!(!bundle.validate_peer(&member.public_key_bytes(), 1050));
}

#[test]
fn test_decode_ignores_what_follows() {
    let genesis = MeshGenesis::with_seed_at("ALPHA", [1u8; 32], MembershipPolicy::Strict, 77);
    let mut encoded = genesis.encode();
    assert_eq!(encoded.len(), 75 + 5);
    for n in 0..encoded.len() {
        assert!(matches!(MeshGenesis::decode(&encoded[..n]), Err(SecurityError::SerializationError(_))));
    }
    encoded.push(1);
    let decoded = MeshGenesis::decode(&encoded).unwrap();
    assert_eq!(decoded.created_at_ms, 77);
    let creds = genesis.credentials().encode();
    for n in 0..creds.len() {
        assert!(MeshCredentials::decode(&creds[..n]).is_err());
    }
}

#[test]
fn test_decode_genesis_invalid_name() {
    let genesis = MeshGenesis::with_seed("X", [1u8; 32], MembershipPolicy::Open);
    let mut encoded = genesis.encode();
    encoded[2] = 0xff;
    match MeshGenesis::decode(&encoded) {
        Err(SecurityError::SerializationError(e)) => assert!(e.starts_with("invalid mesh_name: ")),
        _ => panic!("expected an error"),
    }
}

#[test]
fn test_policy_names() {
    assert_eq!(MembershipPolicy::Open.as_str(), "Open");
    assert_eq!(MembershipPolicy::Controlled.as_str(), "Controlled");
    assert_eq!(MembershipPolicy::Strict.as_str(), "Strict");
}

#[test]
fn test_encode_of_decode() {
    let genesis = MeshGenesis::with_seed_at("ALPHA", [1u8; 32], MembershipPolicy::Strict, 77);
    let encoded = genesis.encode();
    let mut longer = encoded.clone();
    longer.extend([1, 2, 3]);
    assert_eq!(MeshGenesis::decode(&longer).unwrap().encode(), encoded);
    let creds = genesis.credentials().encode();
    let mut longer = creds.clone();
    longer.push(9);
    assert_eq!(MeshCredentials::decode(&longer).unwrap().encode(), creds);
}

#[test]
fn test_what_a_genesis_says_of_itself() {
    let genesis = MeshGenesis::with_seed_at("ALPHA", [1u8; 32], MembershipPolicy::Strict, 77);
    assert_eq!(genesis.name(), "ALPHA");
    assert_eq!(genesis.membership_policy(), MembershipPolicy::Strict);
    assert_eq!(genesis.created_at(), 77);
}
