//! Settings of a node.

use base64::Engine;
use peat_mesh::node::{hash_name, DiscoveryMode, NodeEnv, NodeSettings};
use peat_mesh::security::keypair::DeviceKeypair;

fn empty_env() -> NodeEnv {
    NodeEnv {
        formation_secret: None,
        hostname: None,
        discovery: None,
        broker_port: None,
        iroh_bind_port: None,
        relay_urls: None,
        data_dir: None,
        lite_port: None,
    }
}

fn set(value: &str) -> Option<String> {
    Some(value.to_string())
}

#[test]
fn test_default_settings() {
    let env = NodeEnv { formation_secret: set(" AQID\n"), ..empty_env() };
    let settings = NodeSettings::from_env(&env, Ok(())).unwrap();
    assert_eq!(settings.hostname, "peat-mesh-0");
    assert_eq!(settings.discovery, DiscoveryMode::Kubernetes);
    assert_eq!((settings.broker_port, settings.iroh_bind_port, settings.lite_port), (8081, 11204, 5555));
    assert!(settings.relay_urls.is_empty());
    assert_eq!(settings.store_dir, "/data/automerge");
    assert_eq!(settings.blob_dir_name, "peat_iroh_blobs_peat-mesh-0");
    assert_eq!(settings.lite_node_id, hash_name("peat-mesh-0"));
    assert_eq!(settings.seed, [1, 2, 3]);

    let hk = hkdf::Hkdf::<sha2::Sha256>::new(None, &[1, 2, 3]);
    let mut key = [0u8; 32];
    hk.expand(b"iroh:peat-mesh-0", &mut key).unwrap();
    assert_eq!(settings.iroh_key, key);
    hk.expand(b"peat-ota-signing-v1", &mut key).unwrap();
    let keypair = settings.ota_keypair().unwrap();
    assert_eq!(keypair.public_key_bytes(), DeviceKeypair::from_secret(key).public_key_bytes());
}

#[test]
fn test_given_settings() {
    let env = NodeEnv {
        formation_secret: set("AQID"),
        hostname: set("n1"),
        discovery: set("mdns"),
        broker_port: set("+9000"),
        iroh_bind_port: set("70000"),
        relay_urls: set(" https://a ,, https://b,"),
        data_dir: set("/tmp/x"),
        lite_port: set("nonsense"),
    };
    let settings = NodeSettings::from_env(&env, Ok(())).unwrap();
    assert_eq!(settings.discovery, DiscoveryMode::Mdns);
    assert_eq!((settings.broker_port, settings.iroh_bind_port, settings.lite_port), (9000, 11204, 5555));
    assert_eq!(settings.relay_urls, ["https://a", "https://b"]);
    assert_eq!(settings.store_dir, "/tmp/x/automerge");
    let config = settings.lite_config();
    assert_eq!((config.listen_port, config.broadcast_port), (5555, 5555));
}

#[test]
fn test_refused_formation_key() {
    let refused = |env: &NodeEnv| NodeSettings::from_env(env, Err("too short".to_string())).err().unwrap();
    let env = NodeEnv { formation_secret: set("!"), discovery: set("dns"), ..empty_env() };
    assert_eq!(refused(&env), "Invalid PEAT_FORMATION_SECRET: too short");
    assert_eq!(refused(&empty_env()), "PEAT_FORMATION_SECRET is required");
}

#[test]
fn test_refused_settings() {
    let refused = |env: NodeEnv| match NodeSettings::from_env(&env, Ok(())) {
        Ok(_) => panic!("refused"),
        Err(e) => e,
    };
    assert_eq!(refused(empty_env()), "PEAT_FORMATION_SECRET is required");
    let e = base64::engine::general_purpose::STANDARD.decode("A").unwrap_err();
    assert_eq!(
        refused(NodeEnv { formation_secret: set("A"), ..empty_env() }),
        format!("Invalid base64 in PEAT_FORMATION_SECRET: {}", e)
    );
    assert_eq!(
        refused(NodeEnv { formation_secret: set("AQID"), discovery: set("dns"), ..empty_env() }),
        "Unknown PEAT_DISCOVERY mode: dns"
    );
}

#[test]
fn test_hash_name() {
    assert_eq!(hash_name(""), 0);
    assert_eq!(hash_name("a"), 97);
    assert_eq!(hash_name("ab"), 97 * 31 + 98);
    let wrapped = "peat-mesh-node-0".bytes().fold(0u32, |h, b| h.wrapping_mul(31).wrapping_add(b as u32));
    assert_eq!(hash_name("peat-mesh-node-0"), wrapped);
}

#[test]
fn test_base64_secrets() {
    let seed_of = |secret: &str| {
        let env = NodeEnv { formation_secret: set(secret), ..empty_env() };
        NodeSettings::from_env(&env, Ok(())).map(|settings| settings.seed)
    };
    for n in 0..70u8 {
        let bytes: Vec<u8> = (0..n).map(|i| i.wrapping_mul(37)).collect();
        let secret = base64::engine::general_purpose::STANDARD.encode(&bytes);
        assert_eq!(seed_of(&secret).unwrap(), bytes);
    }
    assert_eq!(seed_of("Zm8=").unwrap(), b"fo");
    for bad in ["A", "AA", "AA=", "AB==", "A===", "AA==A", "A A=", "-_=="] {
        assert!(seed_of(bad).is_err(), "{}", bad);
    }
}
