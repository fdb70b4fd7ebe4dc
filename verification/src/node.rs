//! Settings of a node, read from its environment, and what it does with messages of
//! firmware transfers.

use vstd::prelude::*;
use vstd::string::*;
use vstd::utf8::*;

use crate::base64_text;
use crate::base64_text::decode_base64;
use crate::security::crypto;
use crate::security::crypto::derive_key;
use crate::security::error;
use crate::security::error::{joined, joined3, SecurityError, SecurityErrorView};
use crate::security::keypair::DeviceKeypair;
use crate::text;
use crate::text_laws;
use crate::text::{parse_u16, split_list, text_eq, trimmed};
use crate::transport::lite::{LiteSyncMode, LiteTransportConfig};
use crate::transport::lite_ota;
use crate::transport::lite_ota::{OtaSender, SenderView};
use crate::transport::wire;
use crate::transport::wire::{LiteMessage, MessageType, MessageView};

verus! {

/// The variables of the environment that a node reads; `None` where one is not set.
#[derive(Debug)]
pub struct NodeEnv {
    /// `PEAT_FORMATION_SECRET`
    pub formation_secret: Option<String>,
    /// `HOSTNAME`
    pub hostname: Option<String>,
    /// `PEAT_DISCOVERY`
    pub discovery: Option<String>,
    /// `PEAT_BROKER_PORT`
    pub broker_port: Option<String>,
    /// `PEAT_IROH_BIND_PORT`
    pub iroh_bind_port: Option<String>,
    /// `PEAT_IROH_RELAY_URLS`
    pub relay_urls: Option<String>,
    /// `PEAT_DATA_DIR`
    pub data_dir: Option<String>,
    /// `PEAT_LITE_PORT`
    pub lite_port: Option<String>,
}

/// How a node finds others.
#[derive(Debug, Clone, Copy, PartialEq, Eq, Structural)]
pub enum DiscoveryMode {
    Kubernetes,
    Mdns,
}

/// The mode that a name stands for.
pub open spec fn mode_named(name: Seq<char>) -> Option<DiscoveryMode> {
    if name == "kubernetes"@ || name == "k8s"@ {
        Some(DiscoveryMode::Kubernetes)
    } else if name == "mdns"@ {
        Some(DiscoveryMode::Mdns)
    } else {
        None
    }
}

/// Settings of a node.
pub struct NodeSettings {
    pub hostname: String,
    pub discovery: DiscoveryMode,
    pub broker_port: u16,
    pub iroh_bind_port: u16,
    pub relay_urls: Vec<String>,
    /// The directory of the document store.
    pub store_dir: String,
    /// The name of the directory with blobs.
    pub blob_dir_name: String,
    /// The port on which lightweight nodes are served.
    pub lite_port: u16,
    /// Node ID on the transport for lightweight nodes.
    pub lite_node_id: u32,
    /// The formation secret.
    pub seed: Vec<u8>,
    /// The node's transport key.
    pub iroh_key: [u8; 32],
}

/// [`NodeSettings`] in terms of sequences.
#[verifier::ext_equal]
pub struct SettingsView {
    pub hostname: Seq<char>,
    pub discovery: DiscoveryMode,
    pub broker_port: u16,
    pub iroh_bind_port: u16,
    pub relay_urls: Seq<Seq<char>>,
    pub store_dir: Seq<char>,
    pub blob_dir_name: Seq<char>,
    pub lite_port: u16,
    pub lite_node_id: u32,
    pub seed: Seq<u8>,
    pub iroh_key: Seq<u8>,
}

impl View for NodeSettings {
    type V = SettingsView;

    open spec fn view(&self) -> SettingsView {
        SettingsView {
            hostname: self.hostname@,
            discovery: self.discovery,
            broker_port: self.broker_port,
            iroh_bind_port: self.iroh_bind_port,
            relay_urls: text::texts(self.relay_urls@),
            store_dir: self.store_dir@,
            blob_dir_name: self.blob_dir_name@,
            lite_port: self.lite_port,
            lite_node_id: self.lite_node_id,
            seed: self.seed@,
            iroh_key: self.iroh_key@,
        }
    }
}

/// A variable, or what stands for it where it is not set.
pub open spec fn or_else(var: Option<String>, otherwise: Seq<char>) -> Seq<char> {
    match var {
        Some(v) => v@,
        None => otherwise,
    }
}

/// The port that a variable gives, or another where it is not set or no port.
pub open spec fn port_or(var: Option<String>, otherwise: u16) -> u16 {
    match var {
        Some(v) => match text::decimal_u16(encode_utf8(v@)) {
            Some(p) => p,
            None => otherwise,
        },
        None => otherwise,
    }
}

/// A number for a name, by its bytes.
pub open spec fn name_hash(name: Seq<u8>) -> u32
    decreases name.len(),
{
    if name.len() == 0 {
        0
    } else {
        ((name_hash(name.drop_last()) * 31 + name.last()) % 0x1_0000_0000) as u32
    }
}

/// The settings that the environment gives, or why it gives none. `formation_key` is
/// what came of making the formation key from the secret.
pub open spec fn settings_of(env: NodeEnv, formation_key: Result<(), String>) -> Result<SettingsView, Seq<char>> {
    let hostname = or_else(env.hostname, "peat-mesh-0"@);
    let mode = or_else(env.discovery, "kubernetes"@);
    if env.formation_secret is None {
        Err("PEAT_FORMATION_SECRET is required"@)
    } else if formation_key is Err {
        Err("Invalid PEAT_FORMATION_SECRET: "@ + formation_key->Err_0@)
    } else {
        let secret = text::trim_text(env.formation_secret->Some_0@);
        match base64_text::base64_bytes(secret) {
            None => Err("Invalid base64 in PEAT_FORMATION_SECRET: "@ + base64_text::base64_error_text(secret)),
            Some(seed) => match mode_named(mode) {
                None => Err("Unknown PEAT_DISCOVERY mode: "@ + mode),
                Some(discovery) => Ok(
                    SettingsView {
                        hostname,
                        discovery,
                        broker_port: port_or(env.broker_port, 8081),
                        iroh_bind_port: port_or(env.iroh_bind_port, 11204),
                        relay_urls: match env.relay_urls {
                            Some(v) => text::list_items(v@),
                            None => Seq::empty(),
                        },
                        store_dir: or_else(env.data_dir, "/data"@) + "/automerge"@,
                        blob_dir_name: "peat_iroh_blobs_"@ + hostname,
                        lite_port: port_or(env.lite_port, 5555),
                        lite_node_id: name_hash(encode_utf8(hostname)),
                        seed,
                        iroh_key: crypto::hkdf_sha256(None, seed, encode_utf8("iroh:"@ + hostname)),
                    },
                ),
            },
        }
    }
}

fn text_or(var: &Option<String>, otherwise: &str) -> (r: String)
    ensures
        r@ == or_else(*var, otherwise@),
{
    match var {
        Some(v) => v.clone(),
        None => otherwise.to_owned(),
    }
}

fn read_port(var: &Option<String>, otherwise: u16) -> (r: u16)
    ensures
        r == port_or(*var, otherwise),
{
    match var {
        Some(v) => match parse_u16(v.as_str()) {
            Some(p) => p,
            None => otherwise,
        },
        None => otherwise,
    }
}

/// A number for a name.
pub fn hash_name(name: &str) -> (r: u32)
    ensures
        r == name_hash(encode_utf8(name@)),
{
    let raw = name.as_bytes();
    let mut hash: u32 = 0;
    let mut i: usize = 0;
    assert(raw@.take(0) =~= Seq::empty());
    while i < raw.len()
        invariant
            i <= raw@.len(),
            hash == name_hash(raw@.take(i as int)),
        decreases raw@.len() - i,
    {
        assert(raw@.take(i + 1).drop_last() =~= raw@.take(i as int));
        hash = ((hash as u64 * 31 + raw[i] as u64) % 0x1_0000_0000) as u32;
        i = i + 1;
    }
    assert(raw@.take(i as int) =~= raw@);
    hash
}

impl DiscoveryMode {
    /// The mode that a name stands for.
    pub fn from_name(name: &str) -> (r: Option<Self>)
        ensures
            r == mode_named(name@),
    {
        if text_eq(name, "kubernetes") || text_eq(name, "k8s") {
            Some(DiscoveryMode::Kubernetes)
        } else if text_eq(name, "mdns") {
            Some(DiscoveryMode::Mdns)
        } else {
            None
        }
    }
}

impl NodeSettings {
    /// Reads the settings from the environment. `formation_key` is what came of making
    /// the formation key from the secret in it: nothing where the key takes the secret,
    /// else why it does not.
    pub fn from_env(env: &NodeEnv, formation_key: Result<(), String>) -> (r: Result<Self, String>)
        ensures
            error::outcome(r) == settings_of(*env, formation_key),
    {
        let secret = match &env.formation_secret {
            Some(s) => trimmed(s.as_str()),
            None => return Err("PEAT_FORMATION_SECRET is required".to_owned()),
        };
        if let Err(e) = &formation_key {
            return Err(joined("Invalid PEAT_FORMATION_SECRET: ", e.as_str()));
        }
        let hostname = text_or(&env.hostname, "peat-mesh-0");
        let mode = text_or(&env.discovery, "kubernetes");
        let broker_port: u16 = read_port(&env.broker_port, 8081);
        let iroh_bind_port: u16 = read_port(&env.iroh_bind_port, 11204);
        let relay_urls = match &env.relay_urls {
            Some(v) => split_list(v.as_str()),
            None => Vec::new(),
        };
        let seed = match decode_base64(secret) {
            Ok(seed) => {
                proof {
                    base64_text::law_base64_roundtrip(seed@, secret@);
                }
                seed
            },
            Err(e) => return Err(joined("Invalid base64 in PEAT_FORMATION_SECRET: ", e.as_str())),
        };
        let context = joined("iroh:", hostname.as_str());
        let iroh_key = derive_key(None, seed.as_slice(), context.as_str().as_bytes());
        let discovery = match DiscoveryMode::from_name(mode.as_str()) {
            Some(m) => m,
            None => return Err(joined("Unknown PEAT_DISCOVERY mode: ", mode.as_str())),
        };
        let data_dir = text_or(&env.data_dir, "/data");
        let lite_port: u16 = read_port(&env.lite_port, 5555);
        let lite_node_id: u32 = hash_name(hostname.as_str());
        proof {
            assert(text::texts(Seq::<String>::empty()) =~= Seq::empty());
        }
        let r = NodeSettings {
            blob_dir_name: joined("peat_iroh_blobs_", hostname.as_str()),
            hostname,
            discovery,
            broker_port,
            iroh_bind_port,
            relay_urls,
            store_dir: joined(data_dir.as_str(), "/automerge"),
            lite_port,
            lite_node_id,
            seed,
            iroh_key,
        };
        assert(r@ =~= settings_of(*env, formation_key)->Ok_0);
        Ok(r)
    }

    /// The configuration of the transport for lightweight nodes: the usual one, with
    /// the node's port.
    pub fn lite_config(&self) -> (r: LiteTransportConfig)
        ensures
            r.listen_port == self.lite_port,
            r.broadcast_port == self.lite_port,
            r.peer_timeout_secs == 30,
            r.enable_broadcast,
            r.broadcast_interval_secs == 2,
            text::texts(r.outbound_collections@) == seq!["beacons"@, "alerts"@],
            text::texts(r.inbound_collections@) == seq!["lite_sensors"@, "lite_events"@, "lite_status"@],
            r.max_document_age_secs == 300,
            r.outbound_sync_mode == LiteSyncMode::LatestOnly,
    {
        let mut config = LiteTransportConfig::default();
        config.listen_port = self.lite_port;
        config.broadcast_port = self.lite_port;
        config
    }

    /// The keypair that signs firmware.
    pub fn ota_keypair(&self) -> (r: Result<DeviceKeypair, String>)
        ensures
            r is Ok,
            r->Ok_0.secret() == crypto::hkdf_sha256(None, self.seed@, encode_utf8("peat-ota-signing-v1"@)),
    {
        match DeviceKeypair::from_seed(self.seed.as_slice(), "peat-ota-signing-v1") {
            Ok(k) => Ok(k),
            Err(e) => Err(joined("OTA keypair derivation failed: ", e.text().as_str())),
        }
    }
}

/// The sender once a message of a transfer came from a peer.
pub open spec fn sender_after(
    sender: SenderView,
    peer: Seq<char>,
    msg_type: MessageType,
    payload: Seq<u8>,
    now: u64,
) -> SenderView {
    match msg_type {
        MessageType::OtaAccept => sender.after_accept(peer, payload, now),
        MessageType::OtaAck => sender.after_ack(peer, payload, now),
        MessageType::OtaResult => sender.after_result(peer, payload),
        MessageType::OtaAbort => sender.after_abort(peer, payload),
        _ => sender,
    }
}

/// What is sent to a peer once a message of a transfer came from it.
pub open spec fn sender_reply(
    sender: SenderView,
    peer: Seq<char>,
    msg_type: MessageType,
    payload: Seq<u8>,
) -> Option<MessageView> {
    match msg_type {
        MessageType::OtaAccept => sender.accept_reply(peer, payload),
        MessageType::OtaAck => sender.ack_reply(peer, payload),
        _ => None,
    }
}

/// Hands a message of a transfer to the sender; says what is to be sent to the peer.
pub fn dispatch_ota(sender: &mut OtaSender, peer_id: &str, msg_type: MessageType, payload: &[u8], now: u64) -> (r: Option<
    LiteMessage,
>)
    requires
        msg_type == MessageType::OtaAck && old(sender)@.addressed(peer_id@, payload@, 4) is Some
            ==> lite_ota::named_chunk(payload@) < 65535,
    ensures
        final(sender)@ == sender_after(old(sender)@, peer_id@, msg_type, payload@, now),
        wire::message_view(r) == sender_reply(old(sender)@, peer_id@, msg_type, payload@),
{
    match msg_type {
        MessageType::OtaAccept => sender.handle_accept(peer_id, payload, now),
        MessageType::OtaAck => sender.handle_ack(peer_id, payload, now),
        MessageType::OtaResult => {
            sender.handle_result(peer_id, payload);
            None
        },
        MessageType::OtaAbort => {
            sender.handle_abort(peer_id, payload);
            None
        },
        _ => None,
    }
}

/// A node starts exactly if it has a formation secret that makes a formation key and is
/// base64, and a known way to find others; nothing else in the environment can stop it. It
/// then has the bytes that the secret encodes, the name that it was given, and a key of its
/// own that comes from both.
pub proof fn law_settings(env: NodeEnv, formation_key: Result<(), String>, seed: Seq<u8>)
    ensures
        settings_of(env, formation_key) is Ok <==> {
            &&& env.formation_secret is Some
            &&& formation_key is Ok
            &&& base64_text::base64_bytes(text::trim_text(env.formation_secret->Some_0@)) is Some
            &&& env.discovery is None || env.discovery->Some_0@ == "kubernetes"@ || env.discovery->Some_0@ == "k8s"@
                || env.discovery->Some_0@ == "mdns"@
        },
        settings_of(env, formation_key) matches Ok(s) ==> {
            &&& text::trim_text(env.formation_secret->Some_0@) == base64_text::base64_text(seed) ==> s.seed == seed
            &&& env.hostname is Some ==> s.hostname == env.hostname->Some_0@
            &&& env.hostname is None ==> s.hostname == "peat-mesh-0"@
            &&& s.discovery == DiscoveryMode::Mdns <==> env.discovery is Some && env.discovery->Some_0@ == "mdns"@
            &&& s.iroh_key == crypto::hkdf_sha256(None, s.seed, encode_utf8("iroh:"@ + s.hostname))
            &&& s.lite_node_id == name_hash(encode_utf8(s.hostname))
            &&& s.blob_dir_name == "peat_iroh_blobs_"@ + s.hostname
            &&& env.data_dir is Some ==> s.store_dir == env.data_dir->Some_0@ + "/automerge"@
            &&& env.data_dir is None ==> s.store_dir == "/data"@ + "/automerge"@
            &&& env.broker_port is None ==> s.broker_port == 8081
            &&& env.iroh_bind_port is None ==> s.iroh_bind_port == 11204
            &&& env.lite_port is None ==> s.lite_port == 5555
            &&& env.relay_urls is None ==> s.relay_urls.len() == 0
            &&& env.relay_urls is Some ==> s.relay_urls == text::list_items(env.relay_urls->Some_0@)
        },
        env.formation_secret is None ==> settings_of(env, formation_key) is Err,
{
    reveal_strlit("kubernetes");
    reveal_strlit("k8s");
    reveal_strlit("mdns");
    assert("kubernetes"@.len() == 10 && "k8s"@.len() == 3 && "mdns"@.len() == 4);
    base64_text::law_base64_roundtrip(seed, Seq::empty());
}

/// Each port is the number that its own variable gives, and no variable sets another's.
pub proof fn law_ports(env: NodeEnv, formation_key: Result<(), String>, port: u16)
    requires
        settings_of(env, formation_key) is Ok,
    ensures
        ({
            let s = settings_of(env, formation_key)->Ok_0;
            let numeral = text::decimal(port as nat);
            &&& env.broker_port is Some && env.broker_port->Some_0@ == numeral ==> s.broker_port == port
            &&& env.iroh_bind_port is Some && env.iroh_bind_port->Some_0@ == numeral ==> s.iroh_bind_port == port
            &&& env.lite_port is Some && env.lite_port->Some_0@ == numeral ==> s.lite_port == port
            &&& env.broker_port is Some && text::decimal_u16(encode_utf8(env.broker_port->Some_0@)) is None
                ==> s.broker_port == 8081
            &&& env.iroh_bind_port is Some && text::decimal_u16(encode_utf8(env.iroh_bind_port->Some_0@)) is None
                ==> s.iroh_bind_port == 11204
            &&& env.lite_port is Some && text::decimal_u16(encode_utf8(env.lite_port->Some_0@)) is None ==> s.lite_port
                == 5555
        }),
{
    text_laws::law_decimal_roundtrip(port as nat);
}

/// The number for a name is that of its beginning, taken 31 times for each byte that
/// follows, and then the bytes that follow; so names with the same number have the same
/// number with anything behind them.
pub proof fn law_name_numbers(a: Seq<u8>, b: Seq<u8>, x: u8, y: u8)
    ensures
        name_hash(seq![x]) == x,
        name_hash(seq![x, y]) == 31 * x + y,
        31 * name_hash(a) + x <= u32::MAX ==> name_hash(a.push(x)) == 31 * name_hash(a) + x,
        name_hash(a) == name_hash(b) ==> name_hash(a.push(x)) == name_hash(b.push(x)),
        name_hash(a.push(x)) == name_hash(a.push(y)) <==> x == y,
{
    reveal_with_fuel(name_hash, 3);
    assert(seq![x].drop_last() =~= Seq::empty());
    assert(seq![x, y].drop_last() =~= seq![x]);
    assert(a.push(x).drop_last() =~= a);
    assert(a.push(y).drop_last() =~= a);
    assert(b.push(x).drop_last() =~= b);
}

/// Every message of a transfer that is handed on reaches the sender as what it is: an accept
/// starts the transfer, an acknowledgement moves it on, a result or an abort ends it. Only
/// the first two are answered, and other messages change nothing.
pub proof fn law_transfer_messages(
    sender: SenderView,
    peer: Seq<char>,
    msg_type: MessageType,
    payload: Seq<u8>,
    now: u64,
)
    ensures
        ({
            let after = sender_after(sender, peer, msg_type, payload, now);
            let reply = sender_reply(sender, peer, msg_type, payload);
            let named = payload.len() >= 4 && sender.sessions.contains_key(peer) && sender.sessions[peer].session_id
                == lite_ota::named_session(payload);
            &&& named && msg_type == MessageType::OtaAccept ==> after.sessions[peer].state
                == lite_ota::StateView::Transferring {
                current_chunk: lite_ota::named_chunk(payload),
                last_sent_at: now,
                retries: 0,
            } && reply == sender.accept_reply(peer, payload)
            &&& named && msg_type == MessageType::OtaAck && lite_ota::named_chunk(payload) < 65535
                ==> after.sessions[peer].chunks_acked == lite_ota::named_chunk(payload) + 1 && reply == sender.ack_reply(
                peer,
                payload,
            )
            &&& named && msg_type == MessageType::OtaResult ==> (after.sessions[peer].state is Complete <==> payload[2]
                == 0) && (after.sessions[peer].state is Failed <==> payload[2] != 0)
            &&& named && msg_type == MessageType::OtaAbort ==> after.sessions[peer].state is Failed
            &&& reply is Some ==> msg_type == MessageType::OtaAccept || msg_type == MessageType::OtaAck
            &&& msg_type != MessageType::OtaAccept && msg_type != MessageType::OtaAck && msg_type
                != MessageType::OtaResult && msg_type != MessageType::OtaAbort ==> after == sender
        }),
{
}

/// A node that does not start says what is wrong, and of several things the first: no
/// secret, one that makes no key, one that is no base64, an unknown way to find others.
pub proof fn law_settings_errors(env: NodeEnv, formation_key: Result<(), String>)
    ensures
        env.formation_secret is None ==> settings_of(env, formation_key) == Err::<SettingsView, Seq<char>>(
            "PEAT_FORMATION_SECRET is required"@,
        ),
        env.formation_secret is Some && formation_key is Err ==> settings_of(env, formation_key) == Err::<
            SettingsView,
            Seq<char>,
        >("Invalid PEAT_FORMATION_SECRET: "@ + formation_key->Err_0@),
        env.formation_secret is Some && formation_key is Ok ==> {
            let secret = text::trim_text(env.formation_secret->Some_0@);
            let bytes = base64_text::base64_bytes(secret);
            &&& bytes is None ==> settings_of(env, formation_key) == Err::<SettingsView, Seq<char>>(
                "Invalid base64 in PEAT_FORMATION_SECRET: "@ + base64_text::base64_error_text(secret),
            )
            &&& bytes is Some && settings_of(env, formation_key) is Err ==> env.discovery is Some && settings_of(
                env,
                formation_key,
            )->Err_0 == "Unknown PEAT_DISCOVERY mode: "@ + env.discovery->Some_0@
        },
{
    reveal_strlit("kubernetes");
    reveal_strlit("k8s");
    reveal_strlit("mdns");
}

} // verus!
