//! Transport for lightweight nodes.
//!
//! Peers are known by the messages that come from them. This module keeps the
//! peers and says what is to be done for each message; sockets and callbacks are
//! the caller's. Times are nanoseconds of a clock that does not go back.

use vstd::prelude::*;
use vstd::string::*;

use crate::security::error::joined;
use crate::text;
use crate::text::{decimal_string, hex8_string, lists_text, push_text};
use crate::transport::wire;
use crate::transport::wire::{
    CrdtType, LiteCapabilities, LiteCapabilitiesExt, LiteMessage, MessageType, MessageView, QueryRequest,
    QueryRequestView,
};
use crate::vec_map;
use crate::vec_map::VecMap;

verus! {

/// The name by which a node is known.
#[derive(Debug)]
pub struct NodeId {
    id: String,
}

impl View for NodeId {
    type V = Seq<char>;

    closed spec fn view(&self) -> Seq<char> {
        self.id@
    }
}

impl NodeId {
    pub fn new(id: String) -> (r: Self)
        ensures
            r@ == id@,
    {
        NodeId { id }
    }

    pub fn as_str(&self) -> (r: &str)
        ensures
            r@ == self@,
    {
        self.id.as_str()
    }
}

impl Clone for NodeId {
    fn clone(&self) -> (r: Self)
        ensures
            r@ == self@,
    {
        NodeId { id: self.id.clone() }
    }
}

/// Sync mode for data that goes to lightweight nodes.
#[derive(Debug, Clone, Copy, PartialEq, Eq, Structural)]
pub enum LiteSyncMode {
    /// Only send latest state (no history)
    LatestOnly,
    /// Send deltas since last sync
    DeltaSync,
    /// No outbound sync (receive only)
    ReceiveOnly,
}

impl Default for LiteSyncMode {
    fn default() -> (r: Self)
        ensures
            r == LiteSyncMode::LatestOnly,
    {
        LiteSyncMode::LatestOnly
    }
}

/// Configuration of the transport.
#[derive(Debug)]
pub struct LiteTransportConfig {
    /// Port to listen on for incoming messages
    pub listen_port: u16,
    /// Port to broadcast to (usually same as listen_port)
    pub broadcast_port: u16,
    /// Seconds before considering a peer offline (no heartbeat)
    pub peer_timeout_secs: u64,
    /// Enable broadcast sending (for bidirectional sync)
    pub enable_broadcast: bool,
    /// Broadcast interval in seconds
    pub broadcast_interval_secs: u64,
    /// Collections to send to lightweight nodes. If empty, no outbound sync.
    pub outbound_collections: Vec<String>,
    /// Collections to accept from lightweight nodes. If empty, accepts all.
    pub inbound_collections: Vec<String>,
    /// Maximum document age (seconds) to send to lightweight nodes. Older documents are
    /// skipped to save bandwidth; 0 = no age limit
    pub max_document_age_secs: u64,
    /// Sync mode for outbound data
    pub outbound_sync_mode: LiteSyncMode,
}

impl Default for LiteTransportConfig {
    fn default() -> (r: Self)
        ensures
            r.listen_port == 5555,
            r.broadcast_port == 5555,
            r.peer_timeout_secs == 30,
            r.enable_broadcast,
            r.broadcast_interval_secs == 2,
            text::texts(r.outbound_collections@) == seq!["beacons"@, "alerts"@],
            text::texts(r.inbound_collections@) == seq!["lite_sensors"@, "lite_events"@, "lite_status"@],
            r.max_document_age_secs == 300,
            r.outbound_sync_mode == LiteSyncMode::LatestOnly,
    {
        let mut outbound: Vec<String> = Vec::new();
        outbound.push("beacons".to_owned());
        outbound.push("alerts".to_owned());
        let mut inbound: Vec<String> = Vec::new();
        inbound.push("lite_sensors".to_owned());
        inbound.push("lite_events".to_owned());
        inbound.push("lite_status".to_owned());
        proof {
            assert(text::texts(outbound@) =~= seq!["beacons"@, "alerts"@]);
            assert(text::texts(inbound@) =~= seq!["lite_sensors"@, "lite_events"@, "lite_status"@]);
        }
        LiteTransportConfig {
            listen_port: wire::DEFAULT_PORT,
            broadcast_port: wire::DEFAULT_PORT,
            peer_timeout_secs: 30,
            enable_broadcast: true,
            broadcast_interval_secs: 2,
            outbound_collections: outbound,
            inbound_collections: inbound,
            max_document_age_secs: 300,
            outbound_sync_mode: LiteSyncMode::LatestOnly,
        }
    }
}

/// State tracked for each lightweight peer.
#[derive(Debug)]
pub struct LitePeerState {
    /// Node ID from the wire protocol
    pub node_id_raw: u32,
    /// Last known address
    pub address: String,
    /// Capabilities announced by peer
    pub capabilities: LiteCapabilities,
    /// When the last message came
    pub last_seen: u64,
    /// Last sequence number received
    pub last_seq: u32,
    /// When connection was established
    pub connected_at: u64,
    /// Message count received
    pub message_count: u64,
}

/// A [`LitePeerState`] in terms of sequences.
#[verifier::ext_equal]
pub struct PeerView {
    pub node_id_raw: u32,
    pub address: Seq<char>,
    pub capabilities: u16,
    pub last_seen: u64,
    pub last_seq: u32,
    pub connected_at: u64,
    pub message_count: u64,
}

impl View for LitePeerState {
    type V = PeerView;

    open spec fn view(&self) -> PeerView {
        PeerView {
            node_id_raw: self.node_id_raw,
            address: self.address@,
            capabilities: self.capabilities.flags(),
            last_seen: self.last_seen,
            last_seq: self.last_seq,
            connected_at: self.connected_at,
            message_count: self.message_count,
        }
    }
}

/// The time from `since` to `now`; none where `now` is not later.
pub open spec fn elapsed(since: u64, now: u64) -> u64 {
    if now >= since {
        (now - since) as u64
    } else {
        0
    }
}

/// Whether more than a number of seconds has gone by.
pub open spec fn longer_than(since: u64, now: u64, secs: u64) -> bool {
    elapsed(since, now) > secs * 1_000_000_000
}

/// Why a connection ended.
#[derive(Debug, Clone, Copy, PartialEq, Eq, Structural)]
pub enum DisconnectReason {
    /// The peer left.
    RemoteClosed,
    /// Nothing was heard of the peer for too long.
    Timeout,
    /// This node let the peer go.
    LocalClosed,
}

/// What happens to peers.
#[derive(Debug)]
pub enum PeerEvent {
    Connected { peer_id: NodeId, connected_at: u64 },
    Disconnected { peer_id: NodeId, reason: DisconnectReason, connection_duration: u64 },
}

/// A [`PeerEvent`] in terms of sequences.
#[verifier::ext_equal]
pub enum EventView {
    Connected { peer_id: Seq<char>, connected_at: u64 },
    Disconnected { peer_id: Seq<char>, reason: DisconnectReason, connection_duration: u64 },
}

impl View for PeerEvent {
    type V = EventView;

    open spec fn view(&self) -> EventView {
        match self {
            PeerEvent::Connected { peer_id, connected_at } => EventView::Connected {
                peer_id: peer_id@,
                connected_at: *connected_at,
            },
            PeerEvent::Disconnected { peer_id, reason, connection_duration } => EventView::Disconnected {
                peer_id: peer_id@,
                reason: *reason,
                connection_duration: *connection_duration,
            },
        }
    }
}

/// A list of events by their views.
pub open spec fn events_view(v: Seq<PeerEvent>) -> Seq<EventView> {
    v.map_values(|e: PeerEvent| e@)
}

/// What a message asks of the node.
#[derive(Debug)]
pub enum Inbound {
    /// Nothing.
    Nothing,
    /// CRDT data for a document of a collection.
    Crdt { collection: String, doc_id: String, crdt_type: CrdtType, data: Vec<u8> },
    /// A query.
    Query { request: QueryRequest },
    /// A message of a firmware transfer.
    Ota { peer_id: String, msg_type: MessageType, payload: Vec<u8> },
}

/// An [`Inbound`] in terms of sequences.
#[verifier::ext_equal]
pub enum InboundView {
    Nothing,
    Crdt { collection: Seq<char>, doc_id: Seq<char>, crdt_type: CrdtType, data: Seq<u8> },
    Query { request: QueryRequestView },
    Ota { peer_id: Seq<char>, msg_type: MessageType, payload: Seq<u8> },
}

impl View for Inbound {
    type V = InboundView;

    open spec fn view(&self) -> InboundView {
        match self {
            Inbound::Nothing => InboundView::Nothing,
            Inbound::Crdt { collection, doc_id, crdt_type, data } => InboundView::Crdt {
                collection: collection@,
                doc_id: doc_id@,
                crdt_type: *crdt_type,
                data: data@,
            },
            Inbound::Query { request } => InboundView::Query { request: request@ },
            Inbound::Ota { peer_id, msg_type, payload } => InboundView::Ota {
                peer_id: peer_id@,
                msg_type: *msg_type,
                payload: payload@,
            },
        }
    }
}

/// What came of a message: the events to send to subscribers, in order, and what
/// is asked of the node.
#[derive(Debug)]
pub struct Handled {
    pub events: Vec<PeerEvent>,
    pub action: Inbound,
}

/// Why the transport could not do something.
#[derive(Debug)]
pub enum TransportError {
    /// The transport is not running.
    NotStarted,
    /// No peer of that name is known.
    PeerNotFound(String),
    /// Something else.
    Other(String),
}

/// A [`TransportError`] in terms of sequences.
pub enum TransportErrorView {
    NotStarted,
    PeerNotFound(Seq<char>),
    Other(Seq<char>),
}

impl View for TransportError {
    type V = TransportErrorView;

    open spec fn view(&self) -> TransportErrorView {
        match self {
            TransportError::NotStarted => TransportErrorView::NotStarted,
            TransportError::PeerNotFound(s) => TransportErrorView::PeerNotFound(s@),
            TransportError::Other(s) => TransportErrorView::Other(s@),
        }
    }
}

/// How well a connection is doing.
#[derive(Debug, Clone, Copy, PartialEq, Eq, Structural)]
pub enum ConnectionState {
    Healthy,
    Degraded,
    Dead,
}

/// Health of a connection.
#[derive(Debug, Clone, Copy, PartialEq, Eq, Structural)]
pub struct ConnectionHealth {
    pub rtt_ms: u32,
    pub rtt_variance_ms: u32,
    pub packet_loss_percent: u8,
    pub state: ConnectionState,
    pub last_activity: u64,
}

/// The state of a connection by the time since the last message: healthy below
/// 10 seconds, degraded below 30.
pub open spec fn health_state(last_seen: u64, now: u64) -> ConnectionState {
    if elapsed(last_seen, now) < 10_000_000_000 {
        ConnectionState::Healthy
    } else if elapsed(last_seen, now) < 30_000_000_000 {
        ConnectionState::Degraded
    } else {
        ConnectionState::Dead
    }
}

/// Virtual connection to a lightweight peer.
#[derive(Debug)]
pub struct LiteConnection {
    node_id: NodeId,
    connected_at: u64,
}

impl LiteConnection {
    /// The peer's name.
    pub closed spec fn peer(self) -> Seq<char> {
        self.node_id@
    }

    /// When the connection was established.
    pub closed spec fn since(self) -> u64 {
        self.connected_at
    }

    /// The peer's name.
    pub fn peer_id(&self) -> (r: &NodeId)
        ensures
            r@ == self.peer(),
    {
        &self.node_id
    }

    /// Whether a message came within the last 30 seconds, by what is known of the
    /// peer.
    pub fn is_alive(&self, state: &LitePeerState, now: u64) -> (r: bool)
        ensures
            r == (elapsed(state.last_seen, now) < 30_000_000_000),
    {
        now.saturating_sub(state.last_seen) < 30_000_000_000
    }

    /// When the connection was established.
    pub fn connected_at(&self) -> (r: u64)
        ensures
            r == self.since(),
    {
        self.connected_at
    }
}

/// The name of the peer with a node ID.
pub open spec fn peer_name(node_id: u32) -> Seq<char> {
    "lite-"@ + text::hex8(node_id)
}

/// What is known of a peer once `msg` came from it.
pub open spec fn touched(known: Option<PeerView>, msg: MessageView, src: Seq<char>, now: u64) -> PeerView {
    let announced = msg.msg_type == MessageType::Announce && msg.payload.len() > 0;
    match known {
        Some(p) => PeerView {
            last_seen: now,
            last_seq: msg.seq_num,
            address: src,
            message_count: (p.message_count + 1) as u64,
            capabilities: if announced {
                wire::announced_flags(msg.payload)
            } else {
                p.capabilities
            },
            ..p
        },
        None => PeerView {
            node_id_raw: msg.node_id,
            address: src,
            capabilities: if announced {
                wire::announced_flags(msg.payload)
            } else {
                0
            },
            last_seen: now,
            last_seq: msg.seq_num,
            connected_at: now,
            message_count: 1,
        },
    }
}

/// Whether a collection is accepted: it must be listed, unless none is.
pub open spec fn accepts(inbound: Seq<Seq<char>>, collection: Seq<char>) -> bool {
    inbound.len() == 0 || inbound.contains(collection)
}

/// What `msg` asks of a node that accepts the `inbound` collections.
pub open spec fn asked(msg: MessageView, inbound: Seq<Seq<char>>) -> InboundView {
    match msg.msg_type {
        MessageType::Data => if msg.payload.len() > 0 && wire::crdt_type_of(msg.payload[0]) is Some && accepts(
            inbound,
            "lite_sensors"@,
        ) {
            InboundView::Crdt {
                collection: "lite_sensors"@,
                doc_id: peer_name(msg.node_id),
                crdt_type: wire::crdt_type_of(msg.payload[0])->Some_0,
                data: msg.payload.subrange(1, msg.payload.len() as int),
            }
        } else {
            InboundView::Nothing
        },
        MessageType::Query => match wire::parse_query(msg.payload) {
            Some(q) => InboundView::Query { request: q },
            None => InboundView::Nothing,
        },
        MessageType::OtaAccept
        | MessageType::OtaAck
        | MessageType::OtaResult
        | MessageType::OtaAbort => InboundView::Ota {
            peer_id: peer_name(msg.node_id),
            msg_type: msg.msg_type,
            payload: msg.payload,
        },
        _ => InboundView::Nothing,
    }
}

/// What a [`LiteMeshTransport`] holds.
#[verifier::ext_equal]
pub struct TransportView {
    pub local_node_id: u32,
    pub seq_num: u32,
    pub running: bool,
    pub peers: Map<Seq<char>, PeerView>,
}

impl TransportView {
    /// What is known of a peer.
    pub open spec fn peer(self, name: Seq<char>) -> Option<PeerView> {
        if self.peers.contains_key(name) {
            Some(self.peers[name])
        } else {
            None
        }
    }

    /// The transport once `msg` was handled. Messages of this node itself change
    /// nothing, and a peer that leaves is forgotten.
    pub open spec fn after(self, msg: MessageView, src: Seq<char>, now: u64) -> TransportView {
        let name = peer_name(msg.node_id);
        if msg.node_id == self.local_node_id {
            self
        } else if msg.msg_type == MessageType::Leave {
            TransportView { peers: self.peers.remove(name), ..self }
        } else {
            TransportView { peers: self.peers.insert(name, touched(self.peer(name), msg, src, now)), ..self }
        }
    }

    /// The events that `msg` gives rise to: a peer that was not known connects,
    /// one that leaves disconnects.
    pub open spec fn events(self, msg: MessageView, src: Seq<char>, now: u64) -> Seq<EventView> {
        let name = peer_name(msg.node_id);
        if msg.node_id == self.local_node_id {
            Seq::empty()
        } else {
            (if self.peers.contains_key(name) {
                Seq::empty()
            } else {
                seq![EventView::Connected { peer_id: name, connected_at: now }]
            }) + (if msg.msg_type == MessageType::Leave {
                seq![
                    EventView::Disconnected {
                        peer_id: name,
                        reason: DisconnectReason::RemoteClosed,
                        connection_duration: elapsed(touched(self.peer(name), msg, src, now).connected_at, now),
                    },
                ]
            } else {
                Seq::empty()
            })
        }
    }

    /// Whether nothing was heard of a known peer for longer than the timeout.
    pub open spec fn stale(self, name: Seq<char>, timeout_secs: u64, now: u64) -> bool {
        self.peers.contains_key(name) && longer_than(self.peers[name].last_seen, now, timeout_secs)
    }

    /// The transport without its stale peers.
    pub open spec fn without_stale(self, timeout_secs: u64, now: u64) -> TransportView {
        TransportView {
            peers: self.peers.restrict(
                Set::new(|n: Seq<char>| self.peers.contains_key(n) && !self.stale(n, timeout_secs, now)),
            ),
            ..self
        }
    }

    /// Whether `event` is the timeout of a stale peer.
    pub open spec fn timed_out(self, name: Seq<char>, secs: u64, now: u64, event: EventView) -> bool {
        self.stale(name, secs, now) && event == self.goodbye(name, DisconnectReason::Timeout, now)
    }

    /// Whether `event` is the timeout of some stale peer.
    pub open spec fn is_timeout(self, secs: u64, now: u64, event: EventView) -> bool {
        exists|name: Seq<char>| #[trigger] self.timed_out(name, secs, now, event)
    }

    /// The event for a peer that is let go.
    pub open spec fn goodbye(self, name: Seq<char>, reason: DisconnectReason, now: u64) -> EventView {
        EventView::Disconnected {
            peer_id: name,
            reason,
            connection_duration: elapsed(self.peers[name].connected_at, now),
        }
    }
}

/// Transport for communicating with lightweight nodes.
pub struct LiteMeshTransport {
    config: LiteTransportConfig,
    peers: VecMap<String, LitePeerState>,
    running: bool,
    /// Our node ID (for outgoing messages)
    pub local_node_id: u32,
    /// Sequence number of the last outgoing message
    pub seq_num: u32,
}

impl View for LiteMeshTransport {
    type V = TransportView;

    closed spec fn view(&self) -> TransportView {
        TransportView {
            local_node_id: self.local_node_id,
            seq_num: self.seq_num,
            running: self.running,
            peers: self.peers@.map_values(|p: LitePeerState| p@),
        }
    }
}

impl LiteMeshTransport {
    /// The configuration, which never changes.
    pub closed spec fn settings(self) -> LiteTransportConfig {
        self.config
    }

    /// The collections that are accepted from lightweight nodes; if none is listed, all
    /// are.
    pub open spec fn inbound(self) -> Seq<Seq<char>> {
        text::texts(self.settings().inbound_collections@)
    }

    /// The seconds after which a silent peer is stale.
    pub open spec fn timeout_secs(self) -> u64 {
        self.settings().peer_timeout_secs
    }

    /// Create a new transport
    pub fn new(config: LiteTransportConfig, local_node_id: u32) -> (r: Self)
        ensures
            r@ == (TransportView { local_node_id, seq_num: 0, running: false, peers: Map::empty() }),
            r.settings() == config,
    {
        let peers: VecMap<String, LitePeerState> = VecMap::new();
        proof {
            assert(peers@.map_values(|p: LitePeerState| p@) =~= Map::<Seq<char>, PeerView>::empty());
        }
        LiteMeshTransport { config, peers, running: false, local_node_id, seq_num: 0 }
    }

    /// Our node ID.
    pub fn local_id(&self) -> (r: u32)
        ensures
            r == self@.local_node_id,
    {
        self.local_node_id
    }

    /// The sequence number of the last outgoing message.
    pub fn last_seq(&self) -> (r: u32)
        ensures
            r == self@.seq_num,
    {
        self.seq_num
    }

    /// Handle an incoming message from the address `src`. Data of a collection that is
    /// not accepted asks for nothing.
    pub fn handle_message(&mut self, msg: LiteMessage, src: String, now: u64) -> (r: Handled)
        requires
            old(self)@.peers.contains_key(peer_name(msg.node_id)) && msg.node_id != old(self)@.local_node_id
                ==> old(self)@.peers[peer_name(msg.node_id)].message_count < u64::MAX,
        ensures
            final(self)@ == old(self)@.after(msg@, src@, now),
            events_view(r.events@) == old(self)@.events(msg@, src@, now),
            r.action@ == if msg.node_id == old(self)@.local_node_id {
                InboundView::Nothing
            } else {
                asked(msg@, old(self).inbound())
            },
            final(self).settings() == old(self).settings(),
    {
        let mut events: Vec<PeerEvent> = Vec::new();
        if msg.node_id == self.local_node_id {
            assert(events_view(events@) =~= Seq::<EventView>::empty());
            return Handled { events, action: Inbound::Nothing };
        }
        let name = joined("lite-", hex8_string(msg.node_id).as_str());
        let ghost m = msg@;
        let ghost before = self@;
        let announced = msg.msg_type == MessageType::Announce && msg.payload.len() > 0;
        let state = match self.peers.get(&name) {
            Some(p) => LitePeerState {
                node_id_raw: p.node_id_raw,
                address: src,
                capabilities: if announced {
                    LiteCapabilities::from_bytes(msg.payload.as_slice())
                } else {
                    p.capabilities
                },
                last_seen: now,
                last_seq: msg.seq_num,
                connected_at: p.connected_at,
                message_count: p.message_count + 1,
            },
            None => {
                events.push(
                    PeerEvent::Connected { peer_id: NodeId::new(name.clone()), connected_at: now },
                );
                LitePeerState {
                    node_id_raw: msg.node_id,
                    address: src,
                    capabilities: if announced {
                        LiteCapabilities::from_bytes(msg.payload.as_slice())
                    } else {
                        LiteCapabilities::default()
                    },
                    last_seen: now,
                    last_seq: msg.seq_num,
                    connected_at: now,
                    message_count: 1,
                }
            },
        };
        assert(state@ == touched(before.peer(name@), m, src@, now));
        if msg.msg_type == MessageType::Leave {
            events.push(
                PeerEvent::Disconnected {
                    peer_id: NodeId::new(name.clone()),
                    reason: DisconnectReason::RemoteClosed,
                    connection_duration: now.saturating_sub(state.connected_at),
                },
            );
            let _gone = self.peers.remove(&name);
        } else {
            self.peers.insert(name.clone(), state);
        }
        proof {
            assert(self@.peers =~= before.after(m, src@, now).peers);
            assert(events_view(events@) =~= before.events(m, src@, now));
        }
        let action = self.action_of(msg, name);
        Handled { events, action }
    }

    fn action_of(&self, msg: LiteMessage, name: String) -> (r: Inbound)
        requires
            name@ == peer_name(msg.node_id),
        ensures
            r@ == asked(msg@, self.inbound()),
    {
        match msg.msg_type {
            MessageType::Data => {
                let inbound = &self.config.inbound_collections;
                let accepted = inbound.len() == 0 || lists_text(inbound, "lite_sensors");
                if accepted && msg.payload.len() > 0 {
                    if let Some(crdt_type) = CrdtType::from_u8(msg.payload[0]) {
                        let data = crate::bytes::copy_range(msg.payload.as_slice(), 1, msg.payload.len());
                        return Inbound::Crdt {
                            collection: "lite_sensors".to_owned(),
                            doc_id: name,
                            crdt_type,
                            data,
                        };
                    }
                }
                Inbound::Nothing
            },
            MessageType::Query => match QueryRequest::decode(msg.payload.as_slice()) {
                Some(request) => Inbound::Query { request },
                None => Inbound::Nothing,
            },
            MessageType::OtaAccept
            | MessageType::OtaAck
            | MessageType::OtaResult
            | MessageType::OtaAbort => Inbound::Ota { peer_id: name, msg_type: msg.msg_type, payload: msg.payload },
            _ => Inbound::Nothing,
        }
    }

    /// The names of the stale peers, each once.
    fn stale_names(&self, now: u64) -> (names: Vec<String>)
        ensures
            forall|t: int| 0 <= t < names@.len() ==> self@.stale((#[trigger] names@[t])@, self.timeout_secs(), now),
            forall|n: Seq<char>|
                self@.stale(n, self.timeout_secs(), now) ==> exists|t: int|
                    0 <= t < names@.len() && (#[trigger] names@[t])@ == n,
            forall|t: int, u: int|
                0 <= t < u < names@.len() ==> (#[trigger] names@[t])@ != (#[trigger] names@[u])@,
    {
        let secs: u64 = self.config.peer_timeout_secs;
        let timeout: u128 = secs as u128 * 1_000_000_000;
        let count: usize = self.peers.len();
        let mut names: Vec<String> = Vec::new();
        let ghost mut at: Seq<int> = Seq::empty();
        let mut i: usize = 0;
        while i < count
            invariant
                i <= count,
                count == self.peers.items().len(),
                timeout == secs * 1_000_000_000,
                secs == self.timeout_secs(),
                names@.len() == at.len(),
                forall|t: int|
                    0 <= t < at.len() ==> 0 <= #[trigger] at[t] < i && names@[t]@ == self.peers.items()[at[t]].0@
                        && self@.stale(names@[t]@, secs, now),
                forall|t: int, u: int| 0 <= t < u < at.len() ==> #[trigger] at[t] < #[trigger] at[u],
                forall|j: int|
                    0 <= j < i && self@.stale((#[trigger] self.peers.items()[j]).0@, secs, now) ==> at.contains(j),
            decreases count - i,
        {
            let e = self.peers.item(i);
            let ghost prior = at;
            assert(self@.peers[e.0@] == e.1@);
            if (now.saturating_sub(e.1.last_seen) as u128) > timeout {
                names.push(e.0.clone());
                proof {
                    at = at.push(i as int);
                    assert forall|j: int|
                        0 <= j < i + 1 && self@.stale((#[trigger] self.peers.items()[j]).0@, secs, now) implies at.contains(
                        j,
                    ) by {
                        if j == i {
                            assert(at[prior.len() as int] == j);
                        } else {
                            let t = choose|t: int| 0 <= t < prior.len() && prior[t] == j;
                            assert(at[t] == j);
                        }
                    }
                }
            }
            i = i + 1;
        }
        proof {
            let items = self.peers.items();
            assert forall|n: Seq<char>| self@.stale(n, secs, now) implies exists|t: int|
                0 <= t < names@.len() && (#[trigger] names@[t])@ == n by {
                assert(self.peers@.contains_key(n));
                let j = vec_map::entry_index(items, n);
                vec_map::lemma_entry_at(items, j);
                assert(at.contains(j));
                let t = choose|t: int| 0 <= t < at.len() && at[t] == j;
                assert(names@[t]@ == n);
            }
            assert forall|t: int, u: int| 0 <= t < u < names@.len() implies (#[trigger] names@[t])@ != (
            #[trigger] names@[u])@ by {
                assert(at[t] < at[u]);
                assert(items[at[t]].0@ != items[at[u]].0@);
            }
            assert forall|t: int| 0 <= t < names@.len() implies self@.stale((#[trigger] names@[t])@, secs, now) by {
                assert(0 <= at[t]);
            }
        }
        names
    }

    /// Forgets the peers that are stale and gives the event for each of them.
    pub fn check_stale_peers(&mut self, now: u64) -> (events: Vec<PeerEvent>)
        ensures
            final(self)@ == old(self)@.without_stale(old(self).timeout_secs(), now),
            stale_events(old(self)@, old(self).timeout_secs(), now, events_view(events@)),
            final(self).settings() == old(self).settings(),
    {
        let ghost before = self@;
        let ghost peers0 = self.peers@;
        let ghost secs = self.timeout_secs();
        let names = self.stale_names(now);
        let mut events: Vec<PeerEvent> = Vec::new();
        let mut t: usize = 0;
        while t < names.len()
            invariant
                t <= names@.len(),
                before.peers == peers0.map_values(|p: LitePeerState| p@),
                forall|s: int| 0 <= s < names@.len() ==> before.stale((#[trigger] names@[s])@, secs, now),
                forall|s: int, u: int|
                    0 <= s < u < names@.len() ==> (#[trigger] names@[s])@ != (#[trigger] names@[u])@,
                forall|n: Seq<char>| #[trigger]
                    self.peers@.contains_key(n) <==> peers0.contains_key(n) && !(exists|s: int|
                        0 <= s < t && (#[trigger] names@[s])@ == n),
                forall|n: Seq<char>| self.peers@.contains_key(n) ==> #[trigger] self.peers@[n] == peers0[n],
                events@.len() == t,
                forall|s: int|
                    0 <= s < t ==> (#[trigger] events@[s])@ == before.goodbye(names@[s]@, DisconnectReason::Timeout, now),
                self.local_node_id == before.local_node_id,
                self.seq_num == before.seq_num,
                self.running == before.running,
                self.settings() == old(self).settings(),
            decreases names@.len() - t,
        {
            let ghost prior = self.peers@;
            let ghost gone = names@[t as int]@;
            proof {
                assert(before.stale(gone, secs, now));
                assert(prior.contains_key(gone)) by {
                    if exists|s: int| 0 <= s < t && (#[trigger] names@[s])@ == gone {
                        let s = choose|s: int| 0 <= s < t && (#[trigger] names@[s])@ == gone;
                        assert(names@[s]@ != names@[t as int]@);
                    }
                }
            }
            if let Some(p) = self.peers.remove(&names[t]) {
                assert(p@ == before.peers[gone]);
                events.push(
                    PeerEvent::Disconnected {
                        peer_id: NodeId::new(names[t].clone()),
                        reason: DisconnectReason::Timeout,
                        connection_duration: now.saturating_sub(p.connected_at),
                    },
                );
            }
            proof {
                assert forall|n: Seq<char>| #[trigger]
                    self.peers@.contains_key(n) <==> peers0.contains_key(n) && !(exists|s: int|
                        0 <= s < t + 1 && (#[trigger] names@[s])@ == n) by {
                    assert(self.peers@.contains_key(n) <==> prior.contains_key(n) && n != gone);
                    if exists|s: int| 0 <= s < t + 1 && (#[trigger] names@[s])@ == n {
                        let s = choose|s: int| 0 <= s < t + 1 && (#[trigger] names@[s])@ == n;
                        if s < t {
                            assert(!prior.contains_key(n));
                        }
                    }
                    assert(names@[t as int]@ == gone);
                }
            }
            t = t + 1;
        }
        proof {
            let after = before.without_stale(secs, now);
            assert forall|n: Seq<char>| self.peers@.contains_key(n) == #[trigger] after.peers.contains_key(n) by {
                assert(before.peers.contains_key(n) == peers0.contains_key(n));
                if exists|s: int| 0 <= s < t && (#[trigger] names@[s])@ == n {
                    let s = choose|s: int| 0 <= s < t && (#[trigger] names@[s])@ == n;
                    assert(before.stale(names@[s]@, secs, now));
                }
            }
            assert forall|n: Seq<char>| self@.peers.contains_key(n) implies self@.peers[n] == #[trigger] after.peers[n] by {
                assert(self.peers@.contains_key(n) == after.peers.contains_key(n));
                assert(self.peers@[n] == peers0[n]);
            }
            assert(self@.peers =~= after.peers);
            lemma_stale_events(before, secs, now, names@, events_view(events@));
        }
        events
    }

    /// Whether the transport is running.
    pub fn is_running(&self) -> (r: bool)
        ensures
            r == self@.running,
    {
        self.running
    }

    /// Notes that the socket is bound.
    pub fn start(&mut self)
        ensures
            final(self)@ == (TransportView { running: true, ..old(self)@ }),
            final(self).settings() == old(self).settings(),
    {
        self.running = true;
    }

    /// Notes that the socket is gone.
    pub fn stop(&mut self)
        ensures
            final(self)@ == (TransportView { running: false, ..old(self)@ }),
            final(self).settings() == old(self).settings(),
    {
        self.running = false;
    }

    /// The sequence number for the next outgoing message.
    pub fn next_seq(&mut self) -> (r: u32)
        requires
            old(self)@.seq_num < u32::MAX,
        ensures
            r == old(self)@.seq_num + 1,
            final(self)@ == (TransportView { seq_num: r, ..old(self)@ }),
            final(self).settings() == old(self).settings(),
    {
        self.seq_num = self.seq_num + 1;
        self.seq_num
    }

    /// The address that broadcasts go to; none where broadcast sending is not enabled,
    /// and nothing is to be sent.
    pub fn broadcast_address(&self) -> (r: Result<Option<String>, TransportError>)
        ensures
            r is Ok == self@.running,
            r is Ok ==> text::optional_text(r->Ok_0) == (if self.settings().enable_broadcast {
                Some("255.255.255.255:"@ + text::decimal(self.settings().broadcast_port as nat))
            } else {
                None
            }),
            r is Err ==> r->Err_0 is NotStarted,
    {
        if !self.running {
            return Err(TransportError::NotStarted);
        }
        if !self.config.enable_broadcast {
            return Ok(None);
        }
        Ok(Some(joined("255.255.255.255:", decimal_string(self.config.broadcast_port as u64).as_str())))
    }

    /// The address that messages for a peer go to.
    pub fn peer_address(&self, peer_id: &NodeId) -> (r: Result<String, TransportError>)
        ensures
            r is Ok == (self@.running && self@.peers.contains_key(peer_id@)),
            r is Ok ==> r->Ok_0@ == self@.peers[peer_id@].address,
            r is Err ==> r->Err_0@ == if !self@.running {
                TransportErrorView::NotStarted
            } else {
                TransportErrorView::PeerNotFound(peer_id@)
            },
    {
        if !self.running {
            return Err(TransportError::NotStarted);
        }
        let name = peer_id.as_str().to_owned();
        match self.peers.get(&name) {
            Some(p) => Ok(p.address.clone()),
            None => Err(TransportError::PeerNotFound(name)),
        }
    }

    /// The connection to a peer that is known. Connections come into being with
    /// the messages of a peer.
    pub fn connect(&self, peer_id: &NodeId) -> (r: Result<LiteConnection, TransportError>)
        ensures
            r is Ok == self@.peers.contains_key(peer_id@),
            r is Ok ==> r->Ok_0.peer() == peer_id@ && r->Ok_0.since() == self@.peers[peer_id@].connected_at,
            r is Err ==> r->Err_0@ == TransportErrorView::PeerNotFound(peer_id@),
    {
        match self.get_connection(peer_id) {
            Some(c) => Ok(c),
            None => Err(TransportError::PeerNotFound(peer_id.as_str().to_owned())),
        }
    }

    /// Lets a peer go and gives the event for it.
    pub fn disconnect(&mut self, peer_id: &NodeId, now: u64) -> (r: Result<PeerEvent, TransportError>)
        ensures
            r is Ok == old(self)@.peers.contains_key(peer_id@),
            r is Ok ==> r->Ok_0@ == old(self)@.goodbye(peer_id@, DisconnectReason::LocalClosed, now),
            r is Err ==> r->Err_0@ == TransportErrorView::PeerNotFound(peer_id@),
            final(self)@ == (TransportView { peers: old(self)@.peers.remove(peer_id@), ..old(self)@ }),
            final(self).settings() == old(self).settings(),
    {
        let name = peer_id.as_str().to_owned();
        let ghost before = self@;
        let gone = self.peers.remove(&name);
        assert(self@.peers =~= before.peers.remove(peer_id@));
        match gone {
            Some(p) => Ok(
                PeerEvent::Disconnected {
                    peer_id: peer_id.clone(),
                    reason: DisconnectReason::LocalClosed,
                    connection_duration: now.saturating_sub(p.connected_at),
                },
            ),
            None => Err(TransportError::PeerNotFound(name)),
        }
    }

    /// The connection to a peer, if it is known.
    pub fn get_connection(&self, peer_id: &NodeId) -> (r: Option<LiteConnection>)
        ensures
            r is Some == self@.peers.contains_key(peer_id@),
            r is Some ==> r->Some_0.peer() == peer_id@ && r->Some_0.since() == self@.peers[peer_id@].connected_at,
    {
        let name = peer_id.as_str().to_owned();
        match self.peers.get(&name) {
            Some(p) => Some(LiteConnection { node_id: peer_id.clone(), connected_at: p.connected_at }),
            None => None,
        }
    }

    /// What is known of a peer.
    pub fn peer_state(&self, peer_id: &NodeId) -> (r: Option<&LitePeerState>)
        ensures
            match r {
                Some(p) => self@.peer(peer_id@) == Some(p@),
                None => self@.peer(peer_id@) is None,
            },
    {
        let name = peer_id.as_str().to_owned();
        self.peers.get(&name)
    }

    /// Number of peers that are known.
    pub fn peer_count(&self) -> (r: usize)
        ensures
            r == self@.peers.dom().len(),
    {
        proof {
            assert(self@.peers.dom() =~= self.peers@.dom());
        }
        self.peers.len()
    }

    /// The names of the peers that are known, each once.
    pub fn connected_peers(&self) -> (r: Vec<NodeId>)
        ensures
            r@.len() == self@.peers.dom().len(),
            forall|i: int| 0 <= i < r@.len() ==> self@.peers.contains_key((#[trigger] r@[i])@),
            forall|n: Seq<char>| #[trigger]
                self@.peers.contains_key(n) ==> exists|i: int| 0 <= i < r@.len() && (#[trigger] r@[i])@ == n,
    {
        let count: usize = self.peers.len();
        let mut r: Vec<NodeId> = Vec::new();
        let mut i: usize = 0;
        while i < count
            invariant
                i <= count,
                count == self.peers.items().len(),
                r@.len() == i,
                forall|j: int| 0 <= j < i ==> (#[trigger] r@[j])@ == self.peers.items()[j].0@,
                forall|j: int| 0 <= j < i ==> self.peers@.contains_key((#[trigger] r@[j])@),
            decreases count - i,
        {
            let e = self.peers.item(i);
            r.push(NodeId::new(e.0.clone()));
            i = i + 1;
        }
        proof {
            assert(self@.peers.dom() =~= self.peers@.dom());
            assert forall|n: Seq<char>| #[trigger] self@.peers.contains_key(n) implies exists|i: int|
                0 <= i < r@.len() && (#[trigger] r@[i])@ == n by {
                let items = self.peers.items();
                let j = vec_map::entry_index(items, n);
                vec_map::lemma_entry_at(items, j);
                assert(r@[j]@ == n);
            }
        }
        r
    }

    /// How the connection to a peer is doing. Round trips and losses are not
    /// measured.
    pub fn get_peer_health(&self, peer_id: &NodeId, now: u64) -> (r: Option<ConnectionHealth>)
        ensures
            r == match self@.peer(peer_id@) {
                Some(p) => Some(
                    ConnectionHealth {
                        rtt_ms: 0,
                        rtt_variance_ms: 0,
                        packet_loss_percent: 0,
                        state: health_state(p.last_seen, now),
                        last_activity: p.last_seen,
                    },
                ),
                None => None,
            },
    {
        let name = peer_id.as_str().to_owned();
        match self.peers.get(&name) {
            Some(p) => {
                let idle: u64 = now.saturating_sub(p.last_seen);
                let state = if idle < 10_000_000_000 {
                    ConnectionState::Healthy
                } else if idle < 30_000_000_000 {
                    ConnectionState::Degraded
                } else {
                    ConnectionState::Dead
                };
                Some(
                    ConnectionHealth {
                        rtt_ms: 0,
                        rtt_variance_ms: 0,
                        packet_loss_percent: 0,
                        state,
                        last_activity: p.last_seen,
                    },
                )
            },
            None => None,
        }
    }
}

proof fn lemma_stale_events(before: TransportView, secs: u64, now: u64, names: Seq<String>, events: Seq<EventView>)
    requires
        names.len() == events.len(),
        forall|t: int| 0 <= t < names.len() ==> before.stale((#[trigger] names[t])@, secs, now),
        forall|n: Seq<char>|
            before.stale(n, secs, now) ==> exists|t: int| 0 <= t < names.len() && (#[trigger] names[t])@ == n,
        forall|t: int, u: int| 0 <= t < u < names.len() ==> (#[trigger] names[t])@ != (#[trigger] names[u])@,
        forall|t: int|
            0 <= t < events.len() ==> (#[trigger] events[t]) == before.goodbye(
                names[t]@,
                DisconnectReason::Timeout,
                now,
            ),
    ensures
        stale_events(before, secs, now, events),
{
    assert forall|t: int| 0 <= t < events.len() implies before.is_timeout(secs, now, #[trigger] events[t]) by {
        assert(before.stale(names[t]@, secs, now));
        assert(before.timed_out(names[t]@, secs, now, events[t]));
    }
    assert forall|n: Seq<char>| #[trigger] before.stale(n, secs, now) implies exists|t: int|
        0 <= t < events.len() && #[trigger] before.timed_out(n, secs, now, events[t]) by {
        let t = choose|t: int| 0 <= t < names.len() && (#[trigger] names[t])@ == n;
        assert(before.timed_out(n, secs, now, events[t]));
    }
    assert forall|t: int, u: int| 0 <= t < u < events.len() implies #[trigger] events[t] != #[trigger] events[u] by {
        assert(names[t]@ != names[u]@);
    }
}

/// Whether `events` hold the timeout of every stale peer once and nothing else.
pub open spec fn stale_events(before: TransportView, secs: u64, now: u64, events: Seq<EventView>) -> bool {
    &&& forall|t: int| 0 <= t < events.len() ==> before.is_timeout(secs, now, #[trigger] events[t])
    &&& forall|n: Seq<char>| #[trigger]
        before.stale(n, secs, now) ==> exists|t: int|
            0 <= t < events.len() && #[trigger] before.timed_out(n, secs, now, events[t])
    &&& forall|t: int, u: int| 0 <= t < u < events.len() ==> #[trigger] events[t] != #[trigger] events[u]
}

/// A packet and the address it came from, by their views.
pub open spec fn packet_view(packet: Option<(Vec<u8>, String)>) -> Option<(Seq<u8>, Seq<char>)> {
    match packet {
        Some(p) => Some((p.0@, p.1@)),
        None => None,
    }
}

/// The message in a packet, with the address it came from.
pub open spec fn received(packet: Option<(Seq<u8>, Seq<char>)>) -> Option<(MessageView, Seq<char>)> {
    match packet {
        Some(p) => match wire::parse_message(p.0) {
            Some(m) => Some((m, p.1)),
            None => None,
        },
        None => None,
    }
}

impl TransportView {
    /// The transport once a packet, or none, was dealt with.
    pub open spec fn after_packet(self, packet: Option<(Seq<u8>, Seq<char>)>, now: u64) -> TransportView {
        match received(packet) {
            Some(p) => self.after(p.0, p.1, now),
            None => self,
        }
    }
}

/// What came of one turn of the receive loop.
#[derive(Debug)]
pub struct Received {
    /// What came of the message, where the packet held one.
    pub handled: Option<Handled>,
    /// The timeouts of stale peers, where it was time to look for them.
    pub stale: Vec<PeerEvent>,
}

/// The receive loop, which looks for stale peers every five seconds.
pub struct ReceiveLoop {
    last_stale_check: u64,
}

impl ReceiveLoop {
    /// When stale peers were last looked for.
    pub closed spec fn checked_at(self) -> u64 {
        self.last_stale_check
    }

    /// A loop that starts at `now`.
    pub fn new(now: u64) -> (r: Self)
        ensures
            r.checked_at() == now,
    {
        ReceiveLoop { last_stale_check: now }
    }

    /// One turn: deals with the packet that came, if one did, then with stale
    /// peers if it is time.
    pub fn step(&mut self, transport: &mut LiteMeshTransport, packet: Option<(Vec<u8>, String)>, now: u64) -> (r: Received)
        requires
            received(packet_view(packet)) matches Some(p) ==> (old(transport)@.peers.contains_key(
                peer_name(p.0.node_id),
            ) ==> old(transport)@.peers[peer_name(p.0.node_id)].message_count < u64::MAX),
        ensures
            ({
                let mid = old(transport)@.after_packet(packet_view(packet), now);
                let due = longer_than(old(self).checked_at(), now, 5);
                &&& final(transport)@ == if due {
                    mid.without_stale(old(transport).timeout_secs(), now)
                } else {
                    mid
                }
                &&& final(self).checked_at() == if due {
                    now
                } else {
                    old(self).checked_at()
                }
                &&& due ==> stale_events(mid, old(transport).timeout_secs(), now, events_view(r.stale@))
                &&& !due ==> r.stale@.len() == 0
            }),
            final(transport).settings() == old(transport).settings(),
            r.handled is Some == received(packet_view(packet)) is Some,
            received(packet_view(packet)) matches Some(p) ==> {
                &&& events_view(r.handled->Some_0.events@) == old(transport)@.events(p.0, p.1, now)
                &&& r.handled->Some_0.action@ == if p.0.node_id == old(transport)@.local_node_id {
                    InboundView::Nothing
                } else {
                    asked(p.0, old(transport).inbound())
                }
            },
    {
        let mut handled: Option<Handled> = None;
        if let Some((data, src)) = packet {
            if let Some(msg) = LiteMessage::decode(data.as_slice()) {
                handled = Some(transport.handle_message(msg, src, now));
            }
        }
        let mut stale: Vec<PeerEvent> = Vec::new();
        if now.saturating_sub(self.last_stale_check) > 5_000_000_000 {
            stale = transport.check_stale_peers(now);
            self.last_stale_check = now;
        }
        Received { handled, stale }
    }
}

/// A message of another node makes its sender known, unless it leaves; a message
/// of this node itself changes nothing and asks for nothing.
pub proof fn law_messages_make_peers(t: TransportView, msg: MessageView, src: Seq<char>, now: u64)
    ensures
        msg.node_id == t.local_node_id ==> t.after(msg, src, now) == t && t.events(msg, src, now).len() == 0,
        msg.node_id != t.local_node_id ==> (t.after(msg, src, now).peers.contains_key(peer_name(msg.node_id))
            <==> msg.msg_type != MessageType::Leave),
        msg.node_id != t.local_node_id && msg.msg_type != MessageType::Leave ==> {
            let p = t.after(msg, src, now).peers[peer_name(msg.node_id)];
            p.address == src && p.last_seen == now && p.last_seq == msg.seq_num
        },
{
}

/// The peers that a message does not come from are left as they were.
pub proof fn law_other_peers_unchanged(t: TransportView, msg: MessageView, src: Seq<char>, now: u64, other: Seq<char>)
    requires
        other != peer_name(msg.node_id),
    ensures
        t.after(msg, src, now).peer(other) == t.peer(other),
{
}

/// Different nodes have different names.
pub proof fn law_peer_names_distinct(a: u32, b: u32)
    ensures
        peer_name(a) == peer_name(b) <==> a == b,
{
    text::law_hex8_roundtrip(a);
    text::law_hex8_roundtrip(b);
    let pre = "lite-"@;
    assert(peer_name(a).skip(pre.len() as int) =~= text::hex8(a));
    assert(peer_name(b).skip(pre.len() as int) =~= text::hex8(b));
}

/// After stale peers were let go none is left, and a peer that was heard of
/// within the timeout stays.
pub proof fn law_stale_check(t: TransportView, secs: u64, now: u64, name: Seq<char>)
    ensures
        !t.without_stale(secs, now).stale(name, secs, now),
        t.without_stale(secs, now).peers.contains_key(name) <==> t.peers.contains_key(name) && !t.stale(name, secs, now),
        t.without_stale(secs, now).without_stale(secs, now) == t.without_stale(secs, now),
{
    let once = t.without_stale(secs, now);
    assert(once.without_stale(secs, now).peers =~= once.peers);
}

} // verus!
