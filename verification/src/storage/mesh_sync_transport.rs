//! Connections for document sync, and who may open one.
//!
//! Connections themselves are the caller's; here they are numbers. Peers are known by
//! their public keys.

use vstd::prelude::*;
use vstd::string::*;

use crate::clock::now_ms;
use crate::security::bundle::{BundleView, CertificateBundle};
use crate::security::error::joined;
use crate::storage::enrollment_transport;
use crate::text;
use crate::text::decimal_string;
use crate::transport::wire::read_u32;
use crate::vec_map;
use crate::vec_map::VecMap;

verus! {

/// The connections to peers.
pub struct MeshSyncTransport {
    connections: VecMap<[u8; 32], u64>,
}

impl View for MeshSyncTransport {
    type V = Map<Seq<u8>, u64>;

    closed spec fn view(&self) -> Map<Seq<u8>, u64> {
        self.connections@
    }
}

/// Keys by their bytes.
pub open spec fn keys_view(keys: Seq<[u8; 32]>) -> Seq<Seq<u8>> {
    keys.map_values(|k: [u8; 32]| k@)
}

/// The connections without the closed ones.
pub open spec fn without_closed(connections: Map<Seq<u8>, u64>, closed: Seq<u64>) -> Map<Seq<u8>, u64> {
    connections.restrict(Set::new(|k: Seq<u8>| connections.contains_key(k) && !closed.contains(connections[k])))
}

/// What happens on a connection.
#[derive(Clone, Copy, Debug, PartialEq, Eq, Structural)]
pub enum ConnectionEvent {
    /// The peer opened a stream.
    StreamOpened,
    /// The connection is closed.
    Closed,
}

/// What to do for it.
#[derive(Clone, Copy, Debug, PartialEq, Eq, Structural)]
pub enum ConnectionAction {
    /// Hand the stream to the sync coordinator and go on.
    HandleStream,
    /// Forget the sync state of the peer and stop.
    CleanUp,
}

fn contains_number(list: &Vec<u64>, n: u64) -> (r: bool)
    ensures
        r == list@.contains(n),
{
    let mut i: usize = 0;
    while i < list.len()
        invariant
            i <= list@.len(),
            forall|j: int| 0 <= j < i ==> #[trigger] list@[j] != n,
        decreases list@.len() - i,
    {
        if list[i] == n {
            return true;
        }
        i = i + 1;
    }
    false
}

impl MeshSyncTransport {
    /// Create a new transport without connections.
    pub fn new() -> (r: Self)
        ensures
            r@ == Map::<Seq<u8>, u64>::empty(),
    {
        MeshSyncTransport { connections: VecMap::new() }
    }

    /// Store (or replace) the connection for a peer.
    pub fn insert_connection(&mut self, peer_id: [u8; 32], conn: u64)
        ensures
            final(self)@ == old(self)@.insert(peer_id@, conn),
    {
        self.connections.insert(peer_id, conn);
    }

    /// Remove the connection for a peer.
    pub fn remove_connection(&mut self, peer_id: &[u8; 32])
        ensures
            final(self)@ == old(self)@.remove(peer_id@),
    {
        let _ = self.connections.remove(peer_id);
    }

    /// Start sync on a connection, of whichever side.
    pub fn start_sync_connection(&mut self, peer_id: [u8; 32], conn: u64)
        ensures
            final(self)@ == old(self)@.insert(peer_id@, conn),
    {
        self.insert_connection(peer_id, conn);
    }

    /// What to do for an event on the connection of a peer. A connection that is
    /// closed is forgotten.
    pub fn on_connection_event(&mut self, peer_id: &[u8; 32], event: ConnectionEvent) -> (r: ConnectionAction)
        ensures
            match event {
                ConnectionEvent::StreamOpened => r == ConnectionAction::HandleStream && final(self)@ == old(self)@,
                ConnectionEvent::Closed => r == ConnectionAction::CleanUp && final(self)@ == old(self)@.remove(
                    peer_id@,
                ),
            },
    {
        match event {
            ConnectionEvent::StreamOpened => ConnectionAction::HandleStream,
            ConnectionEvent::Closed => {
                self.remove_connection(peer_id);
                ConnectionAction::CleanUp
            },
        }
    }

    /// The connection to a peer, if there is one.
    pub fn get_connection(&self, peer_id: &[u8; 32]) -> (r: Option<u64>)
        ensures
            r == (if self@.contains_key(peer_id@) {
                Some(self@[peer_id@])
            } else {
                None
            }),
    {
        match self.connections.get(peer_id) {
            Some(conn) => Some(*conn),
            None => None,
        }
    }

    /// The peers that are connected. Connections that are closed are forgotten on the
    /// way.
    pub fn connected_peers(&mut self, closed: &Vec<u64>) -> (r: Vec<[u8; 32]>)
        ensures
            final(self)@ == without_closed(old(self)@, closed@),
            keys_view(r@).no_duplicates(),
            keys_view(r@).to_set() == final(self)@.dom(),
    {
        let count: usize = self.connections.len();
        let ghost items = self.connections.items();
        let ghost before = self.connections@;
        let mut kept: VecMap<[u8; 32], u64> = VecMap::new();
        let mut peers: Vec<[u8; 32]> = Vec::new();
        let mut i: usize = 0;
        while i < count
            invariant
                i <= count,
                count == items.len(),
                items == self.connections.items(),
                self.connections@ == before,
                before == vec_map::entries_map(items),
                vec_map::keys_distinct(items),
                forall|k: Seq<u8>| #[trigger]
                    kept@.contains_key(k) ==> before.contains_key(k) && kept@[k] == before[k] && !closed@.contains(before[k]),
                forall|j: int|
                    0 <= j < i && !closed@.contains((#[trigger] items[j]).1) ==> kept@.contains_key(items[j].0@),
                forall|k: Seq<u8>| #[trigger] kept@.contains_key(k) <==> keys_view(peers@).contains(k),
                forall|k: Seq<u8>| #[trigger]
                    kept@.contains_key(k) ==> exists|j: int| 0 <= j < i && (#[trigger] items[j]).0@ == k,
                keys_view(peers@).no_duplicates(),
            decreases count - i,
        {
            let entry = self.connections.item(i);
            let ghost key = items[i as int].0@;
            let ghost peers_before = keys_view(peers@);
            let ghost kept_before = kept@;
            if !contains_number(closed, entry.1) {
                proof {
                    assert(!kept_before.contains_key(key)) by {
                        if kept_before.contains_key(key) {
                            let j = choose|j: int| 0 <= j < i && (#[trigger] items[j]).0@ == key;
                            assert(items[j].0@ != items[i as int].0@);
                        }
                    }
                    vec_map::lemma_entry_at(items, i as int);
                }
                kept.insert(entry.0, entry.1);
                peers.push(entry.0);
                proof {
                    let after = keys_view(peers@);
                    assert(after =~= peers_before.push(key));
                    assert forall|k: Seq<u8>| #[trigger] kept@.contains_key(k) <==> after.contains(k) by {
                        if kept_before.contains_key(k) {
                            let t = choose|t: int| 0 <= t < peers_before.len() && peers_before[t] == k;
                            assert(after[t] == k);
                        }
                        if k == key {
                            assert(after[peers_before.len() as int] == k);
                        }
                        if after.contains(k) {
                            let t = choose|t: int| 0 <= t < after.len() && after[t] == k;
                            if t < peers_before.len() {
                                assert(peers_before[t] == k);
                            }
                        }
                    }
                    assert forall|k: Seq<u8>| #[trigger] kept@.contains_key(k) implies exists|j: int|
                        0 <= j < i + 1 && (#[trigger] items[j]).0@ == k by {
                        if k == key {
                            assert(items[i as int].0@ == k);
                        } else {
                            let j = choose|j: int| 0 <= j < i && (#[trigger] items[j]).0@ == k;
                            assert(items[j].0@ == k);
                        }
                    }
                    assert(!peers_before.contains(key));
                }
            }
            i = i + 1;
        }
        proof {
            let wanted = without_closed(before, closed@);
            assert forall|k: Seq<u8>| #[trigger] kept@.contains_key(k) <==> wanted.contains_key(k) by {
                if wanted.contains_key(k) {
                    assert(vec_map::has_entry(items, k));
                    let j = vec_map::entry_index(items, k);
                    assert(items[j].0@ == k);
                    vec_map::lemma_entry_at(items, j);
                }
            }
            assert(kept@ =~= wanted);
            assert(keys_view(peers@).to_set() =~= kept@.dom());
        }
        self.connections = kept;
        peers
    }
}

/// What to do with a connection that a peer opened for sync.
#[derive(Debug, Clone, Copy, PartialEq, Eq, Structural)]
pub enum AcceptStep {
    /// Close it: the peer has no valid certificate.
    CertificateRequired,
    /// Close it: the peer does not know the formation key.
    FormationAuthFailed,
    /// Let the peer prove that it knows the formation key.
    Authenticate,
    /// Start sync on it.
    Start,
}

impl AcceptStep {
    /// The code with which a refused connection is closed.
    pub fn close_code(&self) -> (r: Option<u32>)
        ensures
            r == (match *self {
                AcceptStep::CertificateRequired => Some(2u32),
                AcceptStep::FormationAuthFailed => Some(1u32),
                _ => None,
            }),
    {
        match self {
            AcceptStep::CertificateRequired => Some(2),
            AcceptStep::FormationAuthFailed => Some(1),
            _ => None,
        }
    }

    /// The reason with which a refused connection is closed.
    pub fn close_reason(&self) -> (r: Option<&'static str>)
        ensures
            match r {
                Some(t) => t@ == (if *self == AcceptStep::CertificateRequired {
                    "certificate required"@
                } else {
                    "formation auth failed"@
                }) && (*self == AcceptStep::CertificateRequired || *self == AcceptStep::FormationAuthFailed),
                None => *self == AcceptStep::Authenticate || *self == AcceptStep::Start,
            },
    {
        match self {
            AcceptStep::CertificateRequired => Some("certificate required"),
            AcceptStep::FormationAuthFailed => Some("formation auth failed"),
            _ => None,
        }
    }
}

/// Decides on connections that peers open for sync.
///
/// With a certificate bundle, a peer should have a valid certificate; one that has
/// none is refused where certificates are required and let through otherwise. With a
/// formation key, a peer must prove that it knows it.
pub struct SyncProtocolHandler {
    has_formation_key: bool,
    certificate_bundle: Option<CertificateBundle>,
    require_certificates: bool,
}

/// A [`SyncProtocolHandler`] in terms of views.
pub struct HandlerView {
    pub has_formation_key: bool,
    pub bundle: Option<BundleView>,
    pub require_certificates: bool,
}

impl View for SyncProtocolHandler {
    type V = HandlerView;

    closed spec fn view(&self) -> HandlerView {
        HandlerView {
            has_formation_key: self.has_formation_key,
            bundle: match self.certificate_bundle {
                Some(b) => Some(b@),
                None => None,
            },
            require_certificates: self.require_certificates,
        }
    }
}

impl HandlerView {
    /// Whether a peer is refused for want of a certificate.
    pub open spec fn refuses(self, peer: Seq<u8>, now_ms: u64) -> bool {
        self.require_certificates && self.bundle is Some && !self.bundle->Some_0.validates(peer, now_ms)
    }

    /// What to do with a connection of a peer.
    pub open spec fn decision(self, peer: Seq<u8>, now_ms: u64) -> AcceptStep {
        if self.refuses(peer, now_ms) {
            AcceptStep::CertificateRequired
        } else if self.has_formation_key {
            AcceptStep::Authenticate
        } else {
            AcceptStep::Start
        }
    }
}

impl SyncProtocolHandler {
    /// Create a handler that lets every peer in.
    pub fn new() -> (r: Self)
        ensures
            r@ == (HandlerView { has_formation_key: false, bundle: None, require_certificates: false }),
    {
        SyncProtocolHandler { has_formation_key: false, certificate_bundle: None, require_certificates: false }
    }

    /// Create a handler that asks peers for the formation key.
    pub fn with_formation_key() -> (r: Self)
        ensures
            r@ == (HandlerView { has_formation_key: true, bundle: None, require_certificates: false }),
    {
        SyncProtocolHandler { has_formation_key: true, certificate_bundle: None, require_certificates: false }
    }

    /// Looks at the certificates of peers from now on; with `require`, peers without a
    /// valid one are refused.
    pub fn with_certificate_bundle(self, bundle: CertificateBundle, require: bool) -> (r: Self)
        ensures
            r@ == (HandlerView { bundle: Some(bundle@), require_certificates: require, ..self@ }),
    {
        SyncProtocolHandler {
            has_formation_key: self.has_formation_key,
            certificate_bundle: Some(bundle),
            require_certificates: require,
        }
    }

    /// Looks at the certificates in this bundle from now on, as when some were added or
    /// revoked. Whether certificates are required stays as it is.
    pub fn set_certificate_bundle(&mut self, bundle: CertificateBundle)
        ensures
            final(self)@ == (HandlerView { bundle: Some(bundle@), ..old(self)@ }),
    {
        self.certificate_bundle = Some(bundle);
    }

    /// What to do with a connection of a peer.
    pub fn accept(&self, peer: &[u8; 32], now_ms: u64) -> (r: AcceptStep)
        ensures
            r == self@.decision(peer@, now_ms),
    {
        if let Some(bundle) = &self.certificate_bundle {
            let peer_valid = bundle.validate_peer(peer, now_ms);
            if !peer_valid && self.require_certificates {
                return AcceptStep::CertificateRequired;
            }
        }
        if self.has_formation_key {
            AcceptStep::Authenticate
        } else {
            AcceptStep::Start
        }
    }

    /// What to do once a peer tried to prove that it knows the formation key.
    pub fn on_formation_auth(&self, authenticated: bool) -> (r: AcceptStep)
        ensures
            r == (if authenticated {
                AcceptStep::Start
            } else {
                AcceptStep::FormationAuthFailed
            }),
    {
        if authenticated {
            AcceptStep::Start
        } else {
            AcceptStep::FormationAuthFailed
        }
    }
}

/// Longest response to a challenge.
pub const MAX_AUTH_RESPONSE_SIZE: usize = 256;

/// How much to read once a response to a challenge was announced.
pub fn on_auth_length(len_buf: &[u8; 4]) -> (r: Result<usize, String>)
    ensures
        match r {
            Ok(n) => n == enrollment_transport::announced(len_buf@) && n <= 256,
            Err(e) => enrollment_transport::announced(len_buf@) > 256 && e@ == "response too large: "@ + text::decimal(
                enrollment_transport::announced(len_buf@) as nat,
            ),
        },
{
    let resp_len: u32 = read_u32(len_buf.as_slice(), 0);
    if resp_len as usize > MAX_AUTH_RESPONSE_SIZE {
        return Err(joined("response too large: ", decimal_string(resp_len as u64).as_str()));
    }
    Ok(resp_len as usize)
}

/// What a peer is told of its proof.
#[derive(Debug, Clone, Copy, PartialEq, Eq, Structural)]
pub enum FormationAuthResult {
    Accepted,
    Rejected,
}

/// What a peer is told of its response, and what came of the proof: `parsed` is whether
/// the response verifies, or why it could not be read. A response that cannot be read
/// is not answered.
pub fn run_formation_auth(parsed: Result<bool, String>) -> (r: (Option<FormationAuthResult>, Result<(), String>))
    ensures
        match parsed {
            Ok(true) => r.0 == Some(FormationAuthResult::Accepted) && r.1 is Ok,
            Ok(false) => r.0 == Some(FormationAuthResult::Rejected) && r.1 is Err && r.1->Err_0@
                == "HMAC verification failed"@,
            Err(e) => r.0 is None && r.1 is Err && r.1->Err_0@ == "invalid response: "@ + e@,
        },
{
    match parsed {
        Ok(true) => (Some(FormationAuthResult::Accepted), Ok(())),
        Ok(false) => (Some(FormationAuthResult::Rejected), Err("HMAC verification failed".to_owned())),
        Err(e) => (None, Err(joined("invalid response: ", e.as_str()))),
    }
}

/// Where certificates are required, sync starts only with peers that have a valid
/// certificate, signed by a trusted authority or by themselves; where there is a
/// formation key, only with peers that proved to know it.
pub proof fn law_gates(h: HandlerView, peer: Seq<u8>, now_ms: u64)
    ensures
        h.decision(peer, now_ms) == AcceptStep::Start ==> !h.has_formation_key,
        h.require_certificates && h.bundle is Some && h.decision(peer, now_ms) != AcceptStep::CertificateRequired
            ==> h.bundle->Some_0.validates(peer, now_ms) && h.bundle->Some_0.trusts(
            h.bundle->Some_0.certificates[peer],
        ),
        h.bundle is None || !h.require_certificates ==> h.decision(peer, now_ms) != AcceptStep::CertificateRequired,
{
}

} // verus!
