//! Delivery of firmware to lightweight nodes.
//!
//! Stop-and-wait: one chunk goes out, its acknowledgement is awaited, and it goes
//! out again after a timeout. This module keeps the sessions and says what is to
//! be sent; sockets are the caller's. Times are nanoseconds of a clock that does
//! not go back.

use vstd::prelude::*;
use vstd::string::*;
use vstd::utf8::*;

use crate::bytes;
use crate::security::crypto;
use crate::security::crypto::digest_bytes;
use crate::security::error::{joined, joined3};
use crate::security::keypair::DeviceKeypair;
use crate::text;
use crate::text::decimal_string;
use crate::transport::lite;
use crate::transport::lite::NodeId;
use crate::transport::wire;
use crate::transport::wire::{read_u16, LiteMessage, MessageType, MessageView};
use crate::vec_map;
use crate::vec_map::VecMap;

verus! {

/// Bytes of firmware in a chunk.
pub const OTA_CHUNK_DATA_SIZE: usize = 448;

/// Flag of an offer whose digest is signed.
pub const OTA_FLAG_SIGNED: u16 = 0x0001;

/// Result code of an update that went well.
pub const OTA_RESULT_SUCCESS: u8 = 0x00;

/// Reason given to a peer whose session is given up.
pub const OTA_ABORT_TOO_MANY_RETRIES: u8 = 0x02;

/// Nanoseconds before something is sent again.
pub const CHUNK_TIMEOUT_NANOS: u64 = 500_000_000;

/// How often something is sent again before the session is given up.
pub const MAX_RETRIES_PER_CHUNK: u32 = 5;

/// Nanoseconds that a session may take.
pub const SESSION_TIMEOUT_NANOS: u64 = 300_000_000_000;

/// A firmware image ready for delivery.
pub struct FirmwareImage {
    /// Raw firmware bytes
    pub data: Vec<u8>,
    /// SHA-256 digest of the firmware
    pub sha256: [u8; 32],
    /// Version string (at most 15 bytes, null-padded)
    pub version: [u8; 16],
    /// Number of chunks needed
    pub total_chunks: u16,
    /// Size of each chunk (except possibly the last)
    pub chunk_size: u16,
    /// Ed25519 signature over the digest (set by `sign()`)
    pub signature: Option<[u8; 64]>,
}

/// A [`FirmwareImage`] in terms of sequences.
#[verifier::ext_equal]
pub struct FirmwareView {
    pub data: Seq<u8>,
    pub sha256: Seq<u8>,
    pub version: Seq<u8>,
    pub total_chunks: u16,
    pub chunk_size: u16,
    pub signature: Option<Seq<u8>>,
}

impl View for FirmwareImage {
    type V = FirmwareView;

    open spec fn view(&self) -> FirmwareView {
        FirmwareView {
            data: self.data@,
            sha256: self.sha256@,
            version: self.version@,
            total_chunks: self.total_chunks,
            chunk_size: self.chunk_size,
            signature: match self.signature {
                Some(s) => Some(s@),
                None => None,
            },
        }
    }
}

/// The number of chunks that `len` bytes fill.
pub open spec fn chunks_for(len: nat) -> nat {
    (len + 447) as nat / 448
}

/// A version as it goes into an offer: its first 15 bytes, then zeros up to 16.
pub open spec fn version_field(version: Seq<u8>) -> Seq<u8> {
    Seq::new(
        16,
        |i: int|
            if i < 15 && i < version.len() {
                version[i]
            } else {
                0u8
            },
    )
}

/// The unsigned image of some firmware. The number of chunks wraps at 65536.
pub open spec fn image_of(data: Seq<u8>, version: Seq<char>) -> FirmwareView {
    FirmwareView {
        data,
        sha256: crypto::sha256_digest(data),
        version: version_field(encode_utf8(version)),
        total_chunks: (chunks_for(data.len()) % 65536) as u16,
        chunk_size: 448,
        signature: None,
    }
}

impl FirmwareView {
    /// Where a chunk starts.
    pub open spec fn chunk_start(self, chunk_num: u16) -> int {
        chunk_num * self.chunk_size
    }

    /// Where a chunk ends.
    pub open spec fn chunk_end(self, chunk_num: u16) -> int {
        if self.chunk_start(chunk_num) + self.chunk_size < self.data.len() {
            self.chunk_start(chunk_num) + self.chunk_size
        } else {
            self.data.len() as int
        }
    }

    /// The bytes of a chunk; there are none where it would start behind the end.
    pub open spec fn chunk(self, chunk_num: u16) -> Option<Seq<u8>> {
        if self.chunk_start(chunk_num) >= self.data.len() {
            None
        } else {
            Some(self.data.subrange(self.chunk_start(chunk_num), self.chunk_end(chunk_num)))
        }
    }

    /// The image with its digest signed.
    pub open spec fn signed(self, secret: Seq<u8>) -> FirmwareView {
        FirmwareView { signature: Some(crypto::ed25519_signature(secret, self.sha256)), ..self }
    }

    /// The image as a sender with these keys offers it.
    pub open spec fn prepared(self, secret: Option<Seq<u8>>) -> FirmwareView {
        match secret {
            Some(s) => self.signed(s),
            None => self,
        }
    }

    /// The offer of the image.
    pub open spec fn offer(self, node_id: u32, session_id: u16, flags: u16) -> MessageView {
        MessageView {
            msg_type: MessageType::OtaOffer,
            flags: 0,
            node_id,
            seq_num: 0,
            payload: wire::offer_payload(
                self.version,
                (self.data.len() % 0x1_0000_0000) as u32,
                self.total_chunks,
                self.chunk_size,
                self.sha256,
                session_id,
                flags,
                self.signature,
            ),
        }
    }
}

fn padded_version(raw: &[u8]) -> (buf: [u8; 16])
    ensures
        buf@ == version_field(raw@),
{
    let mut buf: [u8; 16] = [0u8; 16];
    let len: usize = raw.len();
    let mut i: usize = 0;
    while i < 15 && i < len
        invariant
            i <= 15,
            i <= len,
            len == raw@.len(),
            forall|k: int| 0 <= k < 16 ==> #[trigger] buf@[k] == if k < i {
                raw@[k]
            } else {
                0u8
            },
        decreases 15 - i,
    {
        buf[i] = raw[i];
        i = i + 1;
    }
    assert(buf@ =~= version_field(raw@));
    buf
}

impl FirmwareImage {
    /// Create a FirmwareImage from raw bytes and a version string
    pub fn new(data: Vec<u8>, version: &str) -> (r: Self)
        ensures
            r@ == image_of(data@, version@),
    {
        let sha256 = digest_bytes(data.as_slice());
        let len: usize = data.len();
        let whole: usize = len / OTA_CHUNK_DATA_SIZE;
        let chunks: usize = if len % OTA_CHUNK_DATA_SIZE == 0 {
            whole
        } else {
            whole + 1
        };
        assert(chunks == chunks_for(len as nat));
        let total_chunks: u16 = (chunks % 65536) as u16;
        let version = padded_version(version.as_bytes());
        FirmwareImage {
            data,
            sha256,
            version,
            total_chunks,
            chunk_size: OTA_CHUNK_DATA_SIZE as u16,
            signature: None,
        }
    }

    /// Sign the SHA-256 digest with the given keypair.
    /// Sets `self.signature` to the 64-byte Ed25519 signature.
    pub fn sign(&mut self, keypair: &DeviceKeypair)
        ensures
            final(self)@ == old(self)@.signed(keypair.secret()),
    {
        let signature = keypair.sign(self.sha256.as_slice());
        self.signature = Some(signature);
    }

    /// Get chunk data for the given chunk number
    pub fn chunk(&self, chunk_num: u16) -> (r: Option<&[u8]>)
        ensures
            (match r {
                Some(c) => Some(c@),
                None => None,
            }) == self@.chunk(chunk_num),
    {
        let len: usize = self.data.len();
        assert(chunk_num * self.chunk_size <= 65535 * 65535) by (nonlinear_arith)
            requires
                chunk_num <= 65535,
                self.chunk_size <= 65535,
        ;
        let start: usize = chunk_num as usize * self.chunk_size as usize;
        if start >= len {
            return None;
        }
        let end: usize = if start + (self.chunk_size as usize) < len {
            start + self.chunk_size as usize
        } else {
            len
        };
        Some(vstd::slice::slice_subrange(self.data.as_slice(), start, end))
    }

    fn offer_message(&self, node_id: u32, session_id: u16, flags: u16) -> (r: LiteMessage)
        ensures
            r@ == self@.offer(node_id, session_id, flags),
    {
        let size: u32 = (self.data.len() as u64 % 0x1_0000_0000) as u32;
        LiteMessage::ota_offer(
            node_id,
            &self.version,
            size,
            self.total_chunks,
            self.chunk_size,
            &self.sha256,
            session_id,
            flags,
            self.signature.as_ref(),
        )
    }
}

/// State of a session with a single peer.
#[derive(Debug)]
pub enum OtaSenderState {
    /// Offer sent, waiting for accept
    Offered { sent_at: u64, retries: u32 },
    /// Transferring chunks
    Transferring { current_chunk: u16, last_sent_at: u64, retries: u32 },
    /// All chunks acknowledged, completion sent, waiting for the result
    WaitingResult { sent_at: u64, retries: u32 },
    /// Update completed successfully
    Complete,
    /// Update failed
    Failed { reason: String },
}

/// An [`OtaSenderState`] in terms of sequences.
#[verifier::ext_equal]
pub enum StateView {
    Offered { sent_at: u64, retries: u32 },
    Transferring { current_chunk: u16, last_sent_at: u64, retries: u32 },
    WaitingResult { sent_at: u64, retries: u32 },
    Complete,
    Failed { reason: Seq<char> },
}

impl View for OtaSenderState {
    type V = StateView;

    open spec fn view(&self) -> StateView {
        match self {
            OtaSenderState::Offered { sent_at, retries } => StateView::Offered { sent_at: *sent_at, retries: *retries },
            OtaSenderState::Transferring { current_chunk, last_sent_at, retries } => StateView::Transferring {
                current_chunk: *current_chunk,
                last_sent_at: *last_sent_at,
                retries: *retries,
            },
            OtaSenderState::WaitingResult { sent_at, retries } => StateView::WaitingResult {
                sent_at: *sent_at,
                retries: *retries,
            },
            OtaSenderState::Complete => StateView::Complete,
            OtaSenderState::Failed { reason } => StateView::Failed { reason: reason@ },
        }
    }
}

impl StateView {
    /// The state as it is shown to a reader.
    pub open spec fn text(self) -> Seq<char> {
        match self {
            StateView::Offered { .. } => "offered"@,
            StateView::Transferring { .. } => "transferring"@,
            StateView::WaitingResult { .. } => "waiting_result"@,
            StateView::Complete => "complete"@,
            StateView::Failed { reason } => "failed: "@ + reason,
        }
    }
}

impl OtaSenderState {
    /// The state as it is shown to a reader.
    pub fn text(&self) -> (r: String)
        ensures
            r@ == self@.text(),
    {
        match self {
            OtaSenderState::Offered { .. } => "offered".to_owned(),
            OtaSenderState::Transferring { .. } => "transferring".to_owned(),
            OtaSenderState::WaitingResult { .. } => "waiting_result".to_owned(),
            OtaSenderState::Complete => "complete".to_owned(),
            OtaSenderState::Failed { reason } => joined("failed: ", reason.as_str()),
        }
    }
}

/// Per-peer session.
pub struct OtaSession {
    pub session_id: u16,
    pub peer_id: NodeId,
    pub firmware: FirmwareImage,
    pub state: OtaSenderState,
    pub started_at: u64,
    pub chunks_acked: u16,
}

/// An [`OtaSession`] in terms of sequences.
#[verifier::ext_equal]
pub struct SessionView {
    pub session_id: u16,
    pub peer_id: Seq<char>,
    pub firmware: FirmwareView,
    pub state: StateView,
    pub started_at: u64,
    pub chunks_acked: u16,
}

impl View for OtaSession {
    type V = SessionView;

    open spec fn view(&self) -> SessionView {
        SessionView {
            session_id: self.session_id,
            peer_id: self.peer_id@,
            firmware: self.firmware@,
            state: self.state@,
            started_at: self.started_at,
            chunks_acked: self.chunks_acked,
        }
    }
}

/// What is known of a session, for display.
#[derive(Debug)]
pub struct OtaStatusInfo {
    pub session_id: u16,
    pub state: String,
    pub progress_percent: u8,
    pub chunks_sent: u16,
    pub total_chunks: u16,
    pub elapsed_secs: u64,
}

/// Whether what was sent at `since` is to be sent again.
pub open spec fn is_due(since: u64, now: u64) -> bool {
    lite::elapsed(since, now) > 500_000_000
}

impl SessionView {
    /// The share of chunks that were acknowledged, in percent; it wraps at 256.
    pub open spec fn progress(self) -> u8 {
        if self.firmware.total_chunks == 0 {
            0
        } else {
            ((self.chunks_acked * 100) / self.firmware.total_chunks as int % 256) as u8
        }
    }

    /// Whether the session took more than five minutes.
    pub open spec fn timed_out(self, now: u64) -> bool {
        lite::elapsed(self.started_at, now) > 300_000_000_000
    }

    /// The session in another state.
    pub open spec fn in_state(self, state: StateView) -> SessionView {
        SessionView { state, ..self }
    }

    /// The session as it starts to send from a chunk on.
    pub open spec fn from_chunk(self, chunk: u16, now: u64) -> SessionView {
        SessionView {
            chunks_acked: chunk,
            state: StateView::Transferring { current_chunk: chunk, last_sent_at: now, retries: 0 },
            ..self
        }
    }

    /// The session once a chunk was acknowledged: the next chunk is sent, or after
    /// the last one the end is announced.
    pub open spec fn acked(self, chunk: u16, now: u64) -> SessionView {
        if chunk + 1 >= self.firmware.total_chunks {
            SessionView {
                chunks_acked: (chunk + 1) as u16,
                state: StateView::WaitingResult { sent_at: now, retries: 0 },
                ..self
            }
        } else {
            self.from_chunk((chunk + 1) as u16, now)
        }
    }

    /// The session once a result came.
    pub open spec fn finished(self, code: u8) -> SessionView {
        self.in_state(
            if code == 0 {
                StateView::Complete
            } else {
                StateView::Failed { reason: result_reason(code) }
            },
        )
    }

    /// The state of the session after a look at the clock.
    pub open spec fn ticked_state(self, now: u64) -> StateView {
        if self.timed_out(now) {
            StateView::Failed { reason: "session timeout"@ }
        } else {
            match self.state {
                StateView::Offered { sent_at, retries } => if !is_due(sent_at, now) {
                    self.state
                } else if retries >= 5 {
                    StateView::Failed { reason: "offer not accepted"@ }
                } else {
                    StateView::Offered { sent_at: now, retries: (retries + 1) as u32 }
                },
                StateView::Transferring { current_chunk, last_sent_at, retries } => if !is_due(last_sent_at, now) {
                    self.state
                } else if retries >= 5 {
                    StateView::Failed { reason: "chunk "@ + text::decimal(current_chunk as nat) + " retry limit"@ }
                } else {
                    StateView::Transferring { current_chunk, last_sent_at: now, retries: (retries + 1) as u32 }
                },
                StateView::WaitingResult { sent_at, retries } => if !is_due(sent_at, now) {
                    self.state
                } else if retries >= 5 {
                    StateView::Failed { reason: "no result received"@ }
                } else {
                    StateView::WaitingResult { sent_at: now, retries: (retries + 1) as u32 }
                },
                _ => self.state,
            }
        }
    }

    /// The session after a look at the clock.
    pub open spec fn ticked(self, now: u64) -> SessionView {
        self.in_state(self.ticked_state(now))
    }

    /// What is sent after a look at the clock: an abort where the session was given
    /// up, and what was last sent where it is due.
    pub open spec fn tick_message(self, node_id: u32, now: u64) -> Option<MessageView> {
        if self.timed_out(now) {
            Some(abort_message(node_id, self.session_id))
        } else {
            match self.state {
                StateView::Offered { sent_at, retries } => if !is_due(sent_at, now) {
                    None
                } else if retries >= 5 {
                    Some(abort_message(node_id, self.session_id))
                } else {
                    Some(
                        self.firmware.offer(
                            node_id,
                            self.session_id,
                            if self.firmware.signature is Some {
                                OTA_FLAG_SIGNED
                            } else {
                                0
                            },
                        ),
                    )
                },
                StateView::Transferring { current_chunk, last_sent_at, retries } => if !is_due(last_sent_at, now) {
                    None
                } else if retries >= 5 {
                    Some(abort_message(node_id, self.session_id))
                } else {
                    self.chunk_message(node_id, current_chunk)
                },
                StateView::WaitingResult { sent_at, retries } => if !is_due(sent_at, now) {
                    None
                } else if retries >= 5 {
                    Some(abort_message(node_id, self.session_id))
                } else {
                    Some(complete_message(node_id, self.session_id))
                },
                _ => None,
            }
        }
    }

    /// The message that carries a chunk; there is none for a chunk behind the end.
    pub open spec fn chunk_message(self, node_id: u32, chunk_num: u16) -> Option<MessageView> {
        match self.firmware.chunk(chunk_num) {
            Some(data) => Some(data_message(node_id, self.session_id, chunk_num, data)),
            None => None,
        }
    }

    /// What is known of the session, for display.
    pub open spec fn described_by(self, info: OtaStatusInfo, now: u64) -> bool {
        &&& info.session_id == self.session_id
        &&& info.state@ == self.state.text()
        &&& info.progress_percent == self.progress()
        &&& info.chunks_sent == self.chunks_acked
        &&& info.total_chunks == self.firmware.total_chunks
        &&& info.elapsed_secs == lite::elapsed(self.started_at, now) / 1_000_000_000
    }
}

/// A message that carries a chunk.
pub open spec fn data_message(node_id: u32, session_id: u16, chunk_num: u16, data: Seq<u8>) -> MessageView {
    MessageView {
        msg_type: MessageType::OtaData,
        flags: 0,
        node_id,
        seq_num: 0,
        payload: bytes::le_bytes(session_id as nat, 2) + bytes::le_bytes(chunk_num as nat, 2) + bytes::le_bytes(
            (data.len() % 65536) as nat,
            2,
        ) + data,
    }
}

/// The announcement that all chunks were sent.
pub open spec fn complete_message(node_id: u32, session_id: u16) -> MessageView {
    MessageView {
        msg_type: MessageType::OtaComplete,
        flags: 0,
        node_id,
        seq_num: 0,
        payload: bytes::le_bytes(session_id as nat, 2),
    }
}

/// The message by which a session is given up.
pub open spec fn abort_message(node_id: u32, session_id: u16) -> MessageView {
    MessageView {
        msg_type: MessageType::OtaAbort,
        flags: 0,
        node_id,
        seq_num: 0,
        payload: bytes::le_bytes(session_id as nat, 2) + seq![OTA_ABORT_TOO_MANY_RETRIES, 0u8],
    }
}

/// What a result code says.
pub open spec fn result_reason(code: u8) -> Seq<char> {
    if code == 0x01 {
        "hash mismatch"@
    } else if code == 0x02 {
        "flash error"@
    } else if code == 0x03 {
        "invalid offer"@
    } else if code == 0x04 {
        "signature invalid"@
    } else if code == 0x05 {
        "signature required"@
    } else {
        "unknown"@
    }
}

impl OtaSession {
    /// Get progress as percentage
    pub fn progress_percent(&self) -> (r: u8)
        ensures
            r == self@.progress(),
    {
        if self.firmware.total_chunks == 0 {
            return 0;
        }
        let percent: u32 = (self.chunks_acked as u32 * 100) / self.firmware.total_chunks as u32;
        (percent % 256) as u8
    }

    /// Check if session has timed out overall
    pub fn is_timed_out(&self, now: u64) -> (r: bool)
        ensures
            r == self@.timed_out(now),
    {
        now.saturating_sub(self.started_at) > SESSION_TIMEOUT_NANOS
    }

    fn chunk_to_send(&self, node_id: u32, chunk_num: u16) -> (r: Option<LiteMessage>)
        ensures
            wire::message_view(r) == self@.chunk_message(node_id, chunk_num),
    {
        match self.firmware.chunk(chunk_num) {
            Some(data) => Some(LiteMessage::ota_data(node_id, self.session_id, chunk_num, data)),
            None => None,
        }
    }

    fn give_up(&mut self, node_id: u32, reason: String) -> (r: LiteMessage)
        ensures
            final(self)@ == old(self)@.in_state(StateView::Failed { reason: reason@ }),
            r@ == abort_message(node_id, old(self)@.session_id),
    {
        self.state = OtaSenderState::Failed { reason };
        LiteMessage::ota_abort(node_id, self.session_id, OTA_ABORT_TOO_MANY_RETRIES)
    }

    /// Looks at the clock: gives the session up where it took too long or something
    /// was sent too often, and otherwise says what is to be sent again.
    pub fn tick(&mut self, node_id: u32, now: u64) -> (r: Option<LiteMessage>)
        ensures
            final(self)@ == old(self)@.ticked(now),
            wire::message_view(r) == old(self)@.tick_message(node_id, now),
    {
        if self.is_timed_out(now) {
            return Some(self.give_up(node_id, "session timeout".to_owned()));
        }
        match self.state {
            OtaSenderState::Offered { sent_at, retries } => {
                if now.saturating_sub(sent_at) <= CHUNK_TIMEOUT_NANOS {
                    return None;
                }
                if retries >= MAX_RETRIES_PER_CHUNK {
                    return Some(self.give_up(node_id, "offer not accepted".to_owned()));
                }
                self.state = OtaSenderState::Offered { sent_at: now, retries: retries + 1 };
                let flags: u16 = if self.firmware.signature.is_some() {
                    OTA_FLAG_SIGNED
                } else {
                    0
                };
                Some(self.firmware.offer_message(node_id, self.session_id, flags))
            },
            OtaSenderState::Transferring { current_chunk, last_sent_at, retries } => {
                if now.saturating_sub(last_sent_at) <= CHUNK_TIMEOUT_NANOS {
                    return None;
                }
                if retries >= MAX_RETRIES_PER_CHUNK {
                    let number = decimal_string(current_chunk as u64);
                    let reason = joined3("chunk ", number.as_str(), " retry limit");
                    return Some(self.give_up(node_id, reason));
                }
                self.state = OtaSenderState::Transferring { current_chunk, last_sent_at: now, retries: retries + 1 };
                self.chunk_to_send(node_id, current_chunk)
            },
            OtaSenderState::WaitingResult { sent_at, retries } => {
                if now.saturating_sub(sent_at) <= CHUNK_TIMEOUT_NANOS {
                    return None;
                }
                if retries >= MAX_RETRIES_PER_CHUNK {
                    return Some(self.give_up(node_id, "no result received".to_owned()));
                }
                self.state = OtaSenderState::WaitingResult { sent_at: now, retries: retries + 1 };
                Some(LiteMessage::ota_complete(node_id, self.session_id))
            },
            _ => None,
        }
    }

    /// What is known of the session, for display.
    pub fn status(&self, now: u64) -> (r: OtaStatusInfo)
        ensures
            self@.described_by(r, now),
    {
        OtaStatusInfo {
            session_id: self.session_id,
            state: self.state.text(),
            progress_percent: self.progress_percent(),
            chunks_sent: self.chunks_acked,
            total_chunks: self.firmware.total_chunks,
            elapsed_secs: now.saturating_sub(self.started_at) / 1_000_000_000,
        }
    }
}

/// The session ID that a message of a transfer names.
pub open spec fn named_session(payload: Seq<u8>) -> u16 {
    bytes::le_value(payload.subrange(0, 2)) as u16
}

/// The chunk that a message of a transfer names.
pub open spec fn named_chunk(payload: Seq<u8>) -> u16 {
    bytes::le_value(payload.subrange(2, 4)) as u16
}

/// An [`OtaSender`] in terms of sequences and maps.
#[verifier::ext_equal]
pub struct SenderView {
    pub node_id: u32,
    pub sessions: Map<Seq<char>, SessionView>,
    pub next_session_id: u16,
    pub secret: Option<Seq<u8>>,
}

/// The ID after `id`; 0 is skipped.
pub open spec fn id_after(id: u16) -> u16 {
    if id == 65535 {
        1
    } else {
        (id + 1) as u16
    }
}

impl SenderView {
    /// The session with a peer that a message names: its payload has at least `len`
    /// bytes and holds the session's ID.
    pub open spec fn addressed(self, peer: Seq<char>, payload: Seq<u8>, len: nat) -> Option<SessionView> {
        if payload.len() >= len && self.sessions.contains_key(peer) && self.sessions[peer].session_id == named_session(
            payload,
        ) {
            Some(self.sessions[peer])
        } else {
            None
        }
    }

    /// The sender with another session for a peer.
    pub open spec fn with(self, peer: Seq<char>, session: SessionView) -> SenderView {
        SenderView { sessions: self.sessions.insert(peer, session), ..self }
    }

    /// The sender once a session ID was given out.
    pub open spec fn id_taken(self) -> SenderView {
        SenderView { next_session_id: id_after(self.next_session_id), ..self }
    }

    /// The offer that comes next.
    pub open spec fn next_offer(self, firmware: FirmwareView) -> OfferView {
        let prepared = firmware.prepared(self.secret);
        OfferView {
            session_id: self.next_session_id,
            firmware: prepared,
            message: prepared.offer(
                self.node_id,
                self.next_session_id,
                if self.secret is Some {
                    OTA_FLAG_SIGNED
                } else {
                    0
                },
            ),
        }
    }

    /// The sender once a peer accepted an offer.
    pub open spec fn after_accept(self, peer: Seq<char>, payload: Seq<u8>, now: u64) -> SenderView {
        match self.addressed(peer, payload, 4) {
            Some(session) => self.with(peer, session.from_chunk(named_chunk(payload), now)),
            None => self,
        }
    }

    /// What is sent once a peer accepted an offer: the chunk it asked for.
    pub open spec fn accept_reply(self, peer: Seq<char>, payload: Seq<u8>) -> Option<MessageView> {
        match self.addressed(peer, payload, 4) {
            Some(session) => session.chunk_message(self.node_id, named_chunk(payload)),
            None => None,
        }
    }

    /// The sender once a peer acknowledged a chunk.
    pub open spec fn after_ack(self, peer: Seq<char>, payload: Seq<u8>, now: u64) -> SenderView {
        match self.addressed(peer, payload, 4) {
            Some(session) => self.with(peer, session.acked(named_chunk(payload), now)),
            None => self,
        }
    }

    /// What is sent once a peer acknowledged a chunk: the next one, or the end.
    pub open spec fn ack_reply(self, peer: Seq<char>, payload: Seq<u8>) -> Option<MessageView> {
        match self.addressed(peer, payload, 4) {
            Some(session) => if named_chunk(payload) + 1 >= session.firmware.total_chunks {
                Some(complete_message(self.node_id, session.session_id))
            } else {
                session.chunk_message(self.node_id, (named_chunk(payload) + 1) as u16)
            },
            None => None,
        }
    }

    /// The sender once a peer reported a result.
    pub open spec fn after_result(self, peer: Seq<char>, payload: Seq<u8>) -> SenderView {
        match self.addressed(peer, payload, 3) {
            Some(session) => self.with(peer, session.finished(payload[2])),
            None => self,
        }
    }

    /// The sender once a peer gave the transfer up.
    pub open spec fn after_abort(self, peer: Seq<char>, payload: Seq<u8>) -> SenderView {
        match self.addressed(peer, payload, 3) {
            Some(session) => self.with(
                peer,
                session.in_state(
                    StateView::Failed { reason: "peer aborted: reason="@ + text::decimal(payload[2] as nat) },
                ),
            ),
            None => self,
        }
    }

    /// The sender after a look at the clock.
    pub open spec fn ticked(self, now: u64) -> SenderView {
        SenderView {
            sessions: Map::new(
                |peer: Seq<char>| self.sessions.contains_key(peer),
                |peer: Seq<char>| self.sessions[peer].ticked(now),
            ),
            ..self
        }
    }

    /// What is sent to a peer after a look at the clock.
    pub open spec fn tick_message(self, peer: Seq<char>, now: u64) -> Option<MessageView> {
        if self.sessions.contains_key(peer) {
            self.sessions[peer].tick_message(self.node_id, now)
        } else {
            None
        }
    }
}

/// An offer that is to be sent.
pub struct PendingOffer {
    pub session_id: u16,
    pub firmware: FirmwareImage,
    pub message: LiteMessage,
}

/// A [`PendingOffer`] in terms of sequences.
#[verifier::ext_equal]
pub struct OfferView {
    pub session_id: u16,
    pub firmware: FirmwareView,
    pub message: MessageView,
}

impl View for PendingOffer {
    type V = OfferView;

    open spec fn view(&self) -> OfferView {
        OfferView { session_id: self.session_id, firmware: self.firmware@, message: self.message@ }
    }
}

impl OfferView {
    /// The session that begins once the offer was sent to a peer.
    pub open spec fn session(self, peer: Seq<char>, now: u64) -> SessionView {
        SessionView {
            session_id: self.session_id,
            peer_id: peer,
            firmware: self.firmware,
            state: StateView::Offered { sent_at: now, retries: 0 },
            started_at: now,
            chunks_acked: 0,
        }
    }
}

/// Messages and the peers they go to, by their views.
pub open spec fn sent_view(out: Seq<(String, LiteMessage)>) -> Seq<(Seq<char>, MessageView)> {
    out.map_values(|m: (String, LiteMessage)| (m.0@, m.1@))
}

/// Sender of firmware that keeps a session for each peer.
pub struct OtaSender {
    node_id: u32,
    sessions: VecMap<String, OtaSession>,
    next_session_id: u16,
    signing_keypair: Option<DeviceKeypair>,
}

spec fn session_views(m: Map<Seq<char>, OtaSession>) -> Map<Seq<char>, SessionView> {
    m.map_values(|s: OtaSession| s@)
}

impl View for OtaSender {
    type V = SenderView;

    closed spec fn view(&self) -> SenderView {
        SenderView {
            node_id: self.node_id,
            sessions: session_views(self.sessions@),
            next_session_id: self.next_session_id,
            secret: match self.signing_keypair {
                Some(k) => Some(k.secret()),
                None => None,
            },
        }
    }
}

impl OtaSender {
    /// Create a new sender for the node with this ID, optionally with a signing
    /// keypair
    pub fn new(node_id: u32, signing_keypair: Option<DeviceKeypair>) -> (r: Self)
        ensures
            r@ == (SenderView {
                node_id,
                sessions: Map::empty(),
                next_session_id: 1,
                secret: match signing_keypair {
                    Some(k) => Some(k.secret()),
                    None => None,
                },
            }),
    {
        let r = OtaSender { node_id, sessions: VecMap::new(), next_session_id: 1, signing_keypair };
        assert(r@.sessions =~= Map::empty());
        r
    }

    /// Prepares an offer: gives out a session ID and signs the firmware where there
    /// is a keypair.
    pub fn prepare_offer(&mut self, firmware: FirmwareImage) -> (r: PendingOffer)
        ensures
            final(self)@ == old(self)@.id_taken(),
            r@ == old(self)@.next_offer(firmware@),
    {
        let session_id: u16 = self.next_session_id;
        self.next_session_id = if session_id == 65535 {
            1
        } else {
            session_id + 1
        };
        let mut firmware = firmware;
        let mut flags: u16 = 0;
        if let Some(keypair) = &self.signing_keypair {
            firmware.sign(keypair);
            flags = OTA_FLAG_SIGNED;
        }
        let message = firmware.offer_message(self.node_id, session_id, flags);
        PendingOffer { session_id, firmware, message }
    }

    /// Begins the session of an offer that was sent to a peer, in place of an earlier
    /// one with that peer. Returns the session ID. Where the offer could not be sent,
    /// no session begins.
    pub fn offer_to_peer(
        &mut self,
        peer_id: &NodeId,
        offer: PendingOffer,
        sent: Result<(), String>,
        now: u64,
    ) -> (r: Result<u16, String>)
        ensures
            match sent {
                Ok(_) => r == Ok::<u16, String>(offer.session_id) && final(self)@ == old(self)@.with(
                    peer_id@,
                    offer@.session(peer_id@, now),
                ),
                Err(e) => r is Err && r->Err_0@ == "Failed to send OTA offer: "@ + e@ && final(self)@ == old(self)@,
            },
    {
        match sent {
            Ok(_) => {
                let session_id: u16 = offer.session_id;
                let session = OtaSession {
                    session_id,
                    peer_id: peer_id.clone(),
                    firmware: offer.firmware,
                    state: OtaSenderState::Offered { sent_at: now, retries: 0 },
                    started_at: now,
                    chunks_acked: 0,
                };
                self.sessions.insert(peer_id.as_str().to_owned(), session);
                assert(self@ =~= old(self)@.with(peer_id@, offer@.session(peer_id@, now)));
                Ok(session_id)
            },
            Err(e) => Err(joined("Failed to send OTA offer: ", e.as_str())),
        }
    }

    /// Takes out the session that a message names.
    fn take_addressed(&mut self, name: &String, payload: &[u8]) -> (r: Option<OtaSession>)
        requires
            payload@.len() >= 2,
        ensures
            match r {
                Some(session) => {
                    &&& old(self)@.sessions.contains_key(name@)
                    &&& session@ == old(self)@.sessions[name@]
                    &&& session.session_id == named_session(payload@)
                    &&& final(self)@ == (SenderView { sessions: old(self)@.sessions.remove(name@), ..old(self)@ })
                },
                None => {
                    &&& !(old(self)@.sessions.contains_key(name@) && old(self)@.sessions[name@].session_id == named_session(
                        payload@,
                    ))
                    &&& final(self)@ == old(self)@
                },
            },
    {
        let session_id: u16 = read_u16(payload, 0);
        match self.sessions.get(name) {
            Some(session) => {
                if session.session_id != session_id {
                    return None;
                }
            },
            None => return None,
        }
        let r = self.sessions.remove(name);
        assert(self@.sessions =~= old(self)@.sessions.remove(name@));
        r
    }

    fn put_back(&mut self, name: String, session: OtaSession)
        ensures
            final(self)@ == old(self)@.with(name@, session@),
    {
        self.sessions.insert(name, session);
        assert(self@.sessions =~= old(self)@.sessions.insert(name@, session@));
    }

    /// Handle an accept message from a peer; says what is to be sent to it.
    pub fn handle_accept(&mut self, peer_id: &str, payload: &[u8], now: u64) -> (r: Option<LiteMessage>)
        ensures
            final(self)@ == old(self)@.after_accept(peer_id@, payload@, now),
            wire::message_view(r) == old(self)@.accept_reply(peer_id@, payload@),
    {
        if payload.len() < 4 {
            return None;
        }
        let name = peer_id.to_owned();
        let resume_chunk: u16 = read_u16(payload, 2);
        match self.take_addressed(&name, payload) {
            Some(session) => {
                let mut session = session;
                session.chunks_acked = resume_chunk;
                session.state = OtaSenderState::Transferring {
                    current_chunk: resume_chunk,
                    last_sent_at: now,
                    retries: 0,
                };
                let reply = session.chunk_to_send(self.node_id, resume_chunk);
                self.put_back(name, session);
                assert(self@ =~= old(self)@.after_accept(peer_id@, payload@, now));
                reply
            },
            None => None,
        }
    }

    /// Handle an acknowledgement from a peer; says what is to be sent to it.
    pub fn handle_ack(&mut self, peer_id: &str, payload: &[u8], now: u64) -> (r: Option<LiteMessage>)
        requires
            old(self)@.addressed(peer_id@, payload@, 4) is Some ==> named_chunk(payload@) < 65535,
        ensures
            final(self)@ == old(self)@.after_ack(peer_id@, payload@, now),
            wire::message_view(r) == old(self)@.ack_reply(peer_id@, payload@),
    {
        if payload.len() < 4 {
            return None;
        }
        let name = peer_id.to_owned();
        let acked_chunk: u16 = read_u16(payload, 2);
        match self.take_addressed(&name, payload) {
            Some(session) => {
                let mut session = session;
                let next: u16 = acked_chunk + 1;
                session.chunks_acked = next;
                let reply = if next >= session.firmware.total_chunks {
                    session.state = OtaSenderState::WaitingResult { sent_at: now, retries: 0 };
                    Some(LiteMessage::ota_complete(self.node_id, session.session_id))
                } else {
                    session.state = OtaSenderState::Transferring { current_chunk: next, last_sent_at: now, retries: 0 };
                    session.chunk_to_send(self.node_id, next)
                };
                self.put_back(name, session);
                assert(self@ =~= old(self)@.after_ack(peer_id@, payload@, now));
                reply
            },
            None => None,
        }
    }

    /// Handle a result message from a peer
    pub fn handle_result(&mut self, peer_id: &str, payload: &[u8])
        ensures
            final(self)@ == old(self)@.after_result(peer_id@, payload@),
    {
        if payload.len() < 3 {
            return ;
        }
        let name = peer_id.to_owned();
        if let Some(session) = self.take_addressed(&name, payload) {
            let mut session = session;
            session.state = result_state(payload[2]);
            self.put_back(name, session);
            assert(self@ =~= old(self)@.after_result(peer_id@, payload@));
        }
    }

    /// Handle an abort message from a peer
    pub fn handle_abort(&mut self, peer_id: &str, payload: &[u8])
        ensures
            final(self)@ == old(self)@.after_abort(peer_id@, payload@),
    {
        if payload.len() < 3 {
            return ;
        }
        let name = peer_id.to_owned();
        if let Some(session) = self.take_addressed(&name, payload) {
            let mut session = session;
            let code = decimal_string(payload[2] as u64);
            session.state = OtaSenderState::Failed { reason: joined("peer aborted: reason=", code.as_str()) };
            self.put_back(name, session);
            assert(self@ =~= old(self)@.after_abort(peer_id@, payload@));
        }
    }

    /// Get session status for a peer
    pub fn get_status(&self, peer_id: &str, now: u64) -> (r: Option<OtaStatusInfo>)
        ensures
            match r {
                Some(info) => self@.sessions.contains_key(peer_id@) && self@.sessions[peer_id@].described_by(info, now),
                None => !self@.sessions.contains_key(peer_id@),
            },
    {
        let name = peer_id.to_owned();
        match self.sessions.get(&name) {
            Some(session) => Some(session.status(now)),
            None => None,
        }
    }
}

fn result_state(code: u8) -> (r: OtaSenderState)
    ensures
        r@ == (if code == 0 {
            StateView::Complete
        } else {
            StateView::Failed { reason: result_reason(code) }
        }),
{
    if code == OTA_RESULT_SUCCESS {
        OtaSenderState::Complete
    } else {
        let reason = if code == 0x01 {
            "hash mismatch"
        } else if code == 0x02 {
            "flash error"
        } else if code == 0x03 {
            "invalid offer"
        } else if code == 0x04 {
            "signature invalid"
        } else if code == 0x05 {
            "signature required"
        } else {
            "unknown"
        };
        OtaSenderState::Failed { reason: reason.to_owned() }
    }
}

/// Whether what is sent after a look at the clock is what is due: one message for
/// each peer that has one due, in any order.
pub open spec fn tick_sent(before: SenderView, now: u64, sent: Seq<(Seq<char>, MessageView)>) -> bool {
    &&& forall|i: int|
        0 <= i < sent.len() ==> before.tick_message((#[trigger] sent[i]).0, now) == Some(sent[i].1)
    &&& forall|peer: Seq<char>|
        (#[trigger] before.tick_message(peer, now)) is Some ==> has_message(sent, peer)
    &&& forall|i: int, j: int| 0 <= i < j < sent.len() ==> (#[trigger] sent[i]).0 != (#[trigger] sent[j]).0
}

/// Whether a message goes to a peer.
pub open spec fn has_message(sent: Seq<(Seq<char>, MessageView)>, peer: Seq<char>) -> bool {
    exists|i: int| 0 <= i < sent.len() && (#[trigger] sent[i]).0 == peer
}

/// The sessions once those with the first `n` peers of a list were ticked.
spec fn ticked_upto(before: SenderView, names: Seq<String>, n: int, now: u64) -> Map<Seq<char>, SessionView> {
    Map::new(
        |peer: Seq<char>| before.sessions.contains_key(peer),
        |peer: Seq<char>|
            if text::texts(names).take(n).contains(peer) {
                before.sessions[peer].ticked(now)
            } else {
                before.sessions[peer]
            },
    )
}

impl OtaSender {
    fn peer_names(&self) -> (names: Vec<String>)
        ensures
            forall|i: int| 0 <= i < names@.len() ==> self@.sessions.contains_key((#[trigger] names@[i])@),
            forall|peer: Seq<char>| #[trigger]
                self@.sessions.contains_key(peer) ==> text::texts(names@).contains(peer),
            forall|i: int, j: int| 0 <= i < j < names@.len() ==> (#[trigger] names@[i])@ != (#[trigger] names@[j])@,
    {
        let count: usize = self.sessions.len();
        let ghost items = self.sessions.items();
        let mut names: Vec<String> = Vec::new();
        let mut i: usize = 0;
        while i < count
            invariant
                i <= count,
                count == items.len(),
                items == self.sessions.items(),
                vec_map::keys_distinct(items),
                self.sessions@ == vec_map::entries_map(items),
                names@.len() == i,
                forall|k: int| 0 <= k < i ==> (#[trigger] names@[k])@ == items[k].0@,
            decreases count - i,
        {
            let entry = self.sessions.item(i);
            names.push(entry.0.clone());
            i = i + 1;
        }
        proof {
            assert forall|k: int| 0 <= k < names@.len() implies self@.sessions.contains_key((#[trigger] names@[k])@) by {
                vec_map::lemma_entry_at(items, k);
            }
            assert forall|peer: Seq<char>| #[trigger] self@.sessions.contains_key(peer) implies text::texts(
                names@,
            ).contains(peer) by {
                assert(vec_map::has_entry(items, peer));
                let k = vec_map::entry_index(items, peer);
                assert(items[k].0@ == peer);
                assert(text::texts(names@)[k] == peer);
            }
            assert forall|a: int, b: int| 0 <= a < b < names@.len() implies (#[trigger] names@[a])@ != (
            #[trigger] names@[b])@ by {
                assert(items[a].0@ != items[b].0@);
            }
        }
        names
    }

    /// Periodic tick: checks every session for timeouts and says what is to be sent
    /// again, and to whom.
    pub fn tick(&mut self, now: u64) -> (out: Vec<(String, LiteMessage)>)
        ensures
            final(self)@ == old(self)@.ticked(now),
            tick_sent(old(self)@, now, sent_view(out@)),
    {
        let ghost before = self@;
        let names = self.peer_names();
        let count: usize = names.len();
        let ghost texts = text::texts(names@);
        let mut out: Vec<(String, LiteMessage)> = Vec::new();
        let mut i: usize = 0;
        assert(self@.sessions =~= ticked_upto(before, names@, 0, now));
        while i < count
            invariant
                i <= count,
                count == names@.len(),
                texts == text::texts(names@),
                self@ == (SenderView { sessions: ticked_upto(before, names@, i as int, now), ..before }),
                forall|k: int| 0 <= k < names@.len() ==> before.sessions.contains_key((#[trigger] names@[k])@),
                forall|a: int, b: int|
                    0 <= a < b < names@.len() ==> (#[trigger] names@[a])@ != (#[trigger] names@[b])@,
                forall|k: int|
                    0 <= k < out@.len() ==> before.tick_message((#[trigger] sent_view(out@)[k]).0, now) == Some(
                        sent_view(out@)[k].1,
                    ) && texts.take(i as int).contains(sent_view(out@)[k].0),
                forall|k: int|
                    0 <= k < i && before.tick_message((#[trigger] names@[k])@, now) is Some ==> has_message(
                        sent_view(out@),
                        names@[k]@,
                    ),
                forall|a: int, b: int|
                    0 <= a < b < out@.len() ==> (#[trigger] sent_view(out@)[a]).0 != (#[trigger] sent_view(out@)[b]).0,
            decreases count - i,
        {
            let name = names[i].clone();
            let ghost peer = name@;
            let ghost out_before = sent_view(out@);
            assert(texts[i as int] == peer);
            assert(!texts.take(i as int).contains(peer)) by {
                if texts.take(i as int).contains(peer) {
                    let k = choose|k: int| 0 <= k < i && texts.take(i as int)[k] == peer;
                    assert(names@[k]@ != names@[i as int]@);
                }
            }
            assert(texts.take(i + 1) =~= texts.take(i as int).push(peer));
            assert(before.sessions.contains_key(names@[i as int]@));
            assert(self@.sessions.contains_key(peer));
            assert(self@.sessions[peer] == before.sessions[peer]);
            assert(self.sessions@.contains_key(peer));
            match self.sessions.remove(&name) {
                Some(session) => {
                    let mut session = session;
                    assert(session@ == before.sessions[peer]);
                    let message = session.tick(self.node_id, now);
                    if let Some(m) = message {
                        out.push((name.clone(), m));
                        assert(sent_view(out@) =~= out_before.push((peer, m@)));
                        assert(sent_view(out@)[out_before.len() as int].0 == peer);
                    }
                    self.sessions.insert(name, session);
                    assert(self@.sessions =~= ticked_upto(before, names@, i as int, now).insert(
                        peer,
                        before.sessions[peer].ticked(now),
                    ));
                },
                None => {
                    assert(false);
                },
            }
            proof {
                lemma_take_contains(texts, i as int);
                assert forall|t: Seq<char>| #[trigger] before.sessions.contains_key(t) implies self@.sessions[t]
                    == ticked_upto(before, names@, i + 1, now)[t] by {
                    assert(texts.take(i + 1).contains(t) <==> texts.take(i as int).contains(t) || t == texts[i as int]);
                }
                assert(self@.sessions =~= ticked_upto(before, names@, i + 1, now));
                assert forall|k: int| 0 <= k < out@.len() implies before.tick_message(
                    (#[trigger] sent_view(out@)[k]).0,
                    now,
                ) == Some(sent_view(out@)[k].1) && texts.take(i + 1).contains(sent_view(out@)[k].0) by {
                    if k < out_before.len() {
                        assert(sent_view(out@)[k] == out_before[k]);
                    }
                }
                assert forall|k: int| 0 <= k < i + 1 && before.tick_message((#[trigger] names@[k])@, now) is Some implies has_message(
                    sent_view(out@),
                    names@[k]@,
                ) by {
                    if k < i {
                        let t = choose|t: int| 0 <= t < out_before.len() && (#[trigger] out_before[t]).0 == names@[k]@;
                        assert(sent_view(out@)[t] == out_before[t]);
                    }
                }
                assert forall|a: int, b: int| 0 <= a < b < out@.len() implies (#[trigger] sent_view(out@)[a]).0 != (
                #[trigger] sent_view(out@)[b]).0 by {
                    assert(sent_view(out@)[a] == out_before[a]);
                    if b < out_before.len() {
                        assert(sent_view(out@)[b] == out_before[b]);
                    }
                }
            }
            i = i + 1;
        }
        proof {
            assert(texts.take(count as int) =~= texts);
            assert(self@.sessions =~= before.ticked(now).sessions);
            let sent = sent_view(out@);
            assert forall|peer: Seq<char>| (#[trigger] before.tick_message(peer, now)) is Some implies has_message(
                sent,
                peer,
            ) by {
                assert(before.sessions.contains_key(peer));
                let k = choose|k: int| 0 <= k < texts.len() && texts[k] == peer;
                assert(names@[k]@ == peer);
            }
        }
        out
    }
}

proof fn lemma_take_contains(texts: Seq<Seq<char>>, n: int)
    requires
        0 <= n < texts.len(),
    ensures
        forall|t: Seq<char>| #[trigger]
            texts.take(n + 1).contains(t) <==> texts.take(n).contains(t) || t == texts[n],
{
    let a = texts.take(n);
    let b = texts.take(n + 1);
    assert(b =~= a.push(texts[n]));
    assert forall|t: Seq<char>| #[trigger] b.contains(t) <==> a.contains(t) || t == texts[n] by {
        if a.contains(t) {
            let k = choose|k: int| 0 <= k < a.len() && a[k] == t;
            assert(b[k] == t);
        }
        if t == texts[n] {
            assert(b[n] == t);
        }
        if b.contains(t) {
            let k = choose|k: int| 0 <= k < b.len() && b[k] == t;
            if k < n {
                assert(a[k] == t);
            }
        }
    }
}

/// The first `n` chunks of an image, one after the other.
pub open spec fn first_chunks(image: FirmwareView, n: nat) -> Seq<u8>
    decreases n,
{
    if n == 0 {
        Seq::empty()
    } else {
        first_chunks(image, (n - 1) as nat) + (match image.chunk((n - 1) as u16) {
            Some(c) => c,
            None => Seq::empty(),
        })
    }
}

proof fn lemma_first_chunks(data: Seq<u8>, version: Seq<char>, n: nat)
    requires
        data.len() <= 448 * 65535,
        n <= chunks_for(data.len()),
    ensures
        first_chunks(image_of(data, version), n) == data.take(
            if 448 * n < data.len() {
                448 * n as int
            } else {
                data.len() as int
            },
        ),
    decreases n,
{
    let image = image_of(data, version);
    if n > 0 {
        lemma_first_chunks(data, version, (n - 1) as nat);
        let c = (n - 1) as u16;
        assert(c == n - 1);
        assert(image.chunk_start(c) == 448 * (n - 1));
        assert(image.chunk_start(c) < data.len());
        assert(data.take(448 * (n - 1)) + data.subrange(image.chunk_start(c), image.chunk_end(c)) =~= data.take(
            image.chunk_end(c),
        ));
    } else {
        assert(first_chunks(image, 0) =~= data.take(0));
    }
}

/// The chunks of an image are the firmware, cut into pieces: there are as many as
/// the image says, and in order they make the firmware. The count must fit its 16
/// bits.
pub proof fn law_chunks_make_firmware(data: Seq<u8>, version: Seq<char>)
    requires
        data.len() <= 448 * 65535,
    ensures
        image_of(data, version).total_chunks == chunks_for(data.len()),
        first_chunks(image_of(data, version), chunks_for(data.len())) == data,
        forall|n: u16|
            (#[trigger] image_of(data, version).chunk(n)) is Some <==> n < image_of(data, version).total_chunks,
{
    let image = image_of(data, version);
    lemma_first_chunks(data, version, chunks_for(data.len()));
    assert(data.take(data.len() as int) =~= data);
}

/// Every chunk of an image with chunks of 448 bytes fits a packet, and so does the
/// offer.
pub proof fn law_messages_fit_packets(
    image: FirmwareView,
    node_id: u32,
    session_id: u16,
    flags: u16,
    chunk_num: u16,
)
    requires
        image.chunk_size == 448,
        image.version.len() == 16,
        image.sha256.len() == 32,
        image.signature is Some ==> image.signature->Some_0.len() == 64,
    ensures
        image.offer(node_id, session_id, flags).wire().len() <= wire::MAX_PACKET_SIZE,
        image.chunk(chunk_num) is Some ==> 0 < image.chunk(chunk_num)->Some_0.len() <= 448,
        image.chunk(chunk_num) is Some ==> data_message(
            node_id,
            session_id,
            chunk_num,
            image.chunk(chunk_num)->Some_0,
        ).wire().len() <= wire::MAX_PACKET_SIZE,
{
    let offer = image.offer(node_id, session_id, flags);
    bytes::lemma_le_bytes_len(offer.flags as nat, 2);
    bytes::lemma_le_bytes_len(node_id as nat, 4);
    bytes::lemma_le_bytes_len(offer.seq_num as nat, 4);
    bytes::lemma_le_bytes_len((image.data.len() % 0x1_0000_0000) as u32 as nat, 4);
    bytes::lemma_le_bytes_len(image.total_chunks as nat, 2);
    bytes::lemma_le_bytes_len(image.chunk_size as nat, 2);
    bytes::lemma_le_bytes_len(session_id as nat, 2);
    bytes::lemma_le_bytes_len(flags as nat, 2);
    bytes::lemma_le_bytes_len(chunk_num as nat, 2);
    if let Some(c) = image.chunk(chunk_num) {
        bytes::lemma_le_bytes_len((c.len() % 65536) as nat, 2);
    }
}

/// Progress is a percentage as long as no more chunks are acknowledged than there
/// are, and it is 100 only when all are.
pub proof fn law_progress(s: SessionView)
    requires
        s.chunks_acked <= s.firmware.total_chunks,
        s.firmware.total_chunks > 0,
    ensures
        s.progress() <= 100,
        s.progress() == 100 <==> s.chunks_acked == s.firmware.total_chunks,
{
    let a = s.chunks_acked as int;
    let t = s.firmware.total_chunks as int;
    assert(0 <= (a * 100) / t <= 100) by (nonlinear_arith)
        requires
            0 <= a <= t,
            0 < t,
    ;
    assert((a * 100) / t == 100 <==> a == t) by (nonlinear_arith)
        requires
            0 <= a <= t,
            0 < t,
    ;
}

/// A session once the first `n` chunks were acknowledged in order.
pub open spec fn after_acks(s: SessionView, n: nat, now: u64) -> SessionView
    decreases n,
{
    if n == 0 {
        s.from_chunk(0, now)
    } else {
        after_acks(s, (n - 1) as nat, now).acked((n - 1) as u16, now)
    }
}

/// A transfer whose chunks are acknowledged in order sends each chunk in turn and,
/// after the last, waits for the result with all chunks acknowledged.
pub proof fn law_transfer_in_order(s: SessionView, n: nat, now: u64)
    requires
        n <= s.firmware.total_chunks,
    ensures
        after_acks(s, n, now).chunks_acked == n,
        after_acks(s, n, now).firmware == s.firmware,
        after_acks(s, n, now).session_id == s.session_id,
        0 < n == s.firmware.total_chunks ==> after_acks(s, n, now).state == (StateView::WaitingResult {
            sent_at: now,
            retries: 0,
        }),
        n < s.firmware.total_chunks ==> after_acks(s, n, now).state == (StateView::Transferring {
            current_chunk: n as u16,
            last_sent_at: now,
            retries: 0,
        }),
    decreases n,
{
    if n > 0 {
        law_transfer_in_order(s, (n - 1) as nat, now);
    }
}

/// When the session last sent something that it waits on, and how often it was
/// repeated.
pub open spec fn waiting(state: StateView) -> Option<(u64, u32)> {
    match state {
        StateView::Offered { sent_at, retries } => Some((sent_at, retries)),
        StateView::Transferring { last_sent_at, retries, .. } => Some((last_sent_at, retries)),
        StateView::WaitingResult { sent_at, retries } => Some((sent_at, retries)),
        _ => None,
    }
}

/// A session after looks at the clock.
pub open spec fn after_ticks(s: SessionView, times: Seq<u64>) -> SessionView
    decreases times.len(),
{
    if times.len() == 0 {
        s
    } else {
        after_ticks(s, times.drop_last()).ticked(times.last())
    }
}

/// What a session waits on is repeated at most five times: a look at the clock
/// leaves the session as it is, repeats once more, or gives the session up.
pub proof fn law_retries_bounded(s: SessionView, now: u64)
    requires
        waiting(s.state) is Some ==> waiting(s.state)->Some_0.1 <= 5,
    ensures
        waiting(s.ticked(now).state) is Some ==> waiting(s.ticked(now).state)->Some_0.1 <= 5,
        s.ticked(now).state == s.state || s.ticked(now).state is Failed || (waiting(s.state) is Some && waiting(
            s.ticked(now).state,
        ) == Some((now, (waiting(s.state)->Some_0.1 + 1) as u32))),
        !(s.ticked(now).state is Failed) ==> s.ticked(now).chunks_acked == s.chunks_acked,
{
}

/// A session that hears nothing is given up after six looks at the clock, each
/// more than half a second after the last thing sent.
pub proof fn law_silent_session_fails(s: SessionView, times: Seq<u64>)
    requires
        waiting(s.state) is Some,
        waiting(s.state)->Some_0.1 == 0,
        times.len() <= 6,
        times.len() > 0 ==> times[0] > waiting(s.state)->Some_0.0 + 500_000_000,
        forall|i: int| 0 < i < times.len() ==> #[trigger] times[i] > times[i - 1] + 500_000_000,
    ensures
        times.len() == 6 ==> after_ticks(s, times).state is Failed,
        times.len() < 6 ==> after_ticks(s, times).state is Failed || waiting(after_ticks(s, times).state) == Some(
            (
                if times.len() == 0 {
                    waiting(s.state)->Some_0.0
                } else {
                    times.last()
                },
                times.len() as u32,
            ),
        ),
    decreases times.len(),
{
    if times.len() > 0 {
        let front = times.drop_last();
        assert forall|i: int| 0 < i < front.len() implies #[trigger] front[i] > front[i - 1] + 500_000_000 by {
            assert(times[i] > times[i - 1] + 500_000_000);
        }
        law_silent_session_fails(s, front);
        if times.len() > 1 {
            assert(times[times.len() - 1] > times[times.len() - 2] + 500_000_000);
        }
    }
}

/// A message of a peer without a session, of another session, or too short to name
/// one changes nothing and is not answered.
pub proof fn law_foreign_messages_ignored(sender: SenderView, peer: Seq<char>, payload: Seq<u8>, now: u64)
    requires
        payload.len() < 3 || !sender.sessions.contains_key(peer) || sender.sessions[peer].session_id != named_session(
            payload,
        ),
    ensures
        sender.after_accept(peer, payload, now) == sender,
        sender.accept_reply(peer, payload) is None,
        sender.after_ack(peer, payload, now) == sender,
        sender.ack_reply(peer, payload) is None,
        sender.after_result(peer, payload) == sender,
        sender.after_abort(peer, payload) == sender,
{
}

/// A message of one peer leaves the sessions with the others as they are.
pub proof fn law_sessions_independent(
    sender: SenderView,
    peer: Seq<char>,
    other: Seq<char>,
    payload: Seq<u8>,
    now: u64,
)
    requires
        sender.sessions.contains_key(other),
        peer != other,
    ensures
        sender.after_accept(peer, payload, now).sessions[other] == sender.sessions[other],
        sender.after_ack(peer, payload, now).sessions[other] == sender.sessions[other],
        sender.after_result(peer, payload).sessions[other] == sender.sessions[other],
        sender.after_abort(peer, payload).sessions[other] == sender.sessions[other],
{
}

/// Whether every session is kept under the name of its peer.
pub open spec fn sessions_named(sender: SenderView) -> bool {
    forall|peer: Seq<char>| #[trigger] sender.sessions.contains_key(peer) ==> sender.sessions[peer].peer_id == peer
}

/// Sessions are kept under the names of their peers, whatever happens.
pub proof fn law_sessions_named(
    sender: SenderView,
    offer: OfferView,
    peer: Seq<char>,
    payload: Seq<u8>,
    now: u64,
)
    requires
        sessions_named(sender),
    ensures
        sessions_named(sender.id_taken()),
        sessions_named(sender.with(peer, offer.session(peer, now))),
        sessions_named(sender.after_accept(peer, payload, now)),
        sessions_named(sender.after_ack(peer, payload, now)),
        sessions_named(sender.after_result(peer, payload)),
        sessions_named(sender.after_abort(peer, payload)),
        sessions_named(sender.ticked(now)),
{
}

/// The sender once `n` offers were prepared.
pub open spec fn after_offers(sender: SenderView, n: nat) -> SenderView
    decreases n,
{
    if n == 0 {
        sender
    } else {
        after_offers(sender, (n - 1) as nat).id_taken()
    }
}

/// Session IDs are never 0, and they come round after 65535 of them: the first offer of
/// a new sender has the ID 1, and the one after `n` others has `1 + n % 65535`, whether or
/// not those were sent. Nothing but preparing an offer takes an ID.
pub proof fn law_session_ids(
    sender: SenderView,
    n: nat,
    offer: OfferView,
    peer: Seq<char>,
    payload: Seq<u8>,
    now: u64,
)
    requires
        sender.next_session_id != 0,
    ensures
        after_offers(sender, n).next_session_id == 1 + (sender.next_session_id - 1 + n) % 65535,
        after_offers(sender, n).next_session_id != 0,
        sender.next_session_id == 1 ==> after_offers(sender, n).next_session_id == 1 + n % 65535,
        sender.id_taken().next_session_id != sender.next_session_id,
        sender.with(peer, offer.session(peer, now)).next_session_id == sender.next_session_id,
        sender.after_accept(peer, payload, now).next_session_id == sender.next_session_id,
        sender.after_ack(peer, payload, now).next_session_id == sender.next_session_id,
        sender.after_result(peer, payload).next_session_id == sender.next_session_id,
        sender.after_abort(peer, payload).next_session_id == sender.next_session_id,
        sender.ticked(now).next_session_id == sender.next_session_id,
    decreases n,
{
    if n > 0 {
        law_session_ids(sender, (n - 1) as nat, offer, peer, payload, now);
        let before = sender.next_session_id - 1 + (n - 1);
        if before % 65535 == 65534 {
            assert((before + 1) % 65535 == 0);
        } else {
            assert((before + 1) % 65535 == before % 65535 + 1);
        }
    }
}

/// An offer that was sent opens a session with the ID of the offer, in which nothing was
/// sent or acknowledged yet, and leaves the sessions with other peers as they are.
pub proof fn law_offer_opens_session(
    sender: SenderView,
    firmware: FirmwareView,
    peer: Seq<char>,
    other: Seq<char>,
    now: u64,
)
    requires
        sender.next_session_id != 0,
    ensures
        ({
            let offer = sender.next_offer(firmware);
            let after = sender.id_taken().with(peer, offer.session(peer, now));
            let session = after.sessions[peer];
            &&& offer.session_id == sender.next_session_id
            &&& offer.session_id != 0
            &&& after.sessions.contains_key(peer)
            &&& session.session_id == offer.session_id
            &&& session.state is Offered
            &&& session.progress() == 0
            &&& other != peer ==> after.sessions.contains_key(other) == sender.sessions.contains_key(other)
            &&& other != peer && sender.sessions.contains_key(other) ==> after.sessions[other] == sender.sessions[other]
        }),
{
}

} // verus!
