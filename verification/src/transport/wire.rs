//! The wire protocol of lightweight nodes.
//!
//! ```text
//! [magic:4][version:1][type:1][flags:2][node id:4][sequence number:4][payload]
//! ```
//! Integers are little-endian.
//!
//! The numbers of the protocol (the magic, the version, the bytes of the message and CRDT
//! types, the capability flags, and with firmware the flag of signed offers and the codes
//! of results and aborts, see [`super::lite_ota`]) are set by this library. Firmware that
//! talks to it has to be built with the same numbers.

use vstd::prelude::*;
use vstd::string::*;
use vstd::utf8::*;

use crate::bytes;
use crate::bytes::{bytes_eq, copy_range, push_bytes, push_le, read_le};
use crate::text::string_from_utf8;

verus! {

/// Length of the header of a message.
pub const HEADER_SIZE: usize = 16;

/// Length of the longest packet.
pub const MAX_PACKET_SIZE: usize = 512;

/// Version of the protocol.
pub const PROTOCOL_VERSION: u8 = 1;

/// Port that lightweight nodes use.
pub const DEFAULT_PORT: u16 = 5555;

/// The four bytes that every message starts with.
pub open spec fn magic() -> Seq<u8> {
    seq![0x50u8, 0x45, 0x41, 0x54]
}

/// What a message is about.
#[derive(Clone, Copy, Debug, PartialEq, Eq, Structural)]
pub enum MessageType {
    Announce,
    Heartbeat,
    Data,
    Query,
    Ack,
    Leave,
    OtaOffer,
    OtaAccept,
    OtaData,
    OtaAck,
    OtaComplete,
    OtaResult,
    OtaAbort,
}

/// The message type that a byte stands for.
pub open spec fn message_type_of(b: u8) -> Option<MessageType> {
    if b == 0x01 {
        Some(MessageType::Announce)
    } else if b == 0x02 {
        Some(MessageType::Heartbeat)
    } else if b == 0x03 {
        Some(MessageType::Data)
    } else if b == 0x04 {
        Some(MessageType::Query)
    } else if b == 0x05 {
        Some(MessageType::Ack)
    } else if b == 0x06 {
        Some(MessageType::Leave)
    } else if b == 0x10 {
        Some(MessageType::OtaOffer)
    } else if b == 0x11 {
        Some(MessageType::OtaAccept)
    } else if b == 0x12 {
        Some(MessageType::OtaData)
    } else if b == 0x13 {
        Some(MessageType::OtaAck)
    } else if b == 0x14 {
        Some(MessageType::OtaComplete)
    } else if b == 0x15 {
        Some(MessageType::OtaResult)
    } else if b == 0x16 {
        Some(MessageType::OtaAbort)
    } else {
        None
    }
}

impl MessageType {
    /// The byte that stands for the message type.
    pub open spec fn code(self) -> u8 {
        match self {
            MessageType::Announce => 0x01,
            MessageType::Heartbeat => 0x02,
            MessageType::Data => 0x03,
            MessageType::Query => 0x04,
            MessageType::Ack => 0x05,
            MessageType::Leave => 0x06,
            MessageType::OtaOffer => 0x10,
            MessageType::OtaAccept => 0x11,
            MessageType::OtaData => 0x12,
            MessageType::OtaAck => 0x13,
            MessageType::OtaComplete => 0x14,
            MessageType::OtaResult => 0x15,
            MessageType::OtaAbort => 0x16,
        }
    }

    /// The byte that stands for the message type.
    pub fn to_u8(self) -> (r: u8)
        ensures
            r == self.code(),
    {
        match self {
            MessageType::Announce => 0x01,
            MessageType::Heartbeat => 0x02,
            MessageType::Data => 0x03,
            MessageType::Query => 0x04,
            MessageType::Ack => 0x05,
            MessageType::Leave => 0x06,
            MessageType::OtaOffer => 0x10,
            MessageType::OtaAccept => 0x11,
            MessageType::OtaData => 0x12,
            MessageType::OtaAck => 0x13,
            MessageType::OtaComplete => 0x14,
            MessageType::OtaResult => 0x15,
            MessageType::OtaAbort => 0x16,
        }
    }

    /// The message type that a byte stands for.
    pub fn from_u8(b: u8) -> (r: Option<Self>)
        ensures
            r == message_type_of(b),
    {
        match b {
            0x01 => Some(MessageType::Announce),
            0x02 => Some(MessageType::Heartbeat),
            0x03 => Some(MessageType::Data),
            0x04 => Some(MessageType::Query),
            0x05 => Some(MessageType::Ack),
            0x06 => Some(MessageType::Leave),
            0x10 => Some(MessageType::OtaOffer),
            0x11 => Some(MessageType::OtaAccept),
            0x12 => Some(MessageType::OtaData),
            0x13 => Some(MessageType::OtaAck),
            0x14 => Some(MessageType::OtaComplete),
            0x15 => Some(MessageType::OtaResult),
            0x16 => Some(MessageType::OtaAbort),
            _ => None,
        }
    }
}

/// The kinds of primitive CRDT that lightweight nodes exchange.
#[derive(Clone, Copy, Debug, PartialEq, Eq, Structural)]
pub enum CrdtType {
    LwwRegister,
    GCounter,
    PnCounter,
    OrSet,
}

/// The CRDT type that a byte stands for.
pub open spec fn crdt_type_of(b: u8) -> Option<CrdtType> {
    if b == 0x01 {
        Some(CrdtType::LwwRegister)
    } else if b == 0x02 {
        Some(CrdtType::GCounter)
    } else if b == 0x03 {
        Some(CrdtType::PnCounter)
    } else if b == 0x04 {
        Some(CrdtType::OrSet)
    } else {
        None
    }
}

impl CrdtType {
    /// The byte that stands for the CRDT type.
    pub open spec fn code(self) -> u8 {
        match self {
            CrdtType::LwwRegister => 0x01,
            CrdtType::GCounter => 0x02,
            CrdtType::PnCounter => 0x03,
            CrdtType::OrSet => 0x04,
        }
    }

    /// The byte that stands for the CRDT type.
    pub fn to_u8(self) -> (r: u8)
        ensures
            r == self.code(),
    {
        match self {
            CrdtType::LwwRegister => 0x01,
            CrdtType::GCounter => 0x02,
            CrdtType::PnCounter => 0x03,
            CrdtType::OrSet => 0x04,
        }
    }

    /// The CRDT type that a byte stands for.
    pub fn from_u8(b: u8) -> (r: Option<Self>)
        ensures
            r == crdt_type_of(b),
    {
        match b {
            0x01 => Some(CrdtType::LwwRegister),
            0x02 => Some(CrdtType::GCounter),
            0x03 => Some(CrdtType::PnCounter),
            0x04 => Some(CrdtType::OrSet),
            _ => None,
        }
    }
}

/// A byte decodes to a type exactly if the type encodes to that byte.
pub proof fn law_type_bytes_roundtrip(m: MessageType, c: CrdtType, b: u8)
    ensures
        message_type_of(b) == Some(m) <==> b == m.code(),
        crdt_type_of(b) == Some(c) <==> b == c.code(),
{
}

/// What a lightweight node can do.
#[derive(Clone, Copy, Debug, PartialEq, Eq, Structural)]
pub struct LiteCapabilities {
    bits: u16,
}

/// Another name for [`LiteCapabilities::DOCUMENT_CRDT`].
pub const FULL_CRDT: u16 = 0x0004;

impl LiteCapabilities {
    /// Exchanges primitive CRDTs.
    pub const PRIMITIVE_CRDT: u16 = 0x0002;

    /// Exchanges whole documents.
    pub const DOCUMENT_CRDT: u16 = 0x0004;

    /// Has sensors.
    pub const SENSOR_INPUT: u16 = 0x0010;

    /// The capability flags.
    pub closed spec fn flags(self) -> u16 {
        self.bits
    }

    /// No capability.
    pub fn empty() -> (r: Self)
        ensures
            r.flags() == 0,
    {
        LiteCapabilities { bits: 0 }
    }

    /// The capabilities with these flags.
    pub fn from_bits(bits: u16) -> (r: Self)
        ensures
            r.flags() == bits,
    {
        LiteCapabilities { bits }
    }

    /// The capability flags.
    pub fn bits(&self) -> (r: u16)
        ensures
            r == self.flags(),
    {
        self.bits
    }

    /// Whether all of `flags` are set.
    pub fn has(&self, flags: u16) -> (r: bool)
        ensures
            r == (self.flags() & flags == flags),
    {
        self.bits & flags == flags
    }
}

impl Default for LiteCapabilities {
    fn default() -> (r: Self)
        ensures
            r.flags() == 0,
    {
        LiteCapabilities::empty()
    }
}

/// The capability flags that an announcement carries: its first two bytes, and
/// none where it is shorter.
pub open spec fn announced_flags(d: Seq<u8>) -> u16 {
    if d.len() >= 2 {
        bytes::le_value(d.subrange(0, 2)) as u16
    } else {
        0
    }
}

/// Reading capabilities from bytes.
pub trait LiteCapabilitiesExt {
    fn from_bytes(bytes: &[u8]) -> LiteCapabilities;
}

impl LiteCapabilitiesExt for LiteCapabilities {
    fn from_bytes(bytes: &[u8]) -> (r: LiteCapabilities)
        ensures
            r.flags() == announced_flags(bytes@),
    {
        if bytes.len() >= 2 {
            proof {
                bytes::lemma_pow256_values();
                bytes::lemma_le_value_bound(bytes@.subrange(0, 2));
            }
            LiteCapabilities::from_bits(read_le(bytes, 0, 2) as u16)
        } else {
            LiteCapabilities::empty()
        }
    }
}

/// Query request message for requesting specific CRDT state.
#[derive(Debug, Clone)]
pub struct QueryRequest {
    /// CRDT type being queried
    pub crdt_type: CrdtType,
    /// Collection name
    pub collection: String,
    /// Optional document ID (None = all documents in the collection)
    pub doc_id: Option<String>,
}

/// A [`QueryRequest`] in terms of sequences.
#[verifier::ext_equal]
pub struct QueryRequestView {
    pub crdt_type: CrdtType,
    pub collection: Seq<char>,
    pub doc_id: Option<Seq<char>>,
}

impl View for QueryRequest {
    type V = QueryRequestView;

    open spec fn view(&self) -> QueryRequestView {
        QueryRequestView {
            crdt_type: self.crdt_type,
            collection: self.collection@,
            doc_id: match self.doc_id {
                Some(s) => Some(s@),
                None => None,
            },
        }
    }
}

impl QueryRequestView {
    /// The bytes of the document name; none where there is no name.
    pub open spec fn doc_bytes(self) -> Seq<u8> {
        match self.doc_id {
            Some(s) => encode_utf8(s),
            None => Seq::empty(),
        }
    }

    /// The wire format: `[type:1][collection_len:1][collection][doc_id_len:1][doc_id]`;
    /// the lengths wrap at 256.
    pub open spec fn wire(self) -> Seq<u8> {
        let c = encode_utf8(self.collection);
        let d = self.doc_bytes();
        seq![self.crdt_type.code(), (c.len() % 256) as u8] + c + seq![(d.len() % 256) as u8] + d
    }
}

/// The query request that `d` starts with.
pub open spec fn parse_query(d: Seq<u8>) -> Option<QueryRequestView> {
    let c = d[1] as int;
    let collection = d.subrange(2, 2 + c);
    let n = d[2 + c] as int;
    let doc_id = d.subrange(3 + c, 3 + c + n);
    if d.len() < 3 || crdt_type_of(d[0]) is None || d.len() < 3 + c || !valid_utf8(collection) || d.len() < 3 + c + n
        || (n > 0 && !valid_utf8(doc_id)) {
        None
    } else {
        Some(
            QueryRequestView {
                crdt_type: crdt_type_of(d[0])->Some_0,
                collection: decode_utf8(collection),
                doc_id: if n > 0 {
                    Some(decode_utf8(doc_id))
                } else {
                    None
                },
            },
        )
    }
}

/// An optional query request by its view.
pub open spec fn query_view(q: Option<QueryRequest>) -> Option<QueryRequestView> {
    match q {
        Some(q) => Some(q@),
        None => None,
    }
}

impl QueryRequest {
    /// Encode a query request to wire bytes
    pub fn encode(&self) -> (r: Vec<u8>)
        ensures
            r@ == self@.wire(),
    {
        let collection = self.collection.as_str().as_bytes();
        let mut buf: Vec<u8> = Vec::new();
        buf.push(self.crdt_type.to_u8());
        buf.push((collection.len() % 256) as u8);
        push_bytes(&mut buf, collection);
        match &self.doc_id {
            Some(id) => {
                let id = id.as_str().as_bytes();
                buf.push((id.len() % 256) as u8);
                push_bytes(&mut buf, id);
            },
            None => {
                buf.push(0);
            },
        }
        assert(buf@ =~= self@.wire());
        buf
    }

    /// Decode a query request from wire bytes
    pub fn decode(data: &[u8]) -> (r: Option<Self>)
        ensures
            query_view(r) == parse_query(data@),
    {
        let len: usize = data.len();
        if len < 3 {
            return None;
        }
        let crdt_type = match CrdtType::from_u8(data[0]) {
            Some(t) => t,
            None => return None,
        };
        let collection_len: usize = data[1] as usize;
        if len < 3 + collection_len {
            return None;
        }
        let collection = match string_from_utf8(copy_range(data, 2, 2 + collection_len)) {
            Ok(s) => s,
            Err(_) => return None,
        };
        let at: usize = 2 + collection_len;
        let doc_id_len: usize = data[at] as usize;
        if len < at + 1 + doc_id_len {
            return None;
        }
        let doc_id = if doc_id_len > 0 {
            match string_from_utf8(copy_range(data, at + 1, at + 1 + doc_id_len)) {
                Ok(s) => Some(s),
                Err(_) => return None,
            }
        } else {
            None
        };
        Some(QueryRequest { crdt_type, collection, doc_id })
    }
}

/// Decoding what was encoded gives the request back, whatever follows it. The
/// names must fit their length bytes, and an empty document name stands for none.
pub proof fn law_query_decode_of_encode(q: QueryRequestView, rest: Seq<u8>)
    requires
        encode_utf8(q.collection).len() < 256,
        q.doc_id is Some ==> 0 < encode_utf8(q.doc_id->Some_0).len() < 256,
    ensures
        parse_query(q.wire() + rest) == Some(q),
{
    let d = q.wire() + rest;
    let c = encode_utf8(q.collection);
    let i = q.doc_bytes();
    assert(d.subrange(2, 2 + c.len() as int) =~= c);
    assert(d.subrange(3 + c.len() as int, 3 + c.len() as int + i.len() as int) =~= i);
    encode_utf8_valid_utf8(q.collection);
    encode_utf8_decode_utf8(q.collection);
    if let Some(s) = q.doc_id {
        encode_utf8_valid_utf8(s);
        encode_utf8_decode_utf8(s);
    }
    assert(parse_query(d) is Some);
    assert(parse_query(d)->Some_0 =~= q);
}

/// Parsed message.
#[derive(Debug, Clone)]
pub struct LiteMessage {
    pub msg_type: MessageType,
    pub flags: u16,
    pub node_id: u32,
    pub seq_num: u32,
    pub payload: Vec<u8>,
}

/// A [`LiteMessage`] in terms of sequences.
#[verifier::ext_equal]
pub struct MessageView {
    pub msg_type: MessageType,
    pub flags: u16,
    pub node_id: u32,
    pub seq_num: u32,
    pub payload: Seq<u8>,
}

impl View for LiteMessage {
    type V = MessageView;

    open spec fn view(&self) -> MessageView {
        MessageView {
            msg_type: self.msg_type,
            flags: self.flags,
            node_id: self.node_id,
            seq_num: self.seq_num,
            payload: self.payload@,
        }
    }
}

impl MessageView {
    /// The header of the message.
    pub open spec fn header(self) -> Seq<u8> {
        magic() + seq![PROTOCOL_VERSION, self.msg_type.code()] + bytes::le_bytes(self.flags as nat, 2)
            + bytes::le_bytes(self.node_id as nat, 4) + bytes::le_bytes(self.seq_num as nat, 4)
    }

    /// The wire format.
    pub open spec fn wire(self) -> Seq<u8> {
        self.header() + self.payload
    }
}

/// The message that `d` is.
pub open spec fn parse_message(d: Seq<u8>) -> Option<MessageView> {
    if d.len() < 16 || d.subrange(0, 4) != magic() || d[4] != PROTOCOL_VERSION || message_type_of(d[5]) is None {
        None
    } else {
        Some(
            MessageView {
                msg_type: message_type_of(d[5])->Some_0,
                flags: bytes::le_value(d.subrange(6, 8)) as u16,
                node_id: bytes::le_value(d.subrange(8, 12)) as u32,
                seq_num: bytes::le_value(d.subrange(12, 16)) as u32,
                payload: d.subrange(16, d.len() as int),
            },
        )
    }
}

/// An optional message by its view.
pub open spec fn message_view(m: Option<LiteMessage>) -> Option<MessageView> {
    match m {
        Some(m) => Some(m@),
        None => None,
    }
}

/// Reads an integer of two bytes.
pub(crate) fn read_u16(data: &[u8], pos: usize) -> (x: u16)
    requires
        pos + 2 <= data@.len(),
    ensures
        x as nat == bytes::le_value(data@.subrange(pos as int, pos + 2)),
{
    proof {
        bytes::lemma_pow256_values();
        bytes::lemma_le_value_bound(data@.subrange(pos as int, pos + 2));
    }
    read_le(data, pos, 2) as u16
}

/// Reads an integer of four bytes.
pub(crate) fn read_u32(data: &[u8], pos: usize) -> (x: u32)
    requires
        pos + 4 <= data@.len(),
    ensures
        x as nat == bytes::le_value(data@.subrange(pos as int, pos + 4)),
{
    proof {
        bytes::lemma_pow256_values();
        bytes::lemma_le_value_bound(data@.subrange(pos as int, pos + 4));
    }
    read_le(data, pos, 4) as u32
}

/// The payload of an offer of firmware; it carries a signature where there is
/// one, and 16 reserved bytes.
pub open spec fn offer_payload(
    version: Seq<u8>,
    firmware_size: u32,
    total_chunks: u16,
    chunk_size: u16,
    sha256: Seq<u8>,
    session_id: u16,
    flags: u16,
    signature: Option<Seq<u8>>,
) -> Seq<u8> {
    version + bytes::le_bytes(firmware_size as nat, 4) + bytes::le_bytes(total_chunks as nat, 2) + bytes::le_bytes(
        chunk_size as nat,
        2,
    ) + sha256 + bytes::le_bytes(session_id as nat, 2) + bytes::le_bytes(flags as nat, 2) + (match signature {
        Some(s) => s,
        None => Seq::empty(),
    }) + Seq::new(16, |i: int| 0u8)
}

impl LiteMessage {
    /// Decode a message from bytes
    pub fn decode(buf: &[u8]) -> (r: Option<Self>)
        ensures
            message_view(r) == parse_message(buf@),
    {
        let len: usize = buf.len();
        if len < 16 {
            return None;
        }
        let start = copy_range(buf, 0, 4);
        let expected: [u8; 4] = [0x50, 0x45, 0x41, 0x54];
        assert(expected@ =~= magic());
        if !bytes_eq(start.as_slice(), expected.as_slice()) {
            return None;
        }
        if buf[4] != PROTOCOL_VERSION {
            return None;
        }
        let msg_type = match MessageType::from_u8(buf[5]) {
            Some(t) => t,
            None => return None,
        };
        let flags: u16 = read_u16(buf, 6);
        let node_id: u32 = read_u32(buf, 8);
        let seq_num: u32 = read_u32(buf, 12);
        let payload = copy_range(buf, 16, len);
        Some(LiteMessage { msg_type, flags, node_id, seq_num, payload })
    }

    /// Encode a message to bytes
    pub fn encode(&self) -> (r: Vec<u8>)
        ensures
            r@ == self@.wire(),
    {
        let mut buf: Vec<u8> = Vec::new();
        buf.push(0x50);
        buf.push(0x45);
        buf.push(0x41);
        buf.push(0x54);
        buf.push(PROTOCOL_VERSION);
        buf.push(self.msg_type.to_u8());
        assert(buf@ =~= magic() + seq![PROTOCOL_VERSION, self.msg_type.code()]);
        push_le(&mut buf, self.flags as u64, 2);
        push_le(&mut buf, self.node_id as u64, 4);
        push_le(&mut buf, self.seq_num as u64, 4);
        push_bytes(&mut buf, self.payload.as_slice());
        buf
    }

    /// Create an ACK message
    pub fn ack(node_id: u32, ack_seq: u32) -> (r: Self)
        ensures
            r@ == (MessageView {
                msg_type: MessageType::Ack,
                flags: 0,
                node_id,
                seq_num: 0,
                payload: bytes::le_bytes(ack_seq as nat, 4),
            }),
    {
        let mut payload: Vec<u8> = Vec::new();
        push_le(&mut payload, ack_seq as u64, 4);
        assert(payload@ =~= bytes::le_bytes(ack_seq as nat, 4));
        LiteMessage { msg_type: MessageType::Ack, flags: 0, node_id, seq_num: 0, payload }
    }

    /// Create a QUERY message
    pub fn query(node_id: u32, seq_num: u32, request: &QueryRequest) -> (r: Self)
        ensures
            r@ == (MessageView {
                msg_type: MessageType::Query,
                flags: 0,
                node_id,
                seq_num,
                payload: request@.wire(),
            }),
    {
        LiteMessage { msg_type: MessageType::Query, flags: 0, node_id, seq_num, payload: request.encode() }
    }

    /// Create a DATA message with CRDT payload
    pub fn data(node_id: u32, seq_num: u32, crdt_type: CrdtType, crdt_data: &[u8]) -> (r: Self)
        ensures
            r@ == (MessageView {
                msg_type: MessageType::Data,
                flags: 0,
                node_id,
                seq_num,
                payload: seq![crdt_type.code()] + crdt_data@,
            }),
    {
        let mut payload: Vec<u8> = Vec::new();
        payload.push(crdt_type.to_u8());
        push_bytes(&mut payload, crdt_data);
        assert(payload@ =~= seq![crdt_type.code()] + crdt_data@);
        LiteMessage { msg_type: MessageType::Data, flags: 0, node_id, seq_num, payload }
    }

    /// Create an OTA offer message
    ///
    /// ```text
    /// version(16) size(4) total_chunks(2) chunk_size(2) sha256(32) session_id(2)
    /// flags(2) [signature(64)] reserved(16)
    /// ```
    pub fn ota_offer(
        node_id: u32,
        version: &[u8; 16],
        firmware_size: u32,
        total_chunks: u16,
        chunk_size: u16,
        sha256: &[u8; 32],
        session_id: u16,
        flags: u16,
        signature: Option<&[u8; 64]>,
    ) -> (r: Self)
        ensures
            r@ == (MessageView {
                msg_type: MessageType::OtaOffer,
                flags: 0,
                node_id,
                seq_num: 0,
                payload: offer_payload(
                    version@,
                    firmware_size,
                    total_chunks,
                    chunk_size,
                    sha256@,
                    session_id,
                    flags,
                    (match signature {
                        Some(s) => Some(s@),
                        None => None,
                    }),
                ),
            }),
            r@.payload.len() == if signature is Some { 140int } else { 76int },
    {
        proof {
            bytes::lemma_le_bytes_len(firmware_size as nat, 4);
            bytes::lemma_le_bytes_len(total_chunks as nat, 2);
            bytes::lemma_le_bytes_len(chunk_size as nat, 2);
            bytes::lemma_le_bytes_len(session_id as nat, 2);
            bytes::lemma_le_bytes_len(flags as nat, 2);
        }
        let mut payload: Vec<u8> = Vec::new();
        push_bytes(&mut payload, version.as_slice());
        assert(payload@ =~= version@);
        push_le(&mut payload, firmware_size as u64, 4);
        push_le(&mut payload, total_chunks as u64, 2);
        push_le(&mut payload, chunk_size as u64, 2);
        push_bytes(&mut payload, sha256.as_slice());
        push_le(&mut payload, session_id as u64, 2);
        push_le(&mut payload, flags as u64, 2);
        let ghost so_far = payload@;
        if let Some(sig) = signature {
            push_bytes(&mut payload, sig.as_slice());
        }
        assert(payload@ =~= so_far + (match signature {
            Some(s) => s@,
            None => Seq::empty(),
        }));
        let reserved: [u8; 16] = [0u8; 16];
        assert(reserved@ =~= Seq::new(16, |i: int| 0u8));
        push_bytes(&mut payload, reserved.as_slice());
        LiteMessage { msg_type: MessageType::OtaOffer, flags: 0, node_id, seq_num: 0, payload }
    }

    /// Create an OTA data chunk message
    ///
    /// Payload: session_id(2), chunk_num(2), chunk_len(2), data; the length wraps
    /// at 65536.
    pub fn ota_data(node_id: u32, session_id: u16, chunk_num: u16, data: &[u8]) -> (r: Self)
        ensures
            r@ == (MessageView {
                msg_type: MessageType::OtaData,
                flags: 0,
                node_id,
                seq_num: 0,
                payload: bytes::le_bytes(session_id as nat, 2) + bytes::le_bytes(chunk_num as nat, 2)
                    + bytes::le_bytes((data@.len() % 65536) as nat, 2) + data@,
            }),
    {
        let mut payload: Vec<u8> = Vec::new();
        push_le(&mut payload, session_id as u64, 2);
        assert(payload@ =~= bytes::le_bytes(session_id as nat, 2));
        push_le(&mut payload, chunk_num as u64, 2);
        push_le(&mut payload, (data.len() % 65536) as u64, 2);
        push_bytes(&mut payload, data);
        LiteMessage { msg_type: MessageType::OtaData, flags: 0, node_id, seq_num: 0, payload }
    }

    /// Create an OTA complete message
    pub fn ota_complete(node_id: u32, session_id: u16) -> (r: Self)
        ensures
            r@ == (MessageView {
                msg_type: MessageType::OtaComplete,
                flags: 0,
                node_id,
                seq_num: 0,
                payload: bytes::le_bytes(session_id as nat, 2),
            }),
    {
        let mut payload: Vec<u8> = Vec::new();
        push_le(&mut payload, session_id as u64, 2);
        assert(payload@ =~= bytes::le_bytes(session_id as nat, 2));
        LiteMessage { msg_type: MessageType::OtaComplete, flags: 0, node_id, seq_num: 0, payload }
    }

    /// Create an OTA abort message; its last byte is reserved.
    pub fn ota_abort(node_id: u32, session_id: u16, reason: u8) -> (r: Self)
        ensures
            r@ == (MessageView {
                msg_type: MessageType::OtaAbort,
                flags: 0,
                node_id,
                seq_num: 0,
                payload: bytes::le_bytes(session_id as nat, 2) + seq![reason, 0u8],
            }),
    {
        let mut payload: Vec<u8> = Vec::new();
        push_le(&mut payload, session_id as u64, 2);
        payload.push(reason);
        payload.push(0);
        assert(payload@ =~= bytes::le_bytes(session_id as nat, 2) + seq![reason, 0u8]);
        LiteMessage { msg_type: MessageType::OtaAbort, flags: 0, node_id, seq_num: 0, payload }
    }
}

/// Decoding what was encoded gives the message back.
pub proof fn law_message_decode_of_encode(m: MessageView)
    ensures
        parse_message(m.wire()) == Some(m),
{
    let d = m.wire();
    bytes::lemma_le_bytes_len(m.flags as nat, 2);
    bytes::lemma_le_bytes_len(m.node_id as nat, 4);
    bytes::lemma_le_bytes_len(m.seq_num as nat, 4);
    bytes::lemma_pow256_values();
    bytes::lemma_le_value_of_bytes(m.flags as nat, 2);
    bytes::lemma_le_value_of_bytes(m.node_id as nat, 4);
    bytes::lemma_le_value_of_bytes(m.seq_num as nat, 4);
    assert(m.header().len() == 16);
    assert(d.subrange(0, 4) =~= magic());
    assert(d.subrange(6, 8) =~= bytes::le_bytes(m.flags as nat, 2));
    assert(d.subrange(8, 12) =~= bytes::le_bytes(m.node_id as nat, 4));
    assert(d.subrange(12, 16) =~= bytes::le_bytes(m.seq_num as nat, 4));
    assert(d.subrange(16, d.len() as int) =~= m.payload);
    assert(parse_message(d)->Some_0 =~= m);
}

/// Encoding what was decoded gives the bytes back.
pub proof fn law_message_encode_of_decode(d: Seq<u8>)
    requires
        parse_message(d) is Some,
    ensures
        parse_message(d)->Some_0.wire() == d,
{
    let m = parse_message(d)->Some_0;
    let f = d.subrange(6, 8);
    let n = d.subrange(8, 12);
    let s = d.subrange(12, 16);
    bytes::lemma_pow256_values();
    bytes::lemma_le_value_bound(f);
    bytes::lemma_le_value_bound(n);
    bytes::lemma_le_value_bound(s);
    bytes::lemma_le_bytes_of_value(f);
    bytes::lemma_le_bytes_of_value(n);
    bytes::lemma_le_bytes_of_value(s);
    assert(m.wire() =~= d.subrange(0, 4) + d.subrange(4, 6) + f + n + s + d.subrange(16, d.len() as int));
    assert(m.wire() =~= d);
}

} // verus!
