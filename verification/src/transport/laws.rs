//! What the transport for lightweight nodes and its bridge to documents promise together.

use vstd::prelude::*;
use vstd::string::*;
use vstd::utf8::*;

use crate::bytes;
use crate::json;
use crate::json::{JsonView, Number};
use crate::text;
use crate::transport::bridge;
use crate::transport::bridge::{ElementView, LiteDocumentBridge};
use crate::transport::lite;
use crate::transport::lite::{
    ConnectionState, DisconnectReason, EventView, InboundView, LiteSyncMode, PeerView, TransportView,
};
use crate::transport::wire;
use crate::transport::wire::{CrdtType, MessageType, MessageView, QueryRequestView};

verus! {

/// What a message asks for goes by its type and by nothing else in its header. A message of
/// a firmware transfer that comes from a peer (an accept, an acknowledgement, a result, an
/// abort) is handed on whole, under the name of the peer; what only this side sends asks
/// for nothing.
pub proof fn law_firmware_messages_are_handed_on(
    msg: MessageView,
    inbound: Seq<Seq<char>>,
    other: MessageView,
    elsewhere: Seq<Seq<char>>,
)
    ensures
        msg.msg_type == MessageType::OtaAccept || msg.msg_type == MessageType::OtaAck || msg.msg_type
            == MessageType::OtaResult || msg.msg_type == MessageType::OtaAbort <==> lite::asked(msg, inbound) is Ota,
        lite::asked(msg, inbound) is Ota ==> {
            &&& lite::asked(msg, inbound)->Ota_peer_id == lite::peer_name(msg.node_id)
            &&& lite::asked(msg, inbound)->Ota_msg_type == msg.msg_type
            &&& lite::asked(msg, inbound)->Ota_payload == msg.payload
        },
        msg.msg_type == MessageType::Announce || msg.msg_type == MessageType::Heartbeat || msg.msg_type
            == MessageType::Leave || msg.msg_type == MessageType::Ack || msg.msg_type == MessageType::OtaOffer
            || msg.msg_type == MessageType::OtaData || msg.msg_type == MessageType::OtaComplete ==> lite::asked(
            msg,
            inbound,
        ) is Nothing,
        other.msg_type == msg.msg_type && other.node_id == msg.node_id && other.payload == msg.payload ==> lite::asked(
            other,
            inbound,
        ) == lite::asked(msg, inbound),
        msg.msg_type != MessageType::Data ==> lite::asked(msg, inbound) == lite::asked(msg, elsewhere),
{
}

/// Data is handed on, with its kind and the sender's name for the document, exactly if it
/// says its kind and its collection is accepted.
pub proof fn law_data_is_handed_on(
    node_id: u32,
    seq_num: u32,
    kind: CrdtType,
    data: Seq<u8>,
    inbound: Seq<Seq<char>>,
)
    ensures
        ({
            let msg = MessageView {
                msg_type: MessageType::Data,
                flags: 0,
                node_id,
                seq_num,
                payload: seq![kind.code()] + data,
            };
            let asked = lite::asked(msg, inbound);
            &&& inbound.len() == 0 || inbound.contains("lite_sensors"@) ==> asked == (InboundView::Crdt {
                collection: "lite_sensors"@,
                doc_id: lite::peer_name(node_id),
                crdt_type: kind,
                data,
            })
            &&& inbound.len() > 0 && !inbound.contains("lite_sensors"@) ==> asked is Nothing
            &&& lite::asked(MessageView { payload: Seq::empty(), ..msg }, inbound) is Nothing
        }),
{
    let payload = seq![kind.code()] + data;
    assert(payload.subrange(1, payload.len() as int) =~= data);
    wire::law_type_bytes_roundtrip(MessageType::Data, kind, kind.code());
}

/// A query that was sent is the query that is asked for.
pub proof fn law_query_arrives(node_id: u32, seq_num: u32, q: QueryRequestView, inbound: Seq<Seq<char>>)
    requires
        encode_utf8(q.collection).len() < 256,
        q.doc_id is Some ==> 0 < encode_utf8(q.doc_id->Some_0).len() < 256,
    ensures
        lite::asked(
            MessageView { msg_type: MessageType::Query, flags: 0, node_id, seq_num, payload: q.wire() },
            inbound,
        ) == (InboundView::Query { request: q }),
{
    wire::law_query_decode_of_encode(q, Seq::empty());
    assert(q.wire() + Seq::<u8>::empty() =~= q.wire());
}

/// A peer is known by what its messages said: since when by the first, how many came by
/// counting them, where it is and how far it got by the last, and what it can do by its last
/// announcement. Messages of other nodes change none of it, and a peer that left is not
/// known.
pub proof fn law_peer_by_its_messages(t: TransportView, msg: MessageView, src: Seq<char>, now: u64)
    requires
        msg.node_id != t.local_node_id,
        t.peer(lite::peer_name(msg.node_id)) matches Some(p) ==> p.message_count < u64::MAX,
    ensures
        ({
            let name = lite::peer_name(msg.node_id);
            let before = t.peer(name);
            let after = t.after(msg, src, now).peer(name);
            let events = t.events(msg, src, now);
            &&& msg.msg_type == MessageType::Leave <==> after is None
            &&& after matches Some(p) ==> {
                &&& p.address == src
                &&& p.last_seen == now
                &&& p.last_seq == msg.seq_num
                &&& before is None ==> p.connected_at == now && p.message_count == 1 && p.node_id_raw == msg.node_id
                &&& before matches Some(q) ==> p.connected_at == q.connected_at && p.message_count == q.message_count
                    + 1 && p.node_id_raw == q.node_id_raw
                &&& msg.msg_type == MessageType::Announce && msg.payload.len() >= 2 ==> p.capabilities
                    == bytes::le_value(msg.payload.take(2)) as u16
                &&& msg.msg_type != MessageType::Announce || msg.payload.len() == 0 ==> p.capabilities == match before {
                    Some(q) => q.capabilities,
                    None => 0,
                }
            }
            // A peer that was not known connects, and one that leaves disconnects.
            &&& before is None <==> events.contains(EventView::Connected { peer_id: name, connected_at: now })
            &&& events.len() == (if before is None {
                1int
            } else {
                0
            }) + (if msg.msg_type == MessageType::Leave {
                1int
            } else {
                0
            })
            &&& msg.msg_type == MessageType::Leave ==> events.last() == (EventView::Disconnected {
                peer_id: name,
                reason: DisconnectReason::RemoteClosed,
                connection_duration: match before {
                    Some(q) => if q.connected_at <= now {
                        (now - q.connected_at) as u64
                    } else {
                        0
                    },
                    None => 0,
                },
            })
            &&& t.after(msg, src, now).seq_num == t.seq_num
            &&& t.after(msg, src, now).running == t.running
            &&& t.after(msg, src, now).local_node_id == t.local_node_id
        }),
{
    let name = lite::peer_name(msg.node_id);
    let events = t.events(msg, src, now);
    if t.peer(name) is None {
        assert(events[0] == (EventView::Connected { peer_id: name, connected_at: now }));
    }
    if msg.payload.len() >= 2 {
        assert(msg.payload.subrange(0, 2) =~= msg.payload.take(2));
    }
}

/// A peer is let go exactly if more than the timeout has gone by since its last message,
/// and a connection is healthy for ten seconds, degraded up to thirty, and dead from then
/// on.
pub proof fn law_silence(t: TransportView, name: Seq<char>, secs: u64, now: u64)
    requires
        t.peers.contains_key(name),
        t.peers[name].last_seen <= now,
    ensures
        ({
            let silent = now - t.peers[name].last_seen;
            let state = lite::health_state(t.peers[name].last_seen, now);
            let after = t.without_stale(secs, now);
            &&& after.peers.contains_key(name) <==> silent <= secs * 1_000_000_000
            &&& after.peers.contains_key(name) ==> after.peers[name] == t.peers[name]
            &&& after.seq_num == t.seq_num && after.running == t.running && after.local_node_id == t.local_node_id
            &&& state == ConnectionState::Healthy <==> silent < 10_000_000_000
            &&& state == ConnectionState::Dead <==> silent >= 30_000_000_000
            &&& state == ConnectionState::Degraded <==> 10_000_000_000 <= silent < 30_000_000_000
        }),
{
}

/// A peer that is let go is named once, with the time that it was connected.
pub proof fn law_timeouts_are_told(
    t: TransportView,
    name: Seq<char>,
    secs: u64,
    now: u64,
    events: Seq<EventView>,
    i: int,
)
    requires
        lite::stale_events(t, secs, now, events),
        0 <= i < events.len(),
    ensures
        events[i] matches EventView::Disconnected { peer_id, reason, connection_duration } && {
            &&& reason == DisconnectReason::Timeout
            &&& t.peers.contains_key(peer_id)
            &&& !t.without_stale(secs, now).peers.contains_key(peer_id)
            &&& t.peers[peer_id].connected_at <= now ==> connection_duration == now - t.peers[peer_id].connected_at
        },
        t.peers.contains_key(name) && !t.without_stale(secs, now).peers.contains_key(name) ==> exists|j: int|
            0 <= j < events.len() && (#[trigger] events[j]) is Disconnected && events[j]->Disconnected_peer_id == name,
{
    assert(t.is_timeout(secs, now, events[i]));
    if t.peers.contains_key(name) && !t.without_stale(secs, now).peers.contains_key(name) {
        assert(t.stale(name, secs, now));
        let j = choose|j: int| 0 <= j < events.len() && #[trigger] t.timed_out(name, secs, now, events[j]);
        assert(events[j] is Disconnected && events[j]->Disconnected_peer_id == name);
    }
}

/// A document is sent only where its collection is listed and sending is not switched off;
/// if it is sent at some age it is sent at any lesser age, and the limit is the last age at
/// which it is. Without a limit the age does not matter.
pub proof fn law_what_is_sent(b: LiteDocumentBridge, collection: Seq<char>, age: u64, younger: u64)
    requires
        younger <= age,
    ensures
        b.sends(collection, age) ==> b.sends(collection, younger),
        b.sends(collection, age) ==> b.outbound().contains(collection) && b.config.outbound_sync_mode
            != LiteSyncMode::ReceiveOnly,
        b.outbound().contains(collection) && b.config.outbound_sync_mode != LiteSyncMode::ReceiveOnly ==> {
            &&& b.sends(collection, 0)
            &&& b.sends(collection, b.config.max_document_age_secs)
            &&& b.config.max_document_age_secs == 0 ==> b.sends(collection, age)
            &&& 0 < b.config.max_document_age_secs < age ==> !b.sends(collection, age)
        },
{
}

/// A message that brings a document to lightweight nodes says its kind in its first byte, is
/// numbered after the one before, and is handed on by a node that accepts it as data of that
/// kind.
proof fn lemma_document_message(t: TransportView, kind: CrdtType, data: Seq<u8>, inbound: Seq<Seq<char>>)
    requires
        t.seq_num < u32::MAX,
        inbound.len() == 0 || inbound.contains("lite_sensors"@),
    ensures
        brings(bridge::document_message(t, (kind, data)), t, kind, data, inbound),
{
    let m = bridge::document_message(t, (kind, data));
    assert(m.payload.skip(1) =~= data);
    assert(m.payload.subrange(1, m.payload.len() as int) =~= data);
    wire::law_type_bytes_roundtrip(MessageType::Data, kind, kind.code());
}

/// Whether a message brings data of a kind: it is a data message of this node with the next
/// number, its first byte says the kind and the rest is the data, and another node that
/// accepts the collection hands it on as that.
pub open spec fn brings(
    m: MessageView,
    t: TransportView,
    kind: CrdtType,
    data: Seq<u8>,
    inbound: Seq<Seq<char>>,
) -> bool {
    &&& m.msg_type == MessageType::Data
    &&& m.flags == 0
    &&& m.node_id == t.local_node_id
    &&& m.seq_num == t.seq_num + 1
    &&& m.payload.len() > 0
    &&& m.payload[0] == kind.code()
    &&& m.payload.skip(1) == data
    &&& lite::asked(m, inbound) matches InboundView::Crdt { crdt_type, data: handed, .. } && crdt_type == kind && handed
        == data
}

proof fn lemma_field_names()
    ensures
        "node_entries"@.len() == 12,
        "elements"@.len() == 8,
        "node_counts"@.len() == 11,
        "type"@.len() == 4,
        "source_node"@.len() == 11,
        "source_node"@[0] == 's',
        "node_counts"@[0] == 'n',
        "total"@.len() == 5,
        "count"@.len() == 5,
        "total"@[0] == 't',
        "count"@[0] == 'c',
        "updated_at"@.len() == 10,
        "net_value"@.len() == 9,
        "net_value"@[0] == 'n',
        "timestamp"@.len() == 9,
        "timestamp"@[0] == 't',
        "value_hex"@.len() == 9,
        "value_hex"@[6] == 'h',
        "value_i32"@.len() == 9,
        "value_i32"@[6] == 'i',
        "value_i32"@[7] == '3',
        "value_i64"@.len() == 9,
        "value_i64"@[6] == 'i',
        "value_i64"@[7] == '6',
        "timestamp"@[6] == 'a',
{
    reveal_strlit("node_entries");
    reveal_strlit("elements");
    reveal_strlit("node_counts");
    reveal_strlit("type");
    reveal_strlit("source_node");
    reveal_strlit("total");
    reveal_strlit("count");
    reveal_strlit("updated_at");
    reveal_strlit("net_value");
    reveal_strlit("timestamp");
    reveal_strlit("value_hex");
    reveal_strlit("value_i32");
    reveal_strlit("value_i64");
}

/// A positive-negative counter that goes out as a document arrives as a positive-negative
/// counter, with the last entry of each node, whatever text of the document is at hand.
pub proof fn law_pncounter_arrives(
    t: TransportView,
    node_id: Seq<char>,
    entries: Seq<(u32, u64, u64)>,
    net_value: i64,
    now_ms: u64,
    lww: Option<(Seq<u8>, u64)>,
    inbound: Seq<Seq<char>>,
    id: u32,
    inc: u64,
    dec: u64,
)
    requires
        t.seq_num < u32::MAX,
        inbound.len() == 0 || inbound.contains("lite_sensors"@),
        bridge::pn_object(entries).len() < 65536,
    ensures
        ({
            let fields = bridge::pncounter_fields(node_id, entries, net_value, now_ms);
            let payload = bridge::document_payload(fields, lww, t.local_node_id);
            let m = bridge::document_message(t, payload->Ok_0);
            let d = m.payload.skip(1);
            &&& payload is Ok
            &&& brings(m, t, CrdtType::PnCounter, d, inbound)
            &&& bridge::is_pncounter(d)
            &&& bridge::pncounter_entries(d, bridge::entry_count(d)).contains((id, inc, dec)) <==> bridge::last_entry(
                entries,
                id,
            ) == Some((inc, dec))
        }),
{
    lemma_field_names();
    let fields = bridge::pncounter_fields(node_id, entries, net_value, now_ms);
    bridge::law_pncounter_document(node_id, entries, net_value, now_ms, id, inc, dec);
    lemma_document_message(t, CrdtType::PnCounter, bridge::pncounter_of_doc(fields)->Some_0, inbound);
}

/// A grow-only counter that goes out as a document arrives as a grow-only counter, with the
/// last count of each node.
pub proof fn law_gcounter_arrives(
    t: TransportView,
    node_id: Seq<char>,
    counts: Seq<(u32, u64)>,
    total: u64,
    now_ms: u64,
    lww: Option<(Seq<u8>, u64)>,
    inbound: Seq<Seq<char>>,
    id: u32,
    n: u64,
)
    requires
        t.seq_num < u32::MAX,
        inbound.len() == 0 || inbound.contains("lite_sensors"@),
        bridge::counts_object(counts).len() < 65536,
    ensures
        ({
            let fields = bridge::gcounter_fields(node_id, counts, total, now_ms);
            let payload = bridge::document_payload(fields, lww, t.local_node_id);
            let m = bridge::document_message(t, payload->Ok_0);
            let d = m.payload.skip(1);
            &&& payload is Ok
            &&& brings(m, t, CrdtType::GCounter, d, inbound)
            &&& bridge::is_gcounter(d)
            &&& bridge::gcounter_entries(d, bridge::entry_count(d)).contains((id, n)) <==> bridge::last_count(
                counts,
                id,
            ) == Some(n)
        }),
{
    lemma_field_names();
    let fields = bridge::gcounter_fields(node_id, counts, total, now_ms);
    bridge::law_gcounter_document(node_id, counts, total, now_ms, id, n);
    lemma_document_message(t, CrdtType::GCounter, bridge::gcounter_of_doc(fields)->Some_0, inbound);
}

/// A set that goes out as a document arrives as the same set.
pub proof fn law_orset_arrives(
    t: TransportView,
    node_id: Seq<char>,
    elements: Seq<ElementView>,
    now_ms: u64,
    lww: Option<(Seq<u8>, u64)>,
    inbound: Seq<Seq<char>>,
)
    requires
        t.seq_num < u32::MAX,
        inbound.len() == 0 || inbound.contains("lite_sensors"@),
        elements.len() < 65536,
        forall|i: int| 0 <= i < elements.len() ==> (#[trigger] elements[i]).value.len() < 65536,
    ensures
        ({
            let fields = bridge::orset_fields(node_id, elements, now_ms);
            let payload = bridge::document_payload(fields, lww, t.local_node_id);
            let m = bridge::document_message(t, payload->Ok_0);
            let d = m.payload.skip(1);
            &&& payload is Ok
            &&& brings(m, t, CrdtType::OrSet, d, inbound)
            &&& bridge::parse_orset(d) == Some((0u32, elements))
        }),
{
    lemma_field_names();
    let fields = bridge::orset_fields(node_id, elements, now_ms);
    bridge::law_orset_document(node_id, elements, now_ms);
    lemma_document_message(t, CrdtType::OrSet, bridge::orset_of_doc(fields)->Some_0, inbound);
}

/// Any other document goes out as a register and arrives as one, with its text, the time and
/// this node as the writer; without a text it does not go out.
pub proof fn law_register_arrives(
    t: TransportView,
    fields: Map<Seq<char>, JsonView>,
    json_text: Seq<u8>,
    timestamp: u64,
    inbound: Seq<Seq<char>>,
)
    requires
        t.seq_num < u32::MAX,
        inbound.len() == 0 || inbound.contains("lite_sensors"@),
        !fields.contains_key("node_entries"@),
        !fields.contains_key("elements"@),
        !fields.contains_key("node_counts"@),
    ensures
        ({
            let payload = bridge::document_payload(fields, Some((json_text, timestamp)), t.local_node_id);
            let m = bridge::document_message(t, payload->Ok_0);
            let d = m.payload.skip(1);
            &&& payload is Ok
            &&& brings(m, t, CrdtType::LwwRegister, d, inbound)
            &&& d.len() == 12 + json_text.len()
            &&& bridge::u64_at(d, 0) == timestamp
            &&& bridge::u32_at(d, 8) == t.local_node_id
            &&& d.skip(12) == json_text
        }),
        bridge::document_payload(fields, None, t.local_node_id) is Err,
{
    let d = bridge::lww_bytes(json_text, timestamp, t.local_node_id);
    bridge::law_lww_wire(json_text, timestamp, t.local_node_id);
    lemma_document_message(t, CrdtType::LwwRegister, d, inbound);
    assert(d.skip(12) =~= d.subrange(12, 12 + json_text.len() as int));
}

/// The fields of a document decide what it goes out as: entries of nodes make it a
/// positive-negative counter, else elements a set, else counts a grow-only counter. Where
/// the field that decides is not of the right form, nothing goes out in its place.
pub proof fn law_fields_decide(fields: Map<Seq<char>, JsonView>, lww: Option<(Seq<u8>, u64)>, local: u32)
    ensures
        ({
            let p = bridge::document_payload(fields, lww, local);
            &&& fields.contains_key("node_entries"@) ==> (p is Ok <==> fields["node_entries"@] is Object)
            &&& fields.contains_key("node_entries"@) && p is Ok ==> p->Ok_0.0 == CrdtType::PnCounter
            &&& !fields.contains_key("node_entries"@) && fields.contains_key("elements"@) && p is Ok ==> p->Ok_0.0
                == CrdtType::OrSet
            &&& !fields.contains_key("node_entries"@) && fields.contains_key("elements"@)
                && !(fields["elements"@] is Array) ==> p is Err
            &&& !fields.contains_key("node_entries"@) && !fields.contains_key("elements"@) && fields.contains_key(
                "node_counts"@,
            ) ==> (p is Ok <==> fields["node_counts"@] is Object)
            &&& !fields.contains_key("node_entries"@) && !fields.contains_key("elements"@) && fields.contains_key(
                "node_counts"@,
            ) && p is Ok ==> p->Ok_0.0 == CrdtType::GCounter
        }),
{
}

/// The net value of a counter is what its parts come to, one after the other, and an entry
/// adds its increments and takes its decrements away; a grow-only counter only adds.
pub proof fn law_counter_values(
    a: Seq<(u32, u64, u64)>,
    b: Seq<(u32, u64, u64)>,
    c: Seq<(u32, u64)>,
    d: Seq<(u32, u64)>,
    id: u32,
    x: u64,
    y: u64,
)
    ensures
        bridge::net_total(a + b) == bridge::net_total(a) + bridge::net_total(b),
        x <= i64::MAX && y <= i64::MAX ==> bridge::net_total(seq![(id, x, y)]) == x - y,
        bridge::counts_total(c + d) == bridge::counts_total(c) + bridge::counts_total(d),
        bridge::counts_total(seq![(id, x)]) == x,
    decreases b.len() + d.len(),
{
    reveal_with_fuel(bridge::net_total, 2);
    reveal_with_fuel(bridge::counts_total, 2);
    assert(seq![(id, x, y)].drop_last() =~= Seq::empty());
    assert(seq![(id, x)].drop_last() =~= Seq::empty());
    if b.len() == 0 {
        assert(a + b =~= a);
    } else {
        assert((a + b).drop_last() =~= a + b.drop_last());
        law_counter_values(a, b.drop_last(), c, d, id, x, y);
    }
    if d.len() == 0 {
        assert(c + d =~= c);
    } else {
        assert((c + d).drop_last() =~= c + d.drop_last());
        law_counter_values(a, b, c, d.drop_last(), id, x, y);
    }
}

/// An integer that is read as signed is the one in range that differs by a multiple of the
/// range.
pub proof fn law_signed_reading(x: u64, y: u32)
    ensures
        i64::MIN <= bridge::as_signed(x) <= i64::MAX,
        bridge::as_signed(x) == x || bridge::as_signed(x) == x - 0x1_0000_0000_0000_0000,
        i32::MIN <= bridge::as_signed32(y) <= i32::MAX,
        bridge::as_signed32(y) == y || bridge::as_signed32(y) == y - 0x1_0000_0000,
{
}

/// The documents of counters say what they are: the kind, who sent it, the value and when.
pub proof fn law_counter_documents(
    node_id: Seq<char>,
    entries: Seq<(u32, u64, u64)>,
    net_value: i64,
    counts: Seq<(u32, u64)>,
    total: u64,
    now_ms: u64,
)
    ensures
        ({
            let f = bridge::pncounter_fields(node_id, entries, net_value, now_ms);
            &&& f["type"@] == JsonView::Text("pncounter"@)
            &&& f["source_node"@] == JsonView::Text(node_id)
            &&& net_value >= 0 ==> f["net_value"@] == JsonView::Number(Number::Unsigned(net_value as u64))
            &&& net_value < 0 ==> f["net_value"@] == JsonView::Number(Number::Negative(net_value))
            &&& f["updated_at"@] == JsonView::Number(Number::Unsigned(now_ms))
        }),
        ({
            let f = bridge::gcounter_fields(node_id, counts, total, now_ms);
            &&& f["type"@] == JsonView::Text("gcounter"@)
            &&& f["source_node"@] == JsonView::Text(node_id)
            &&& f["total"@] == JsonView::Number(Number::Unsigned(total))
            &&& f["updated_at"@] == JsonView::Number(Number::Unsigned(now_ms))
        }),
{
    lemma_field_names();
}

/// The document of a register tells its value in hexadecimal digits that read back as the
/// value, and where it has four or eight bytes also as the signed integer that they are.
pub proof fn law_register_document(node_id: Seq<char>, timestamp: u64, value: Seq<u8>, now_ms: u64)
    ensures
        ({
            let f = bridge::lww_fields(node_id, timestamp, value, now_ms);
            &&& f["type"@] == JsonView::Text("lww_register"@)
            &&& f["source_node"@] == JsonView::Text(node_id)
            &&& f["timestamp"@] == JsonView::Number(Number::Unsigned(timestamp))
            &&& f["updated_at"@] == JsonView::Number(Number::Unsigned(now_ms))
            &&& f["value_hex"@] is Text
            &&& text::hex_bytes(encode_utf8(f["value_hex"@]->Text_0)) == value
            &&& f.contains_key("value_i32"@) <==> value.len() == 4
            &&& f.contains_key("value_i64"@) <==> value.len() == 8
            &&& value.len() == 4 ==> told_integer(f["value_i32"@], bytes::le_value(value), 0x1_0000_0000)
            &&& value.len() == 8 ==> told_integer(f["value_i64"@], bytes::le_value(value), 0x1_0000_0000_0000_0000)
        }),
{
    lemma_field_names();
    text::law_hex_roundtrip(value);
    bytes::lemma_pow256_values();
    bytes::lemma_le_value_bound(value);
}

/// Whether a JSON value is the signed integer that stands for `n` where integers wrap at
/// `range`.
pub open spec fn told_integer(j: JsonView, n: nat, range: int) -> bool {
    match j {
        JsonView::Number(Number::Unsigned(u)) => u == n && 2 * n < range,
        JsonView::Number(Number::Negative(i)) => i == n - range && 2 * n >= range,
        _ => false,
    }
}

/// The document of a set lists its elements in order: who added each, with which number, and
/// its value in hexadecimal digits that read back as the value.
pub proof fn law_set_document(node_id: Seq<char>, elements: Seq<ElementView>, now_ms: u64, i: int)
    requires
        0 <= i < elements.len() <= u64::MAX,
    ensures
        ({
            let f = bridge::orset_fields(node_id, elements, now_ms);
            let o = f["elements"@]->Array_0[i]->Object_0;
            &&& f["type"@] == JsonView::Text("orset"@)
            &&& f["source_node"@] == JsonView::Text(node_id)
            &&& f["count"@] == JsonView::Number(Number::Unsigned(elements.len() as u64))
            &&& f["updated_at"@] == JsonView::Number(Number::Unsigned(now_ms))
            &&& f["elements"@] is Array
            &&& f["elements"@]->Array_0.len() == elements.len()
            &&& f["elements"@]->Array_0[i] is Object
            &&& json::unsigned_under(o, "tag_seq"@) == Some(elements[i].tag_seq as u64)
            &&& json::text_under(o, "tag_node"@) == Some(text::hex8(elements[i].tag_node_id))
            &&& json::text_under(o, "value"@) is Some
            &&& text::hex_bytes(encode_utf8(json::text_under(o, "value"@)->Some_0)) == elements[i].value
        }),
{
    lemma_field_names();
    let e = elements[i];
    let o = bridge::element_object(e)->Object_0;
    reveal_strlit("tag_node");
    reveal_strlit("tag_seq");
    reveal_strlit("value");
    assert("tag_node"@.len() == 8 && "tag_seq"@.len() == 7 && "value"@.len() == 5);
    let o1 = o.skip(1);
    let o2 = o1.skip(1);
    assert(o1[0] == o[1]);
    assert(o2[0] == o[2]);
    assert(json::lookup(o, "tag_node"@) == Some(o[0].1));
    assert(json::lookup(o1, "tag_seq"@) == Some(o[1].1));
    assert(json::lookup(o, "tag_seq"@) == Some(o[1].1));
    assert(json::lookup(o2, "value"@) == Some(o[2].1));
    assert(json::lookup(o1, "value"@) == Some(o[2].1));
    assert(json::lookup(o, "value"@) == Some(o[2].1));
    text::law_hex_roundtrip(e.value);
}

/// The sum of a counter fits exactly if every entry and every sum on the way does; it is
/// that of the entries before the last and the last, and nothing at all sums to zero.
pub proof fn law_net_sum(entries: Seq<(u32, u64, u64)>, node: u32, inc: u64, dec: u64)
    ensures
        bridge::net_total(Seq::empty()) == 0,
        bridge::net_fits(Seq::empty()),
        bridge::net_total(entries.push((node, inc, dec))) == bridge::net_total(entries) + bridge::as_signed(inc)
            - bridge::as_signed(dec),
        bridge::net_fits(entries.push((node, inc, dec))) <==> bridge::net_fits(entries) && -0x8000_0000_0000_0000
            <= bridge::as_signed(inc) - bridge::as_signed(dec) <= 0x7fff_ffff_ffff_ffff && -0x8000_0000_0000_0000
            <= bridge::net_total(entries.push((node, inc, dec))) <= 0x7fff_ffff_ffff_ffff,
{
    assert(entries.push((node, inc, dec)).drop_last() =~= entries);
}

/// A packet that carries a message is dealt with as that message, from the address that it
/// came from and at the time that it came; one that carries none, like none at all, changes
/// nothing.
pub proof fn law_packets(t: TransportView, m: MessageView, address: Seq<char>, now: u64, noise: Seq<u8>)
    ensures
        lite::received(Some((m.wire(), address))) == Some((m, address)),
        t.after_packet(Some((m.wire(), address)), now) == t.after(m, address, now),
        lite::received(None) is None,
        t.after_packet(None, now) == t,
        noise.len() < 16 ==> lite::received(Some((noise, address))) is None,
        lite::received(Some((noise, address))) is None ==> t.after_packet(Some((noise, address)), now) == t,
{
    wire::law_message_decode_of_encode(m);
}

/// What could not be encoded is named by its kind.
pub proof fn law_unencodable(fields: Map<Seq<char>, JsonView>, lww: Option<(Seq<u8>, u64)>, node_id: u32)
    ensures
        bridge::document_payload(fields, lww, node_id) matches Err(e) ==> e == "Failed to encode "@ + (
        if fields.contains_key("node_entries"@) {
            "PnCounter"@
        } else if fields.contains_key("elements"@) {
            "OrSet"@
        } else if fields.contains_key("node_counts"@) {
            "GCounter"@
        } else {
            "LWW"@
        }),
{
    reveal_strlit("Failed to encode ");
    reveal_strlit("PnCounter");
    reveal_strlit("OrSet");
    reveal_strlit("GCounter");
    reveal_strlit("LWW");
    reveal_strlit("Failed to encode PnCounter");
    reveal_strlit("Failed to encode OrSet");
    reveal_strlit("Failed to encode GCounter");
    reveal_strlit("Failed to encode LWW");
    assert("Failed to encode PnCounter"@ =~= "Failed to encode "@ + "PnCounter"@);
    assert("Failed to encode OrSet"@ =~= "Failed to encode "@ + "OrSet"@);
    assert("Failed to encode GCounter"@ =~= "Failed to encode "@ + "GCounter"@);
    assert("Failed to encode LWW"@ =~= "Failed to encode "@ + "LWW"@);
}

/// An announcement tells its capabilities by its first two bytes, whatever follows; one that
/// is too short for them tells none.
pub proof fn law_announced_flags(flags: u16, rest: Seq<u8>, short: Seq<u8>)
    ensures
        wire::announced_flags(bytes::le_bytes(flags as nat, 2) + rest) == flags,
        short.len() < 2 ==> wire::announced_flags(short) == 0,
{
    bytes::lemma_le_bytes_len(flags as nat, 2);
    bytes::lemma_pow256_values();
    bytes::lemma_le_value_of_bytes(flags as nat, 2);
    assert((bytes::le_bytes(flags as nat, 2) + rest).subrange(0, 2) =~= bytes::le_bytes(flags as nat, 2));
}

} // verus!
