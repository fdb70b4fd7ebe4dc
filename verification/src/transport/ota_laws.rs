//! What the delivery of firmware promises as a whole.

use vstd::prelude::*;
use vstd::string::*;
use vstd::utf8::*;

use crate::bytes;
use crate::security::crypto;
use crate::text;
use crate::transport::lite;
use crate::transport::lite_ota;
use crate::transport::lite_ota::{SenderView, SessionView, StateView};
use crate::transport::wire;
use crate::transport::wire::{MessageType, MessageView};

verus! {

/// What a peer sends to accept an offer from a chunk on, or to acknowledge a chunk.
pub open spec fn naming(session_id: u16, chunk: u16) -> Seq<u8> {
    bytes::le_bytes(session_id as nat, 2) + bytes::le_bytes(chunk as nat, 2)
}

proof fn lemma_naming(session_id: u16, chunk: u16, rest: Seq<u8>)
    ensures
        naming(session_id, chunk).len() == 4,
        lite_ota::named_session(naming(session_id, chunk) + rest) == session_id,
        lite_ota::named_chunk(naming(session_id, chunk) + rest) == chunk,
        lite_ota::named_session(naming(session_id, chunk)) == session_id,
        lite_ota::named_chunk(naming(session_id, chunk)) == chunk,
{
    bytes::lemma_le_bytes_len(session_id as nat, 2);
    bytes::lemma_le_bytes_len(chunk as nat, 2);
    bytes::lemma_pow256_values();
    bytes::lemma_le_value_of_bytes(session_id as nat, 2);
    bytes::lemma_le_value_of_bytes(chunk as nat, 2);
    let p = naming(session_id, chunk);
    assert(p.subrange(0, 2) =~= bytes::le_bytes(session_id as nat, 2));
    assert(p.subrange(2, 4) =~= bytes::le_bytes(chunk as nat, 2));
    assert((p + rest).subrange(0, 2) =~= bytes::le_bytes(session_id as nat, 2));
    assert((p + rest).subrange(2, 4) =~= bytes::le_bytes(chunk as nat, 2));
}

/// The sender once a peer accepted its offer from the start on and then acknowledged the
/// first `n` chunks.
pub open spec fn sender_at(sender: SenderView, peer: Seq<char>, n: nat, now: u64) -> SenderView
    decreases n,
{
    let id = sender.sessions[peer].session_id;
    if n == 0 {
        sender.after_accept(peer, naming(id, 0), now)
    } else {
        sender_at(sender, peer, (n - 1) as nat, now).after_ack(peer, naming(id, (n - 1) as u16), now)
    }
}

/// What that peer was sent last.
pub open spec fn reply_at(sender: SenderView, peer: Seq<char>, n: nat, now: u64) -> Option<MessageView> {
    let id = sender.sessions[peer].session_id;
    if n == 0 {
        sender.accept_reply(peer, naming(id, 0))
    } else {
        sender_at(sender, peer, (n - 1) as nat, now).ack_reply(peer, naming(id, (n - 1) as u16))
    }
}

/// The bytes of firmware that a message carries: what follows the session, the number of
/// the chunk and its length.
pub open spec fn carried(m: Option<MessageView>) -> Seq<u8> {
    match m {
        Some(m) => m.payload.skip(6),
        None => Seq::empty(),
    }
}

/// What that peer has of the firmware after the first `n` messages.
pub open spec fn assembled(sender: SenderView, peer: Seq<char>, n: nat, now: u64) -> Seq<u8>
    decreases n,
{
    if n == 0 {
        Seq::empty()
    } else {
        assembled(sender, peer, (n - 1) as nat, now) + carried(reply_at(sender, peer, (n - 1) as nat, now))
    }
}

proof fn lemma_sender_at(sender: SenderView, peer: Seq<char>, n: nat, now: u64)
    requires
        sender.sessions.contains_key(peer),
    ensures
        sender_at(sender, peer, n, now).sessions.contains_key(peer),
        sender_at(sender, peer, n, now).sessions[peer].session_id == sender.sessions[peer].session_id,
        sender_at(sender, peer, n, now).sessions[peer].firmware == sender.sessions[peer].firmware,
        sender_at(sender, peer, n, now).node_id == sender.node_id,
    decreases n,
{
    let id = sender.sessions[peer].session_id;
    if n == 0 {
        lemma_naming(id, 0, Seq::empty());
    } else {
        lemma_sender_at(sender, peer, (n - 1) as nat, now);
        lemma_naming(id, (n - 1) as u16, Seq::empty());
    }
}

/// What a chunk message holds, read back from its bytes.
proof fn lemma_chunk_message(s: SessionView, node_id: u32, chunk: u16, data: Seq<u8>)
    requires
        s.firmware.data == data,
        s.firmware.chunk_size == 448,
        448 * chunk < data.len(),
    ensures
        ({
            let end = if 448 * chunk + 448 < data.len() {
                448 * chunk + 448
            } else {
                data.len() as int
            };
            let m = s.chunk_message(node_id, chunk);
            &&& m is Some
            &&& m->Some_0.msg_type == MessageType::OtaData
            &&& m->Some_0.node_id == node_id
            &&& lite_ota::named_session(m->Some_0.payload) == s.session_id
            &&& lite_ota::named_chunk(m->Some_0.payload) == chunk
            &&& bytes::le_value(m->Some_0.payload.subrange(4, 6)) == end - 448 * chunk
            &&& carried(m) == data.subrange(448 * chunk as int, end)
        }),
{
    let end = if 448 * chunk + 448 < data.len() {
        448 * chunk + 448
    } else {
        data.len() as int
    };
    assert(s.firmware.chunk_start(chunk) == 448 * chunk);
    assert(s.firmware.chunk_end(chunk) == end);
    let c = data.subrange(448 * chunk as int, end);
    let m = s.chunk_message(node_id, chunk)->Some_0;
    let len = (c.len() % 65536) as nat;
    bytes::lemma_le_bytes_len(len, 2);
    bytes::lemma_pow256_values();
    bytes::lemma_le_value_of_bytes(len, 2);
    lemma_naming(s.session_id, chunk, bytes::le_bytes(len, 2) + c);
    assert(m.payload =~= naming(s.session_id, chunk) + (bytes::le_bytes(len, 2) + c));
    assert(m.payload.subrange(4, 6) =~= bytes::le_bytes(len, 2));
    assert(m.payload.skip(6) =~= c);
}

/// A peer that accepts an offer and acknowledges chunk after chunk gets the firmware: each
/// message carries the next 448 bytes, or what is left, with the number of the chunk and
/// its length, and all of them together are the firmware. Once nothing is left it is told
/// that the firmware is complete.
pub proof fn law_firmware_is_delivered(
    sender: SenderView,
    peer: Seq<char>,
    data: Seq<u8>,
    version: Seq<char>,
    n: nat,
    now: u64,
)
    requires
        data.len() <= 448 * 65535,
        sender.sessions.contains_key(peer),
        sender.sessions[peer].firmware == lite_ota::image_of(data, version).prepared(sender.secret),
        n > 0 ==> 448 * (n - 1) < data.len(),
    ensures
        448 * n < data.len() ==> {
            let m = reply_at(sender, peer, n, now);
            &&& m is Some
            &&& m->Some_0.msg_type == MessageType::OtaData
            &&& m->Some_0.node_id == sender.node_id
            &&& lite_ota::named_session(m->Some_0.payload) == sender.sessions[peer].session_id
            &&& lite_ota::named_chunk(m->Some_0.payload) == n
            &&& bytes::le_value(m->Some_0.payload.subrange(4, 6)) == carried(m).len()
            &&& assembled(sender, peer, n, now) == data.take(448 * n as int)
        },
        n > 0 && 448 * n >= data.len() ==> {
            let m = reply_at(sender, peer, n, now);
            &&& m is Some
            &&& m->Some_0.msg_type == MessageType::OtaComplete
            &&& m->Some_0.node_id == sender.node_id
            &&& m->Some_0.payload == bytes::le_bytes(sender.sessions[peer].session_id as nat, 2)
            &&& assembled(sender, peer, n, now) == data
            &&& sender_at(sender, peer, n, now).sessions[peer].state is WaitingResult
            &&& sender_at(sender, peer, n, now).sessions[peer].progress() == 100
        },
    decreases n,
{
    let s = sender.sessions[peer];
    let id = s.session_id;
    lite_ota::law_chunks_make_firmware(data, version);
    assert(s.firmware.data == data && s.firmware.chunk_size == 448);
    if n == 0 {
        lemma_naming(id, 0, Seq::empty());
        assert(assembled(sender, peer, 0, now) =~= data.take(0));
        if data.len() > 0 {
            lemma_chunk_message(s, sender.node_id, 0, data);
        }
    } else {
        let k = (n - 1) as nat;
        law_firmware_is_delivered(sender, peer, data, version, k, now);
        lemma_sender_at(sender, peer, k, now);
        lemma_naming(id, k as u16, Seq::empty());
        let before = sender_at(sender, peer, k, now).sessions[peer];
        // What the message before carried.
        if k == 0 {
            lemma_chunk_message(s, sender.node_id, 0, data);
        } else {
            let kk = (k - 1) as nat;
            lemma_sender_at(sender, peer, kk, now);
            lemma_naming(id, kk as u16, Seq::empty());
            let earlier = sender_at(sender, peer, kk, now).sessions[peer];
            lemma_chunk_message(earlier, sender.node_id, k as u16, data);
        }
        let end = if 448 * n < data.len() {
            448 * n as int
        } else {
            data.len() as int
        };
        assert(carried(reply_at(sender, peer, k, now)) == data.subrange(448 * k as int, end));
        assert(data.take(448 * k as int) + data.subrange(448 * k as int, end) =~= data.take(end));
        assert(data.take(data.len() as int) =~= data);
        if 448 * n < data.len() {
            lemma_chunk_message(before, sender.node_id, n as u16, data);
        } else {
            let after = sender_at(sender, peer, n, now).sessions[peer];
            assert(after.chunks_acked == n);
            lite_ota::law_progress(after);
        }
    }
}

/// What was sent and not answered is sent again: for half a second nothing is, and then
/// the very message that the peer was sent last, be it a chunk in answer to its accept or
/// the next chunk or the end in answer to its acknowledgement. Sending it again changes
/// nothing of what is awaited.
pub proof fn law_lost_message_is_sent_again(
    sender: SenderView,
    peer: Seq<char>,
    payload: Seq<u8>,
    sent_at: u64,
    now: u64,
    later: u64,
)
    requires
        sender.sessions.contains_key(peer),
        payload.len() >= 4,
        lite_ota::named_session(payload) == sender.sessions[peer].session_id,
        lite_ota::named_chunk(payload) < 65535,
        sent_at <= now <= later <= sender.sessions[peer].started_at + 300_000_000_000,
    ensures
        ({
            let accepted = sender.after_accept(peer, payload, sent_at);
            let acked = sender.after_ack(peer, payload, sent_at);
            &&& now <= sent_at + 500_000_000 ==> accepted.ticked(now).sessions[peer] == accepted.sessions[peer]
                && acked.ticked(now).sessions[peer] == acked.sessions[peer] && accepted.tick_message(peer, now) is None
                && acked.tick_message(peer, now) is None
            &&& now > sent_at + 500_000_000 ==> {
                &&& accepted.tick_message(peer, now) == sender.accept_reply(peer, payload)
                &&& acked.tick_message(peer, now) == sender.ack_reply(peer, payload)
                &&& later > now + 500_000_000 ==> accepted.ticked(now).tick_message(peer, later) == sender.accept_reply(
                    peer,
                    payload,
                )
                &&& later > now + 500_000_000 ==> acked.ticked(now).tick_message(peer, later) == sender.ack_reply(
                    peer,
                    payload,
                )
            }
        }),
{
}

/// A message of a transfer that comes from a lightweight node is handed on as it is, with
/// the name of the node: an accept opens the transfer at the chunk that the node asks for,
/// and its answer carries the firmware from there on.
pub proof fn law_accept_starts_transfer(
    sender: SenderView,
    msg: MessageView,
    inbound: Seq<Seq<char>>,
    data: Seq<u8>,
    version: Seq<char>,
    now: u64,
)
    requires
        msg.msg_type == MessageType::OtaAccept,
        msg.payload.len() >= 4,
        sender.sessions.contains_key(lite::peer_name(msg.node_id)),
        sender.sessions[lite::peer_name(msg.node_id)].session_id == lite_ota::named_session(msg.payload),
        sender.sessions[lite::peer_name(msg.node_id)].firmware == lite_ota::image_of(data, version).prepared(
            sender.secret,
        ),
        448 * lite_ota::named_chunk(msg.payload) < data.len(),
    ensures
        lite::asked(msg, inbound) is Ota,
        ({
            let asked = lite::asked(msg, inbound);
            let peer = asked->Ota_peer_id;
            let chunk = lite_ota::named_chunk(asked->Ota_payload);
            let session = sender.after_accept(peer, asked->Ota_payload, now).sessions[peer];
            let reply = sender.accept_reply(peer, asked->Ota_payload);
            &&& asked->Ota_msg_type == MessageType::OtaAccept
            &&& peer == lite::peer_name(msg.node_id)
            &&& asked->Ota_payload == msg.payload
            &&& session.state is Transferring
            &&& session.state->current_chunk == chunk
            &&& session.chunks_acked == chunk
            &&& reply is Some
            &&& reply->Some_0.msg_type == MessageType::OtaData
            &&& lite_ota::named_session(reply->Some_0.payload) == session.session_id
            &&& lite_ota::named_chunk(reply->Some_0.payload) == chunk
            &&& carried(reply) == data.subrange(
                448 * chunk as int,
                if 448 * chunk + 448 < data.len() {
                    448 * chunk + 448
                } else {
                    data.len() as int
                },
            )
        }),
{
    let peer = lite::peer_name(msg.node_id);
    lemma_chunk_message(sender.sessions[peer], sender.node_id, lite_ota::named_chunk(msg.payload), data);
}

/// The sessions with one peer keep what they were opened with, whatever that peer sends:
/// the firmware, the ID and when they began.
pub proof fn law_session_keeps_its_firmware(sender: SenderView, peer: Seq<char>, payload: Seq<u8>, now: u64)
    requires
        sender.sessions.contains_key(peer),
    ensures
        ({
            let s = sender.sessions[peer];
            let same = |t: SenderView|
                {
                    &&& t.node_id == sender.node_id
                    &&& t.secret == sender.secret
                    &&& t.sessions.dom() == sender.sessions.dom()
                    &&& t.sessions[peer].session_id == s.session_id
                    &&& t.sessions[peer].firmware == s.firmware
                    &&& t.sessions[peer].started_at == s.started_at
                };
            &&& same(sender.after_accept(peer, payload, now))
            &&& same(sender.after_ack(peer, payload, now))
            &&& same(sender.after_result(peer, payload))
            &&& same(sender.after_abort(peer, payload))
            &&& same(sender.ticked(now))
        }),
{
    assert(sender.after_accept(peer, payload, now).sessions.dom() =~= sender.sessions.dom());
    assert(sender.after_ack(peer, payload, now).sessions.dom() =~= sender.sessions.dom());
    assert(sender.after_result(peer, payload).sessions.dom() =~= sender.sessions.dom());
    assert(sender.after_abort(peer, payload).sessions.dom() =~= sender.sessions.dom());
    assert(sender.ticked(now).sessions.dom() =~= sender.sessions.dom());
}

/// A peer is told that a session is given up exactly when it is: the abort names the
/// session, and a look at the clock that does not give the session up sends no abort.
pub proof fn law_abort_tells_the_end(s: SessionView, node_id: u32, now: u64)
    ensures
        s.tick_message(node_id, now) is Some && s.tick_message(node_id, now)->Some_0.msg_type == MessageType::OtaAbort
            <==> s.ticked(now).state is Failed && (s.ticked(now).state != s.state || now > s.started_at
            + 300_000_000_000),
        s.tick_message(node_id, now) is Some ==> s.tick_message(node_id, now)->Some_0.payload.len() >= 2
            && lite_ota::named_session(s.tick_message(node_id, now)->Some_0.payload) == s.session_id
            || s.state is Offered,
        s.tick_message(node_id, now) is Some ==> s.tick_message(node_id, now)->Some_0.node_id == node_id,
        // Within its time a session ends by a look at the clock only after five repetitions.
        now <= s.started_at + 300_000_000_000 && s.ticked(now).state is Failed && !(s.state is Failed) ==> {
            let w = lite_ota::waiting(s.state);
            w is Some && w->Some_0.1 >= 5 && now > w->Some_0.0 + 500_000_000
        },
        // Over its time it always ends.
        now > s.started_at + 300_000_000_000 ==> s.ticked(now).state is Failed,
        // A session that ended within its time stays as it is and sends nothing.
        now <= s.started_at + 300_000_000_000 && (s.state is Failed || s.state is Complete) ==> s.ticked(now) == s
            && s.tick_message(node_id, now) is None,
{
    let id = s.session_id;
    bytes::lemma_le_bytes_len(id as nat, 2);
    bytes::lemma_pow256_values();
    bytes::lemma_le_value_of_bytes(id as nat, 2);
    let abort = lite_ota::abort_message(node_id, id);
    let complete = lite_ota::complete_message(node_id, id);
    assert(abort.payload.subrange(0, 2) =~= bytes::le_bytes(id as nat, 2));
    assert(complete.payload.subrange(0, 2) =~= bytes::le_bytes(id as nat, 2));
    if let StateView::Transferring { current_chunk, .. } = s.state {
        if let Some(c) = s.firmware.chunk(current_chunk) {
            let rest = bytes::le_bytes((c.len() % 65536) as nat, 2) + c;
            lemma_naming(id, current_chunk, rest);
            let m = s.chunk_message(node_id, current_chunk)->Some_0;
            assert(m.payload =~= naming(id, current_chunk) + rest);
        }
    }
}

/// What was sent is sent again five times before a session is given up: after looks at the
/// clock, each more than half a second after the one before, the session still waits on
/// the same thing, and the next look sends the same message again.
pub proof fn law_sent_again_five_times(s: SessionView, node_id: u32, times: Seq<u64>, first: u64, now: u64)
    requires
        lite_ota::waiting(s.state) is Some,
        lite_ota::waiting(s.state)->Some_0.1 == 0,
        times.len() <= 5,
        first > lite_ota::waiting(s.state)->Some_0.0 + 500_000_000,
        times.len() > 0 ==> times[0] == first,
        times.len() == 0 ==> now == first,
        times.len() > 0 ==> now > times.last() + 500_000_000,
        forall|i: int| 0 < i < times.len() ==> #[trigger] times[i] > times[i - 1] + 500_000_000,
        now <= s.started_at + 300_000_000_000,
    ensures
        ({
            let t = lite_ota::after_ticks(s, times);
            &&& lite_ota::waiting(t.state) is Some
            &&& lite_ota::waiting(t.state)->Some_0.1 == times.len()
            &&& t.firmware == s.firmware
            &&& t.session_id == s.session_id
            &&& times.len() < 5 ==> t.tick_message(node_id, now) == s.tick_message(node_id, first)
            &&& times.len() < 5 ==> !(t.ticked(now).state is Failed)
            &&& times.len() == 5 ==> t.ticked(now).state is Failed
        }),
    decreases times.len(),
{
    lemma_same_wait(s, times, now);
}

/// Whether two states wait on the same thing.
spec fn waits_on_same(a: StateView, b: StateView) -> bool {
    match (a, b) {
        (StateView::Offered { .. }, StateView::Offered { .. }) => true,
        (StateView::Transferring { current_chunk: x, .. }, StateView::Transferring { current_chunk: y, .. }) => x == y,
        (StateView::WaitingResult { .. }, StateView::WaitingResult { .. }) => true,
        _ => false,
    }
}

proof fn lemma_same_wait(s: SessionView, times: Seq<u64>, now: u64)
    requires
        lite_ota::waiting(s.state) is Some,
        lite_ota::waiting(s.state)->Some_0.1 == 0,
        times.len() <= 5,
        times.len() > 0 ==> times[0] > lite_ota::waiting(s.state)->Some_0.0 + 500_000_000,
        times.len() > 0 ==> now > times.last(),
        forall|i: int| 0 < i < times.len() ==> #[trigger] times[i] > times[i - 1] + 500_000_000,
        now <= s.started_at + 300_000_000_000,
    ensures
        waits_on_same(s.state, lite_ota::after_ticks(s, times).state),
        lite_ota::waiting(lite_ota::after_ticks(s, times).state) == Some(
            (
                if times.len() == 0 {
                    lite_ota::waiting(s.state)->Some_0.0
                } else {
                    times.last()
                },
                times.len() as u32,
            ),
        ),
        lite_ota::after_ticks(s, times) == s.in_state(lite_ota::after_ticks(s, times).state),
    decreases times.len(),
{
    if times.len() > 0 {
        let front = times.drop_last();
        assert forall|i: int| 0 < i < front.len() implies #[trigger] front[i] > front[i - 1] + 500_000_000 by {
            assert(times[i] > times[i - 1] + 500_000_000);
        }
        if times.len() > 1 {
            assert(times[times.len() - 1] > times[times.len() - 2] + 500_000_000);
        }
        lemma_same_wait(s, front, times.last());
    }
}

/// The first result that a peer reports for its session decides: all went well exactly if
/// the code is 0. Each code that says what went wrong has a reason of its own, and an
/// abort tells its code.
pub proof fn law_result_decides(sender: SenderView, peer: Seq<char>, a: Seq<u8>, b: Seq<u8>)
    requires
        sender.sessions.contains_key(peer),
        a.len() >= 3,
        b.len() >= 3,
        lite_ota::named_session(a) == sender.sessions[peer].session_id,
        lite_ota::named_session(b) == sender.sessions[peer].session_id,
    ensures
        ({
            let x = sender.after_result(peer, a).sessions[peer].state;
            let y = sender.after_result(peer, b).sessions[peer].state;
            &&& x is Complete <==> a[2] == 0
            &&& x is Failed <==> a[2] != 0
            &&& a[2] != b[2] && (a[2] <= 5 || b[2] <= 5) ==> x != y
            &&& a[2] > 5 && b[2] > 5 ==> x == y
            &&& a[2] == 1 ==> x == (StateView::Failed { reason: "hash mismatch"@ })
            &&& a[2] == 2 ==> x == (StateView::Failed { reason: "flash error"@ })
            &&& a[2] == 3 ==> x == (StateView::Failed { reason: "invalid offer"@ })
            &&& a[2] == 4 ==> x == (StateView::Failed { reason: "signature invalid"@ })
            &&& a[2] == 5 ==> x == (StateView::Failed { reason: "signature required"@ })
            &&& a[2] > 5 ==> x == (StateView::Failed { reason: "unknown"@ })
            &&& sender.after_result(peer, a).sessions[peer].chunks_acked == sender.sessions[peer].chunks_acked
        }),
        ({
            let x = sender.after_abort(peer, a).sessions[peer].state;
            &&& x is Failed
            &&& x->Failed_reason == "peer aborted: reason="@ + text::decimal(a[2] as nat)
            &&& sender.after_abort(peer, a).sessions[peer].chunks_acked == sender.sessions[peer].chunks_acked
        }),
{
    reveal_strlit("hash mismatch");
    reveal_strlit("flash error");
    reveal_strlit("invalid offer");
    reveal_strlit("signature invalid");
    reveal_strlit("signature required");
    reveal_strlit("unknown");
    assert("hash mismatch"@.len() == 13 && "flash error"@.len() == 11 && "invalid offer"@.len() == 13
        && "signature invalid"@.len() == 17 && "signature required"@.len() == 18 && "unknown"@.len() == 7);
    assert("hash mismatch"@[0] == 'h' && "invalid offer"@[0] == 'i');
}

proof fn lemma_offer_fields(
    v: Seq<u8>,
    size: u32,
    chunks: u16,
    chunk_size: u16,
    digest: Seq<u8>,
    id: u16,
    flags: u16,
    signature: Option<Seq<u8>>,
)
    requires
        v.len() == 16,
        digest.len() == 32,
        signature is Some ==> signature->Some_0.len() == 64,
    ensures
        ({
            let p = wire::offer_payload(v, size, chunks, chunk_size, digest, id, flags, signature);
            &&& p.len() == 76 + (if signature is Some {
                64int
            } else {
                0
            })
            &&& p.subrange(0, 16) == v
            &&& bytes::le_value(p.subrange(16, 20)) == size
            &&& bytes::le_value(p.subrange(20, 22)) == chunks
            &&& bytes::le_value(p.subrange(22, 24)) == chunk_size
            &&& p.subrange(24, 56) == digest
            &&& bytes::le_value(p.subrange(56, 58)) == id
            &&& bytes::le_value(p.subrange(58, 60)) == flags
            &&& signature is Some ==> p.subrange(60, 124) == signature->Some_0
        }),
{
    let p = wire::offer_payload(v, size, chunks, chunk_size, digest, id, flags, signature);
    bytes::lemma_pow256_values();
    bytes::lemma_le_bytes_len(size as nat, 4);
    bytes::lemma_le_bytes_len(chunks as nat, 2);
    bytes::lemma_le_bytes_len(chunk_size as nat, 2);
    bytes::lemma_le_bytes_len(id as nat, 2);
    bytes::lemma_le_bytes_len(flags as nat, 2);
    bytes::lemma_le_value_of_bytes(size as nat, 4);
    bytes::lemma_le_value_of_bytes(chunks as nat, 2);
    bytes::lemma_le_value_of_bytes(chunk_size as nat, 2);
    bytes::lemma_le_value_of_bytes(id as nat, 2);
    bytes::lemma_le_value_of_bytes(flags as nat, 2);
    assert(p.subrange(0, 16) =~= v);
    assert(p.subrange(16, 20) =~= bytes::le_bytes(size as nat, 4));
    assert(p.subrange(20, 22) =~= bytes::le_bytes(chunks as nat, 2));
    assert(p.subrange(22, 24) =~= bytes::le_bytes(chunk_size as nat, 2));
    assert(p.subrange(24, 56) =~= digest);
    assert(p.subrange(56, 58) =~= bytes::le_bytes(id as nat, 2));
    assert(p.subrange(58, 60) =~= bytes::le_bytes(flags as nat, 2));
    if signature is Some {
        assert(p.subrange(60, 124) =~= signature->Some_0);
    }
}

/// An offer tells a peer what it needs to take the firmware and to check it: the version,
/// the size, how many chunks of 448 bytes there are, the SHA-256 digest, the session, and
/// where the sender has a key its signature of the digest, which the flag announces. It is
/// the offer that goes out again while the peer does not accept it.
pub proof fn law_offer_tells_the_firmware(
    sender: SenderView,
    data: Seq<u8>,
    version: Seq<char>,
    peer: Seq<char>,
    sent_at: u64,
    now: u64,
)
    requires
        data.len() <= 448 * 65535,
        crypto::sha256_digest(data).len() == 32,
        sender.secret is Some ==> crypto::ed25519_signature(
            sender.secret->Some_0,
            crypto::sha256_digest(data),
        ).len() == 64,
        sent_at + 500_000_000 < now <= sent_at + 300_000_000_000,
    ensures
        ({
            let offer = sender.next_offer(lite_ota::image_of(data, version));
            let p = offer.message.payload;
            let v = encode_utf8(version);
            let chunks = bytes::le_value(p.subrange(20, 22));
            &&& offer.message.msg_type == MessageType::OtaOffer
            &&& offer.message.node_id == sender.node_id
            &&& forall|i: int| 0 <= i < 16 ==> #[trigger] p[i] == if i < 15 && i < v.len() {
                v[i]
            } else {
                0u8
            }
            &&& bytes::le_value(p.subrange(16, 20)) == data.len()
            &&& 448 * (chunks - 1) < data.len() <= 448 * chunks
            &&& bytes::le_value(p.subrange(22, 24)) == 448
            &&& p.subrange(24, 56) == crypto::sha256_digest(data)
            &&& bytes::le_value(p.subrange(56, 58)) == offer.session_id
            &&& bytes::le_value(p.subrange(58, 60)) % 2 == if sender.secret is Some {
                1int
            } else {
                0
            }
            &&& sender.secret is Some ==> p.subrange(60, 124) == crypto::ed25519_signature(
                sender.secret->Some_0,
                crypto::sha256_digest(data),
            )
            &&& sender.secret is None ==> p.len() == 76
            &&& offer.firmware.data == data
            &&& offer.session(peer, sent_at).tick_message(sender.node_id, now) == Some(offer.message)
        }),
{
    let image = lite_ota::image_of(data, version);
    let offer = sender.next_offer(image);
    let f = image.prepared(sender.secret);
    lite_ota::law_chunks_make_firmware(data, version);
    lemma_offer_fields(
        f.version,
        (f.data.len() % 0x1_0000_0000) as u32,
        f.total_chunks,
        f.chunk_size,
        f.sha256,
        offer.session_id,
        if sender.secret is Some {
            lite_ota::OTA_FLAG_SIGNED
        } else {
            0
        },
        f.signature,
    );
    let p = offer.message.payload;
    assert forall|i: int| 0 <= i < 16 implies #[trigger] p[i] == p.subrange(0, 16)[i] by {}
}

/// What is told of a session is what is so: different states read differently, a failure
/// tells its reason, the progress is the share of chunks in whole percent, and the time is
/// in whole seconds since the session began.
pub proof fn law_status_tells_the_session(s: SessionView, t: SessionView, info: lite_ota::OtaStatusInfo, now: u64)
    requires
        s.described_by(info, now),
        s.chunks_acked <= s.firmware.total_chunks,
        s.firmware.total_chunks > 0,
        s.started_at <= now,
    ensures
        info.session_id == s.session_id,
        info.chunks_sent == s.chunks_acked,
        info.total_chunks == s.firmware.total_chunks,
        info.progress_percent * info.total_chunks <= 100 * info.chunks_sent,
        100 * info.chunks_sent < (info.progress_percent + 1) * info.total_chunks,
        info.elapsed_secs * 1_000_000_000 <= now - s.started_at < (info.elapsed_secs + 1) * 1_000_000_000,
        s.state is Failed ==> info.state@ == "failed: "@ + s.state->Failed_reason,
        info.state@ == t.state.text() ==> {
            &&& s.state is Offered == t.state is Offered
            &&& s.state is Transferring == t.state is Transferring
            &&& s.state is WaitingResult == t.state is WaitingResult
            &&& s.state is Complete == t.state is Complete
            &&& s.state is Failed ==> s.state == t.state
        },
        s.state is Offered == (info.state@ == "offered"@),
        s.state is Complete == (info.state@ == "complete"@),
{
    let a = s.chunks_acked as int;
    let n = s.firmware.total_chunks as int;
    lite_ota::law_progress(s);
    assert((a * 100) / n * n <= 100 * a < ((a * 100) / n + 1) * n) by (nonlinear_arith)
        requires
            0 <= a,
            0 < n,
    ;
    assert(0 <= (a * 100) / n <= 100) by (nonlinear_arith)
        requires
            0 <= a <= n,
            0 < n,
    ;
    reveal_strlit("offered");
    reveal_strlit("transferring");
    reveal_strlit("waiting_result");
    reveal_strlit("complete");
    reveal_strlit("failed: ");
    assert("offered"@[0] == 'o' && "transferring"@[0] == 't' && "waiting_result"@[0] == 'w' && "complete"@[0] == 'c'
        && "failed: "@[0] == 'f');
    if s.state is Failed && t.state is Failed && info.state@ == t.state.text() {
        assert(s.state.text().skip(8) =~= s.state->Failed_reason);
        assert(t.state.text().skip(8) =~= t.state->Failed_reason);
    }
    assert(s.state.text()[0] == info.state@[0]);
}

/// Every message of a transfer comes from the sender's node and has no flags and no number;
/// its type says what it is. An abort says why: too many repetitions.
pub proof fn law_messages_of_a_transfer(sender: SenderView, peer: Seq<char>, payload: Seq<u8>, now: u64)
    ensures
        sender.accept_reply(peer, payload) matches Some(m) ==> m.msg_type == MessageType::OtaData && m.flags == 0
            && m.seq_num == 0 && m.node_id == sender.node_id,
        sender.ack_reply(peer, payload) matches Some(m) ==> (m.msg_type == MessageType::OtaData || m.msg_type
            == MessageType::OtaComplete) && m.flags == 0 && m.seq_num == 0 && m.node_id == sender.node_id,
        sender.tick_message(peer, now) matches Some(m) ==> {
            &&& m.flags == 0
            &&& m.seq_num == 0
            &&& m.node_id == sender.node_id
            &&& m.msg_type == MessageType::OtaOffer || m.msg_type == MessageType::OtaData || m.msg_type
                == MessageType::OtaComplete || m.msg_type == MessageType::OtaAbort
            &&& m.msg_type == MessageType::OtaAbort ==> m.payload.len() == 4 && m.payload[2] == 2 && m.payload[3] == 0
            &&& m.msg_type == MessageType::OtaComplete ==> m.payload.len() == 2
        },
{
    if sender.sessions.contains_key(peer) {
        bytes::lemma_le_bytes_len(sender.sessions[peer].session_id as nat, 2);
    }
}

/// After a look at the clock each peer is sent what is due to it, once, and nothing else is
/// sent.
pub proof fn law_each_due_message_is_sent(
    before: SenderView,
    now: u64,
    sent: Seq<(Seq<char>, MessageView)>,
    peer: Seq<char>,
    message: MessageView,
)
    requires
        lite_ota::tick_sent(before, now, sent),
    ensures
        sent.contains((peer, message)) <==> before.tick_message(peer, now) == Some(message),
        sent.no_duplicates(),
{
    if before.tick_message(peer, now) == Some(message) {
        assert(lite_ota::has_message(sent, peer));
        let i = choose|i: int| 0 <= i < sent.len() && (#[trigger] sent[i]).0 == peer;
        assert(before.tick_message(sent[i].0, now) == Some(sent[i].1));
        assert(sent[i] == (peer, message));
    }
    if sent.contains((peer, message)) {
        let i = choose|i: int| 0 <= i < sent.len() && sent[i] == (peer, message);
        assert(before.tick_message(sent[i].0, now) == Some(sent[i].1));
    }
    assert forall|i: int, j: int| 0 <= i < sent.len() && 0 <= j < sent.len() && i != j implies sent[i] != sent[j] by {
        if i < j {
            assert(sent[i].0 != sent[j].0);
        } else {
            assert(sent[j].0 != sent[i].0);
        }
    }
}

/// Firmware is cut into chunks of 448 bytes, the last one as short as it must be; their
/// number is told in 16 bits.
pub proof fn law_number_of_chunks(data: Seq<u8>, version: Seq<char>)
    ensures
        ({
            let n = lite_ota::chunks_for(data.len());
            &&& 448 * n >= data.len()
            &&& n > 0 ==> 448 * (n - 1) < data.len()
            &&& data.len() == 0 ==> n == 0
            &&& lite_ota::image_of(data, version).total_chunks == n % 0x1_0000
            &&& lite_ota::image_of(data, version).chunk_size == 448
        }),
{
}

} // verus!
