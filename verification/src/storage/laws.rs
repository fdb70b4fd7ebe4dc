//! What stored state and its transfer promise together.

use vstd::arithmetic::power2::*;
use vstd::prelude::*;
use vstd::string::*;
use vstd::utf8::*;

use crate::doubles;
use crate::json;
use crate::json::{JsonView, Number};
use crate::security::certificate;
use crate::security::certificate::CertificateView;
use crate::security::crypto;
use crate::security::enrollment::ResponseView;
use crate::security::error::SecurityErrorView;
use crate::storage::certificate_store;
use crate::storage::certificate_store::{EntryView, RevocationView};
use crate::storage::documents::ScalarView;
use crate::storage::enrollment_transport;
use crate::storage::entry_json;
use crate::storage::json_convert;
use crate::storage::mesh_sync_transport;
use crate::storage::mesh_sync_transport::{AcceptStep, HandlerView};
use crate::storage::streaming_transfer;
use crate::storage::streaming_transfer::{CheckpointView, ReadStep, StreamingTransferConfig, TransferView};
use crate::text;

verus! {

/// What an entry says beside its certificate is what the certificate says: the keys read
/// back from their digits, the tier from its name, and the rest as it is.
pub proof fn law_entry_agrees_with_certificate(c: CertificateView, now_ms: u64)
    ensures
        ({
            let e = certificate_store::entry_of(c, now_ms);
            &&& text::hex_bytes(encode_utf8(e.subject)) == c.subject_public_key
            &&& text::hex_bytes(encode_utf8(e.issuer)) == c.issuer_public_key
            &&& certificate::tier_named(text::ascii_lower(text::trim_text(e.tier))) == Some(c.tier)
            &&& e.node_id == c.node_id
            &&& e.permissions == c.permissions
            &&& e.expires_at_ms == c.expires_at_ms
            &&& e.written_at_ms == now_ms
        }),
{
    text::law_hex_roundtrip(c.subject_public_key);
    text::law_hex_roundtrip(c.issuer_public_key);
    certificate::law_tier_name_roundtrip(c.tier);
}

/// A revocation names the key in digits that read back as the key, with the reason and the
/// time that were given; revocations of different keys are kept apart.
pub proof fn law_revocation_says(a: Seq<u8>, b: Seq<u8>, reason: Seq<char>, now_ms: u64)
    ensures
        ({
            let r = certificate_store::revocation_of(a, reason, now_ms);
            &&& text::hex_bytes(encode_utf8(r.subject)) == a
            &&& r.reason == reason
            &&& r.timestamp_ms == now_ms
            &&& certificate_store::names_key(r.subject) <==> a.len() == 32
        }),
        certificate_store::revocation_key(text::hex_text(a)) == certificate_store::revocation_key(text::hex_text(b))
            <==> a == b,
        certificate_store::certificate_key(text::hex_text(a)) == certificate_store::certificate_key(text::hex_text(b))
            <==> a == b,
{
    text::law_hex_roundtrip(a);
    text::law_hex_roundtrip(b);
    let t = text::hex_text(a);
    assert forall|i: int| 0 <= i < t.len() implies (#[trigger] t[i]) as nat <= 127 by {}
    assert(is_ascii_chars(t));
    is_ascii_chars_encode_utf8(t);
    let rk = certificate_store::revocation_key(Seq::empty());
    let ck = certificate_store::certificate_key(Seq::empty());
    assert(certificate_store::revocation_key(text::hex_text(a)).skip(rk.len() as int) =~= text::hex_text(a));
    assert(certificate_store::revocation_key(text::hex_text(b)).skip(rk.len() as int) =~= text::hex_text(b));
    assert(certificate_store::certificate_key(text::hex_text(a)).skip(ck.len() as int) =~= text::hex_text(a));
    assert(certificate_store::certificate_key(text::hex_text(b)).skip(ck.len() as int) =~= text::hex_text(b));
}

/// A JSON object is a certificate entry or a revocation exactly if it has every field of one,
/// of the right kind, and then it says what the fields say.
pub proof fn law_entries_need_all_fields(f: Seq<(Seq<char>, JsonView)>)
    ensures
        ({
            let e = entry_json::entry_in(JsonView::Object(f));
            let r = entry_json::revocation_in(JsonView::Object(f));
            &&& e is Some <==> {
                &&& json::text_under(f, "cert_data"@) is Some
                &&& json::text_under(f, "node_id"@) is Some
                &&& json::text_under(f, "tier"@) is Some
                &&& json::text_under(f, "subject"@) is Some
                &&& json::text_under(f, "issuer"@) is Some
                &&& json::unsigned_under(f, "permissions"@) is Some
                &&& json::unsigned_under(f, "permissions"@)->Some_0 < 256
                &&& json::unsigned_under(f, "expires_at_ms"@) is Some
                &&& json::unsigned_under(f, "written_at_ms"@) is Some
            }
            &&& e matches Some(e) ==> {
                &&& json::text_under(f, "cert_data"@) == Some(e.cert_data)
                &&& json::text_under(f, "node_id"@) == Some(e.node_id)
                &&& json::text_under(f, "tier"@) == Some(e.tier)
                &&& json::text_under(f, "subject"@) == Some(e.subject)
                &&& json::text_under(f, "issuer"@) == Some(e.issuer)
                &&& json::unsigned_under(f, "permissions"@) == Some(e.permissions as u64)
                &&& json::unsigned_under(f, "expires_at_ms"@) == Some(e.expires_at_ms)
                &&& json::unsigned_under(f, "written_at_ms"@) == Some(e.written_at_ms)
            }
            &&& r is Some <==> {
                &&& json::text_under(f, "subject"@) is Some
                &&& json::text_under(f, "reason"@) is Some
                &&& json::unsigned_under(f, "timestamp_ms"@) is Some
            }
            &&& r matches Some(r) ==> {
                &&& json::text_under(f, "subject"@) == Some(r.subject)
                &&& json::text_under(f, "reason"@) == Some(r.reason)
                &&& json::unsigned_under(f, "timestamp_ms"@) == Some(r.timestamp_ms)
            }
        }),
{
}

/// Values of a document read as the JSON values that say the same: whole numbers of either
/// kind and times as the integer, finite doubles, texts and booleans as they are, and what
/// JSON cannot say as null. What is written from JSON reads back, and an integer that is too
/// large for a document becomes the double that is nearest to it.
pub proof fn law_values(s: ScalarView, i: i64, u: u64, b: u64)
    ensures
        json_convert::scalar_json(ScalarView::Int(i)) == json_convert::scalar_json(ScalarView::Timestamp(i)),
        json_convert::scalar_json(ScalarView::Int(i)) matches JsonView::Number(n) && match n {
            Number::Unsigned(x) => x == i,
            Number::Negative(x) => x == i && i < 0,
            Number::Double(_) => false,
        },
        json_convert::scalar_json(ScalarView::Uint(u)) == JsonView::Number(Number::Unsigned(u)),
        json_convert::scalar_json(ScalarView::Double(b)) == (if b as nat % 0x8000_0000_0000_0000
            < 0x7FF0_0000_0000_0000 {
            JsonView::Number(Number::Double(b))
        } else {
            JsonView::Null
        }),
        s matches ScalarView::Text(t) ==> json_convert::scalar_json(s) == JsonView::Text(t),
        s matches ScalarView::Bool(t) ==> json_convert::scalar_json(s) == JsonView::Bool(t),
        s is Null || s is Other ==> json_convert::scalar_json(s) is Null,
        json_convert::json_scalar(JsonView::Null) == ScalarView::Null,
        json_convert::json_scalar(JsonView::Number(Number::Double(b))) == ScalarView::Double(b),
        s matches ScalarView::Text(t) ==> json_convert::json_scalar(JsonView::Text(t)) == s,
        s matches ScalarView::Bool(t) ==> json_convert::json_scalar(JsonView::Bool(t)) == s,
        u <= i64::MAX ==> json_convert::scalar_json(json_convert::json_scalar(JsonView::Number(Number::Unsigned(u))))
            == JsonView::Number(Number::Unsigned(u)),
        i < 0 ==> json_convert::scalar_json(json_convert::json_scalar(JsonView::Number(Number::Negative(i))))
            == JsonView::Number(Number::Negative(i)),
        u > i64::MAX ==> json_convert::json_scalar(JsonView::Number(Number::Unsigned(u))) is Double,
        u > i64::MAX ==> {
            let d = json_convert::json_scalar(JsonView::Number(Number::Unsigned(u)))->Double_0 as nat;
            &&& 0x20_0000_0000_0000 * (doubles::units(d) - u * pow2(1074)) <= u * pow2(1074)
            &&& 0x20_0000_0000_0000 * (u * pow2(1074) - doubles::units(d)) <= u * pow2(1074)
        },
{
    doubles::law_double_of_integer(u);
}

/// A read never asks for more than a chunk, nor for bytes on both sides of the point from
/// which to go on: before it only what is left up to it. What is read before it is not
/// written, everything after it is, and an end before it is no end of the transfer.
pub proof fn law_reads(t: TransferView, chunk_size: nat, data: Seq<u8>)
    requires
        data.len() <= t.wanted(chunk_size),
    ensures
        t.wanted(chunk_size) <= chunk_size,
        chunk_size > 0 ==> t.wanted(chunk_size) > 0,
        t.skip_remaining > 0 ==> t.wanted(chunk_size) <= t.skip_remaining,
        t.skip_remaining == 0 ==> t.wanted(chunk_size) == chunk_size,
        t.step(data) == ReadStep::Skipped <==> t.skip_remaining > 0,
        t.step(data) == ReadStep::Write <==> t.skip_remaining == 0 && data.len() > 0,
        t.step(data) == ReadStep::Finish <==> t.skip_remaining == 0 && data.len() == 0,
        t.after_read(data).read == t.read + data,
        t.after_read(data).initial_offset == t.initial_offset,
        t.after_read(data).checkpoints_saved == t.checkpoints_saved,
        t.skip_remaining > 0 ==> t.after_read(data).skip_remaining + data.len() == t.skip_remaining,
        t.skip_remaining == 0 ==> t.after_read(data).skip_remaining == 0,
{
}

/// Checkpoints are saved in equal steps: of as many chunks in a row as the interval has,
/// exactly one calls for a checkpoint, and none does where the interval is 0. A chunk that
/// was written moves the offset by its length and counts as one; who transfers what does not
/// change.
pub proof fn law_checkpoints(c: CheckpointView, interval: nat, n: nat, d: CheckpointView)
    requires
        c.offset + n <= u64::MAX,
        c.chunks_completed < u64::MAX,
    ensures
        !c.is_due(0),
        interval > 0 && c.is_due(interval) && c.chunks_completed < d.chunks_completed < c.chunks_completed + interval
            ==> !d.is_due(interval),
        interval > 0 && c.is_due(interval) && d.chunks_completed == c.chunks_completed + interval ==> d.is_due(interval),
        interval > 0 && c.chunks_completed == interval ==> c.is_due(interval),
        c.advanced(n).offset == c.offset + n,
        c.advanced(n).chunks_completed == c.chunks_completed + 1,
        c.advanced(n).digest == c.digest,
        c.advanced(n).session_id == c.session_id,
        c.advanced(n).total_size == c.total_size,
{
    if interval > 0 {
        let a = c.chunks_completed as int;
        let b = d.chunks_completed as int;
        let k = interval as int;
        if c.is_due(interval) {
            if b == a + k {
                assert((a + k) % k == 0) by (nonlinear_arith)
                    requires
                        a % k == 0,
                        k > 0,
                ;
            }
            if a < b < a + k {
                assert(b % k != 0) by (nonlinear_arith)
                    requires
                        a % k == 0,
                        k > 0,
                        a < b < a + k,
                ;
            }
        }
        if a == k {
            assert(k % k == 0) by (nonlinear_arith)
                requires
                    k > 0,
            ;
        }
    }
}

/// What is told of a transfer adds up: what was there before and what was transferred make
/// the whole, it was resumed exactly if something was there before, and the digest reads
/// back as the SHA-256 digest of everything that was read.
pub proof fn law_transfer_result(t: TransferView, c: CheckpointView)
    requires
        t.initial_offset <= c.offset,
    ensures
        t.initial_offset + t.result(c).bytes_transferred == t.result(c).total_size,
        t.result(c).total_size == c.offset,
        t.result(c).resumed <==> t.initial_offset > 0,
        t.result(c).checkpoints_saved == t.checkpoints_saved,
        t.result(c).computed_digest.take(7) == "sha256:"@,
        text::hex_bytes(encode_utf8(t.result(c).computed_digest.skip(7))) == crypto::sha256_digest(t.read),
        TransferView::begun(c.offset).initial_offset == c.offset,
        TransferView::begun(c.offset).skip_remaining == c.offset,
        TransferView::begun(c.offset).read.len() == 0,
        TransferView::begun(c.offset).checkpoints_saved == 0,
{
    reveal_strlit("sha256:");
    let d = crypto::sha256_digest(t.read);
    text::law_hex_roundtrip(d);
    assert("sha256:"@.len() == 7);
    assert(t.result(c).computed_digest.take(7) =~= "sha256:"@);
    assert(t.result(c).computed_digest.skip(7) =~= text::hex_text(d));
}

/// A node that enrolls is told what the service decided, word for word; where the service
/// failed it is denied, without a certificate and without a secret, and told why.
pub proof fn law_answers(outcome: Result<ResponseView, SecurityErrorView>, now_ms: u64)
    ensures
        ({
            let a = enrollment_transport::answer_to(outcome, now_ms);
            &&& outcome is Ok ==> a == outcome->Ok_0
            &&& outcome is Err ==> {
                &&& a.status is Denied
                &&& a.status->Denied_reason == "enrollment error: "@ + outcome->Err_0.text()
                &&& a.certificate is None
                &&& a.formation_secret is None
                &&& a.timestamp_ms == now_ms
            }
        }),
{
}

/// A peer is refused for want of a certificate exactly if certificates are required, there
/// is a bundle to look in, and the bundle does not vouch for the peer; any other has to prove
/// that it knows the formation key exactly if there is one. What the peer's certificate says
/// is of no account where none is required.
pub proof fn law_who_may_sync(h: HandlerView, peer: Seq<u8>, other: Seq<u8>, now_ms: u64)
    ensures
        h.decision(peer, now_ms) == AcceptStep::CertificateRequired <==> h.require_certificates && h.bundle is Some
            && !(h.bundle->Some_0.certificates.contains_key(peer) && h.bundle->Some_0.vouches(
            h.bundle->Some_0.certificates[peer],
            now_ms,
        )),
        h.decision(peer, now_ms) != AcceptStep::CertificateRequired ==> (h.decision(peer, now_ms)
            == AcceptStep::Authenticate <==> h.has_formation_key),
        h.decision(peer, now_ms) != AcceptStep::FormationAuthFailed,
        !h.require_certificates ==> h.decision(peer, now_ms) == h.decision(other, now_ms),
{
}

/// Forgetting closed connections forgets those and no others.
pub proof fn law_closed_connections(connections: Map<Seq<u8>, u64>, closed: Seq<u64>, peer: Seq<u8>)
    ensures
        ({
            let after = mesh_sync_transport::without_closed(connections, closed);
            &&& after.contains_key(peer) <==> connections.contains_key(peer) && !closed.contains(connections[peer])
            &&& after.contains_key(peer) ==> after[peer] == connections[peer]
        }),
{
}

/// A text is one of several exactly if it stands among them.
pub proof fn law_one_of_the_texts(texts: Seq<String>, s: Seq<char>)
    ensures
        certificate_store::names_one(texts, s) <==> text::texts(texts).contains(s),
{
    if certificate_store::names_one(texts, s) {
        let i = choose|i: int| 0 <= i < texts.len() && (#[trigger] texts[i])@ == s;
        assert(text::texts(texts)[i] == s);
    }
    if text::texts(texts).contains(s) {
        let i = choose|i: int| 0 <= i < text::texts(texts).len() && text::texts(texts)[i] == s;
        assert(texts[i]@ == s);
    }
}

} // verus!
