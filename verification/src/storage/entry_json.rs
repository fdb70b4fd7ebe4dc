//! The JSON objects that certificates and revocations are kept as.

use vstd::prelude::*;
use vstd::string::*;

use crate::json;
use crate::json::{object_insert, text_field, unsigned_field, Json, JsonView, Number};
use crate::storage::certificate_store::{CertificateEntry, EntryView, RevocationEntry, RevocationView};
use crate::storage::documents;
use crate::storage::json_convert;

verus! {

/// An unsigned integer as a JSON value.
pub open spec fn unsigned(n: u64) -> JsonView {
    JsonView::Number(Number::Unsigned(n))
}

/// The fields of a certificate entry.
pub open spec fn entry_fields(e: EntryView) -> Seq<(Seq<char>, JsonView)> {
    seq![
        ("cert_data"@, JsonView::Text(e.cert_data)),
        ("node_id"@, JsonView::Text(e.node_id)),
        ("tier"@, JsonView::Text(e.tier)),
        ("subject"@, JsonView::Text(e.subject)),
        ("issuer"@, JsonView::Text(e.issuer)),
        ("permissions"@, unsigned(e.permissions as u64)),
        ("expires_at_ms"@, unsigned(e.expires_at_ms)),
        ("written_at_ms"@, unsigned(e.written_at_ms)),
    ]
}

/// The JSON object of a certificate entry.
pub open spec fn entry_object(e: EntryView) -> Seq<(Seq<char>, JsonView)> {
    json::object_of(entry_fields(e))
}

/// The certificate entry in a JSON value: an object with all its fields, each of the
/// kind that it is written as.
pub open spec fn entry_in(j: JsonView) -> Option<EntryView> {
    match j {
        JsonView::Object(f) => match (
            json::text_under(f, "cert_data"@),
            json::text_under(f, "node_id"@),
            json::text_under(f, "tier"@),
            json::text_under(f, "subject"@),
            json::text_under(f, "issuer"@),
            byte_under(f, "permissions"@),
            json::unsigned_under(f, "expires_at_ms"@),
            json::unsigned_under(f, "written_at_ms"@),
        ) {
            (
                Some(cert_data),
                Some(node_id),
                Some(tier),
                Some(subject),
                Some(issuer),
                Some(permissions),
                Some(expires_at_ms),
                Some(written_at_ms),
            ) => Some(
                EntryView { cert_data, node_id, tier, subject, issuer, permissions, expires_at_ms, written_at_ms },
            ),
            _ => None,
        },
        _ => None,
    }
}

/// The byte under a key of an object.
pub open spec fn byte_under(entries: Seq<(Seq<char>, JsonView)>, key: Seq<char>) -> Option<u8> {
    match json::unsigned_under(entries, key) {
        Some(n) => if n <= u8::MAX {
            Some(n as u8)
        } else {
            None
        },
        None => None,
    }
}

/// The fields of a revocation.
pub open spec fn revocation_fields(e: RevocationView) -> Seq<(Seq<char>, JsonView)> {
    seq![
        ("subject"@, JsonView::Text(e.subject)),
        ("reason"@, JsonView::Text(e.reason)),
        ("timestamp_ms"@, unsigned(e.timestamp_ms)),
    ]
}

/// The JSON object of a revocation.
pub open spec fn revocation_object(e: RevocationView) -> Seq<(Seq<char>, JsonView)> {
    json::object_of(revocation_fields(e))
}

/// The revocation in a JSON value.
pub open spec fn revocation_in(j: JsonView) -> Option<RevocationView> {
    match j {
        JsonView::Object(f) => match (
            json::text_under(f, "subject"@),
            json::text_under(f, "reason"@),
            json::unsigned_under(f, "timestamp_ms"@),
        ) {
            (Some(subject), Some(reason), Some(timestamp_ms)) => Some(RevocationView { subject, reason, timestamp_ms }),
            _ => None,
        },
        _ => None,
    }
}

/// Whether a value is a text or an unsigned integer.
pub open spec fn is_plain(j: JsonView) -> bool {
    j is Text || (j is Number && j->Number_0 is Unsigned)
}

proof fn lemma_entry_keys(e: EntryView)
    ensures
        forall|i: int, k: int|
            0 <= i < k < entry_fields(e).len() ==> (#[trigger] entry_fields(e)[i]).0 != (#[trigger] entry_fields(e)[k]).0,
        forall|i: int| 0 <= i < entry_fields(e).len() ==> is_plain((#[trigger] entry_fields(e)[i]).1),
{
    reveal_strlit("cert_data");
    reveal_strlit("node_id");
    reveal_strlit("tier");
    reveal_strlit("subject");
    reveal_strlit("issuer");
    reveal_strlit("permissions");
    reveal_strlit("expires_at_ms");
    reveal_strlit("written_at_ms");
    let f = entry_fields(e);
    let initials = seq!['c', 'n', 't', 's', 'i', 'p', 'e', 'w'];
    assert forall|i: int| 0 <= i < f.len() implies (#[trigger] f[i]).0[0] == initials[i] by {}
    assert forall|i: int, k: int| 0 <= i < k < f.len() implies (#[trigger] f[i]).0 != (#[trigger] f[k]).0 by {
        assert(f[i].0[0] == initials[i]);
        assert(f[k].0[0] == initials[k]);
    }
}

proof fn lemma_revocation_keys(e: RevocationView)
    ensures
        forall|i: int, k: int|
            0 <= i < k < revocation_fields(e).len() ==> (#[trigger] revocation_fields(e)[i]).0 != (
            #[trigger] revocation_fields(e)[k]).0,
        forall|i: int| 0 <= i < revocation_fields(e).len() ==> is_plain((#[trigger] revocation_fields(e)[i]).1),
{
    reveal_strlit("subject");
    reveal_strlit("reason");
    reveal_strlit("timestamp_ms");
    let f = revocation_fields(e);
    let initials = seq!['s', 'r', 't'];
    assert forall|i: int| 0 <= i < f.len() implies (#[trigger] f[i]).0[0] == initials[i] by {}
    assert forall|i: int, k: int| 0 <= i < k < f.len() implies (#[trigger] f[i]).0 != (#[trigger] f[k]).0 by {
        assert(f[i].0[0] == initials[i]);
        assert(f[k].0[0] == initials[k]);
    }
}

/// An object of texts and unsigned integers can be written into a document, and is kept
/// there where each of them is.
proof fn lemma_plain_object(f: Seq<(Seq<char>, JsonView)>)
    requires
        forall|i: int, k: int| 0 <= i < k < f.len() ==> (#[trigger] f[i]).0 != (#[trigger] f[k]).0,
        forall|i: int| 0 <= i < f.len() ==> is_plain((#[trigger] f[i]).1),
    ensures
        forall|i: int| 0 <= i < json::object_of(f).len() ==> is_plain((#[trigger] json::object_of(f)[i]).1),
        json_convert::is_proper(JsonView::Object(json::object_of(f))),
        (forall|i: int| 0 <= i < f.len() ==> json_convert::is_kept((#[trigger] f[i]).1)) ==> json_convert::is_kept(
            JsonView::Object(json::object_of(f)),
        ),
{
    let object = json::object_of(f);
    json::lemma_object_of(f);
    let plain = |j: JsonView| is_plain(j);
    assert forall|i: int| 0 <= i < f.len() implies plain((#[trigger] f[i]).1) by {}
    json::lemma_object_of_values(f, plain);
    assert forall|i: int| 0 <= i < object.len() implies is_plain((#[trigger] object[i]).1) && json_convert::is_proper(
        object[i].1,
    ) by {
        assert(plain(object[i].1));
    }
    if forall|i: int| 0 <= i < f.len() ==> json_convert::is_kept((#[trigger] f[i]).1) {
        let kept = |j: JsonView| json_convert::is_kept(j);
        assert forall|i: int| 0 <= i < f.len() implies kept((#[trigger] f[i]).1) by {}
        json::lemma_object_of_values(f, kept);
        assert forall|i: int| #![trigger object[i]] 0 <= i < object.len() implies json_convert::is_kept(object[i].1) by {
            assert(kept(object[i].1));
        }
    }
}

/// An object of texts and unsigned integers that is in order can be written where doubles
/// can be made or it needs none.
pub proof fn lemma_writable<F: Fn(u64) -> automerge::ScalarValue>(object: Seq<(Seq<char>, JsonView)>, doubles: F)
    requires
        json_convert::is_proper(JsonView::Object(object)),
        forall|i: int| 0 <= i < object.len() ==> is_plain((#[trigger] object[i]).1),
        json_convert::makes_doubles(doubles) || json_convert::is_kept(JsonView::Object(object)),
    ensures
        json_convert::is_writable(JsonView::Object(object), doubles),
{
    if json_convert::is_kept(JsonView::Object(object)) {
        assert forall|i: int| #![trigger object[i]] 0 <= i < object.len() implies json_convert::is_integral(
            object[i].1,
        ) by {
            assert(is_plain(object[i].1));
            assert(json_convert::is_kept(object[i].1));
        }
    }
}

/// Nothing that merely counts as the same stands where texts and integers are written.
pub proof fn lemma_plain_stands(earlier: Map<Seq<char>, documents::EntryView>, object: Seq<(Seq<char>, JsonView)>)
    requires
        forall|i: int| 0 <= i < object.len() ==> is_plain((#[trigger] object[i]).1),
        json_convert::is_kept(JsonView::Object(object)),
    ensures
        forall|i: int|
            #![trigger object[i]]
            0 <= i < object.len() && documents::stands_already(
                earlier,
                object[i].0,
                json_convert::json_scalar(object[i].1),
            ) ==> earlier[object[i].0] == documents::EntryView::Scalar(json_convert::json_scalar(object[i].1)),
{
    assert(JsonView::Object(object)->Object_0 == object);
    assert forall|i: int| #![trigger object[i]] 0 <= i < object.len() implies !(json_convert::json_scalar(
        object[i].1,
    ) is Double) by {
        assert(is_plain(object[i].1));
        assert(json_convert::is_kept(object[i].1));
    }
}

/// A certificate entry comes back from its JSON object, which can be written into a
/// document and is kept there where its times are signed 64-bit integers.
pub proof fn law_entry_json(e: EntryView)
    ensures
        entry_in(JsonView::Object(entry_object(e))) == Some(e),
        json_convert::is_proper(JsonView::Object(entry_object(e))),
        forall|i: int| 0 <= i < entry_object(e).len() ==> is_plain((#[trigger] entry_object(e)[i]).1),
        e.expires_at_ms <= i64::MAX && e.written_at_ms <= i64::MAX ==> json_convert::is_kept(
            JsonView::Object(entry_object(e)),
        ),
{
    let f = entry_fields(e);
    lemma_entry_keys(e);
    lemma_plain_object(f);
    json::lemma_object_of(f);
    assert(f[0].0 == "cert_data"@ && f[1].0 == "node_id"@ && f[2].0 == "tier"@ && f[3].0 == "subject"@);
    assert(f[4].0 == "issuer"@ && f[5].0 == "permissions"@);
    assert(f[6].0 == "expires_at_ms"@ && f[7].0 == "written_at_ms"@);
}

/// A revocation comes back from its JSON object, which can be written into a document
/// and is kept there where its time is a signed 64-bit integer.
pub proof fn law_revocation_json(e: RevocationView)
    ensures
        revocation_in(JsonView::Object(revocation_object(e))) == Some(e),
        json_convert::is_proper(JsonView::Object(revocation_object(e))),
        forall|i: int| 0 <= i < revocation_object(e).len() ==> is_plain((#[trigger] revocation_object(e)[i]).1),
        e.timestamp_ms <= i64::MAX ==> json_convert::is_kept(JsonView::Object(revocation_object(e))),
{
    let f = revocation_fields(e);
    lemma_revocation_keys(e);
    lemma_plain_object(f);
    json::lemma_object_of(f);
    assert(f[0].0 == "subject"@ && f[1].0 == "reason"@ && f[2].0 == "timestamp_ms"@);
}

/// Adds a field to an object.
fn add_field(object: &mut Vec<(String, Json)>, key: &str, value: Json, Ghost(fields): Ghost<Seq<(Seq<char>, JsonView)>>)
    requires
        json::object_view(old(object)@) == json::object_of(fields),
    ensures
        json::object_view(final(object)@) == json::object_of(fields.push((key@, value@))),
{
    object_insert(object, key.to_string(), value);
    proof {
        assert(fields.push((key@, value@)).drop_last() =~= fields);
    }
}

impl CertificateEntry {
    /// The entry as a JSON object.
    pub fn to_json(&self) -> (r: Json)
        ensures
            r@ == JsonView::Object(entry_object(self@)),
    {
        let ghost f = entry_fields(self@);
        let mut object: Vec<(String, Json)> = Vec::new();
        add_field(&mut object, "cert_data", Json::text(self.cert_data.as_str()), Ghost(f.take(0)));
        assert(f.take(0).push(f[0]) =~= f.take(1));
        add_field(&mut object, "node_id", Json::text(self.node_id.as_str()), Ghost(f.take(1)));
        assert(f.take(1).push(f[1]) =~= f.take(2));
        add_field(&mut object, "tier", Json::text(self.tier.as_str()), Ghost(f.take(2)));
        assert(f.take(2).push(f[2]) =~= f.take(3));
        add_field(&mut object, "subject", Json::text(self.subject.as_str()), Ghost(f.take(3)));
        assert(f.take(3).push(f[3]) =~= f.take(4));
        add_field(&mut object, "issuer", Json::text(self.issuer.as_str()), Ghost(f.take(4)));
        assert(f.take(4).push(f[4]) =~= f.take(5));
        add_field(&mut object, "permissions", Json::unsigned(self.permissions as u64), Ghost(f.take(5)));
        assert(f.take(5).push(f[5]) =~= f.take(6));
        add_field(&mut object, "expires_at_ms", Json::unsigned(self.expires_at_ms), Ghost(f.take(6)));
        assert(f.take(6).push(f[6]) =~= f.take(7));
        add_field(&mut object, "written_at_ms", Json::unsigned(self.written_at_ms), Ghost(f.take(7)));
        assert(f.take(7).push(f[7]) =~= f);
        Json::Object(object)
    }

    /// The entry in a JSON value, where there is one.
    pub fn from_json(json: &Json) -> (r: Option<Self>)
        ensures
            match r {
                Some(e) => entry_in(json@) == Some(e@),
                None => entry_in(json@) is None,
            },
    {
        let object = match json {
            Json::Object(object) => object,
            _ => return None,
        };
        let permissions: u8 = match unsigned_field(object, "permissions") {
            Some(n) if n <= 255 => n as u8,
            _ => return None,
        };
        match (
            text_field(object, "cert_data"),
            text_field(object, "node_id"),
            text_field(object, "tier"),
            text_field(object, "subject"),
            text_field(object, "issuer"),
            unsigned_field(object, "expires_at_ms"),
            unsigned_field(object, "written_at_ms"),
        ) {
            (
                Some(cert_data),
                Some(node_id),
                Some(tier),
                Some(subject),
                Some(issuer),
                Some(expires_at_ms),
                Some(written_at_ms),
            ) => Some(
                CertificateEntry {
                    cert_data: cert_data.to_string(),
                    node_id: node_id.to_string(),
                    tier: tier.to_string(),
                    subject: subject.to_string(),
                    issuer: issuer.to_string(),
                    permissions,
                    expires_at_ms,
                    written_at_ms,
                },
            ),
            _ => None,
        }
    }
}

impl RevocationEntry {
    /// The revocation as a JSON object.
    pub fn to_json(&self) -> (r: Json)
        ensures
            r@ == JsonView::Object(revocation_object(self@)),
    {
        let ghost f = revocation_fields(self@);
        let mut object: Vec<(String, Json)> = Vec::new();
        add_field(&mut object, "subject", Json::text(self.subject.as_str()), Ghost(f.take(0)));
        assert(f.take(0).push(f[0]) =~= f.take(1));
        add_field(&mut object, "reason", Json::text(self.reason.as_str()), Ghost(f.take(1)));
        assert(f.take(1).push(f[1]) =~= f.take(2));
        add_field(&mut object, "timestamp_ms", Json::unsigned(self.timestamp_ms), Ghost(f.take(2)));
        assert(f.take(2).push(f[2]) =~= f);
        Json::Object(object)
    }

    /// The revocation in a JSON value, where there is one.
    pub fn from_json(json: &Json) -> (r: Option<Self>)
        ensures
            match r {
                Some(e) => revocation_in(json@) == Some(e@),
                None => revocation_in(json@) is None,
            },
    {
        let object = match json {
            Json::Object(object) => object,
            _ => return None,
        };
        match (
            text_field(object, "subject"),
            text_field(object, "reason"),
            unsigned_field(object, "timestamp_ms"),
        ) {
            (Some(subject), Some(reason), Some(timestamp_ms)) => Some(
                RevocationEntry { subject: subject.to_string(), reason: reason.to_string(), timestamp_ms },
            ),
            _ => None,
        }
    }
}

} // verus!
