//! Enrollment protocol types for mesh membership.
//!
//! A new node sends a signed request with a bootstrap token; the authority
//! answers with a signed certificate, or says why not.

use vstd::prelude::*;
use vstd::string::*;
use vstd::utf8::*;

use crate::bytes;
use crate::bytes::{copy_range, push_bytes, push_le, read_array32, read_array64, read_le};
use crate::clock;
use crate::security::bundle;
use crate::security::certificate;
use crate::security::certificate::{push_short_text, CertificateView, MeshCertificate, MeshTier};
use crate::security::crypto;
use crate::security::error;
use crate::security::error::{joined, joined3, SecurityError, SecurityErrorView};
use crate::security::keypair;
use crate::security::keypair::{verify_signed, DeviceKeypair};
use crate::text;
use crate::text::{decimal_string, push_text, string_from_utf8};
use crate::vec_map::VecMap;

verus! {

/// Status of an enrollment request.
#[derive(Debug, PartialEq, Eq)]
pub enum EnrollmentStatus {
    /// Request received and awaiting authority decision.
    Pending,
    /// Enrollment approved; a certificate is attached.
    Approved,
    /// Enrollment denied.
    Denied { reason: String },
    /// Previously approved enrollment has been revoked.
    Revoked { reason: String },
}

/// An [`EnrollmentStatus`] with its reason as a sequence of characters.
pub enum StatusView {
    Pending,
    Approved,
    Denied { reason: Seq<char> },
    Revoked { reason: Seq<char> },
}

impl View for EnrollmentStatus {
    type V = StatusView;

    open spec fn view(&self) -> StatusView {
        match self {
            EnrollmentStatus::Pending => StatusView::Pending,
            EnrollmentStatus::Approved => StatusView::Approved,
            EnrollmentStatus::Denied { reason } => StatusView::Denied { reason: reason@ },
            EnrollmentStatus::Revoked { reason } => StatusView::Revoked { reason: reason@ },
        }
    }
}

impl EnrollmentStatus {
    /// Encode to a single status byte.
    pub fn to_byte(&self) -> (r: u8)
        ensures
            r == match self {
                EnrollmentStatus::Pending => 0u8,
                EnrollmentStatus::Approved => 1,
                EnrollmentStatus::Denied { .. } => 2,
                EnrollmentStatus::Revoked { .. } => 3,
            },
    {
        match self {
            EnrollmentStatus::Pending => 0,
            EnrollmentStatus::Approved => 1,
            EnrollmentStatus::Denied { .. } => 2,
            EnrollmentStatus::Revoked { .. } => 3,
        }
    }
}

/// A request from a node to join a mesh formation.
///
/// Wire format (integers are little-endian):
/// ```text
/// [subject_pubkey:32][mesh_id_len:1][mesh_id:N][node_id_len:1][node_id:P]
/// [requested_tier:1][token_len:2][token:M][timestamp:8][signature:64]
/// ```
#[derive(Debug)]
pub struct EnrollmentRequest {
    /// The requesting node's Ed25519 public key.
    pub subject_public_key: [u8; 32],
    /// The mesh/formation ID to join.
    pub mesh_id: String,
    /// The requesting node's identifier (hostname).
    pub node_id: String,
    /// Requested tier (authority may override).
    pub requested_tier: MeshTier,
    /// Out-of-band bootstrap token proving authorization to join.
    pub bootstrap_token: Vec<u8>,
    /// Request timestamp (Unix epoch milliseconds).
    pub timestamp_ms: u64,
    /// Ed25519 signature over the signable portion (proves key ownership).
    pub signature: [u8; 64],
}

/// An [`EnrollmentRequest`] in terms of sequences.
#[verifier::ext_equal]
pub struct RequestView {
    pub subject_public_key: Seq<u8>,
    pub mesh_id: Seq<char>,
    pub node_id: Seq<char>,
    pub requested_tier: MeshTier,
    pub bootstrap_token: Seq<u8>,
    pub timestamp_ms: u64,
    pub signature: Seq<u8>,
}

impl View for EnrollmentRequest {
    type V = RequestView;

    open spec fn view(&self) -> RequestView {
        RequestView {
            subject_public_key: self.subject_public_key@,
            mesh_id: self.mesh_id@,
            node_id: self.node_id@,
            requested_tier: self.requested_tier,
            bootstrap_token: self.bootstrap_token@,
            timestamp_ms: self.timestamp_ms,
            signature: self.signature@,
        }
    }
}

impl RequestView {
    /// The bytes that are signed: everything except the signature itself.
    pub open spec fn signable(self) -> Seq<u8> {
        self.subject_public_key + certificate::short_text(self.mesh_id) + certificate::short_text(self.node_id)
            + seq![self.requested_tier.ordinal()] + bytes::le_bytes((self.bootstrap_token.len() % 65536) as nat, 2)
            + self.bootstrap_token + bytes::le_bytes(self.timestamp_ms as nat, 8)
    }

    /// The wire format.
    pub open spec fn wire(self) -> Seq<u8> {
        self.signable() + self.signature
    }

    /// What a check of the signature against the subject's key says.
    pub open spec fn verify_outcome(self) -> Result<(), SecurityErrorView> {
        keypair::signature_outcome(self.subject_public_key, self.signable(), self.signature)
    }

    /// The request with the signature of `secret` over it.
    pub open spec fn signed_by(self, secret: Seq<u8>) -> RequestView {
        RequestView { signature: crypto::ed25519_signature(secret, self.signable()), ..self }
    }

    /// Whether the key and the signature have their lengths and the texts and the
    /// token fit the length fields of the wire format.
    pub open spec fn fits_wire(self) -> bool {
        &&& self.subject_public_key.len() == 32
        &&& self.signature.len() == 64
        &&& encode_utf8(self.mesh_id).len() < 256
        &&& encode_utf8(self.node_id).len() < 256
        &&& self.bootstrap_token.len() < 65536
    }
}

/// The request that `d` starts with, or what is wrong with `d`. Bytes after the
/// request are ignored.
pub open spec fn parse_request(d: Seq<u8>) -> Result<RequestView, SecurityErrorView> {
    let m = d[32] as int;
    let mesh_id = d.subrange(33, 33 + m);
    let n = d[33 + m] as int;
    let p = 34 + m;
    let node_id = d.subrange(p, p + n);
    let q = p + n;
    let t = bytes::le_value(d.subrange(q + 1, q + 3)) as int;
    if d.len() < 109 {
        certificate::malformed("enrollment request too short: "@ + text::decimal(d.len()) + " bytes (min 109)"@)
    } else if 33 + m + 1 > d.len() {
        certificate::malformed("enrollment request truncated at mesh_id"@)
    } else if !valid_utf8(mesh_id) {
        certificate::malformed("invalid mesh_id: "@ + text::utf8_error_text(mesh_id))
    } else if q + 3 > d.len() {
        certificate::malformed("enrollment request truncated at node_id"@)
    } else if !valid_utf8(node_id) {
        certificate::malformed("invalid node_id: "@ + text::utf8_error_text(node_id))
    } else if certificate::tier_of_byte(d[q]) is None {
        certificate::malformed("invalid tier byte"@)
    } else if q + 3 + t + 72 > d.len() {
        certificate::malformed("enrollment request truncated at token"@)
    } else {
        Ok(
            RequestView {
                subject_public_key: d.subrange(0, 32),
                mesh_id: decode_utf8(mesh_id),
                node_id: decode_utf8(node_id),
                requested_tier: certificate::tier_of_byte(d[q])->Some_0,
                bootstrap_token: d.subrange(q + 3, q + 3 + t),
                timestamp_ms: bytes::le_value(d.subrange(q + 3 + t, q + 11 + t)) as u64,
                signature: d.subrange(q + 11 + t, q + 75 + t),
            },
        )
    }
}

proof fn lemma_head(key: Seq<u8>, mesh: Seq<u8>, node: Seq<u8>, tail: Seq<u8>)
    requires
        key.len() == 32,
    ensures
        ({
            let d = key + (seq![(mesh.len() % 256) as u8] + mesh) + (seq![(node.len() % 256) as u8] + node) + tail;
            let m = mesh.len() as int;
            let q = 34 + m + node.len();
            &&& d.len() == q + tail.len()
            &&& d.subrange(0, 32) == key
            &&& d[32] == (mesh.len() % 256) as u8
            &&& d.subrange(33, 33 + m) == mesh
            &&& d[33 + m] == (node.len() % 256) as u8
            &&& d.subrange(34 + m, q) == node
            &&& d.subrange(q, d.len() as int) == tail
        }),
{
    let d = key + (seq![(mesh.len() % 256) as u8] + mesh) + (seq![(node.len() % 256) as u8] + node) + tail;
    let m = mesh.len() as int;
    let q = 34 + m + node.len();
    assert(d.subrange(0, 32) =~= key);
    assert(d.subrange(33, 33 + m) =~= mesh);
    assert(d.subrange(34 + m, q) =~= node);
    assert(d.subrange(q, d.len() as int) =~= tail);
}

proof fn lemma_tail(tier: u8, len_bytes: Seq<u8>, token: Seq<u8>, stamp: Seq<u8>, signature: Seq<u8>, rest: Seq<u8>)
    requires
        len_bytes.len() == 2,
        stamp.len() == 8,
        signature.len() == 64,
    ensures
        ({
            let d = seq![tier] + len_bytes + token + stamp + signature + rest;
            let t = token.len() as int;
            &&& d.len() == 75 + t + rest.len()
            &&& d[0] == tier
            &&& d.subrange(1, 3) == len_bytes
            &&& d.subrange(3, 3 + t) == token
            &&& d.subrange(3 + t, 11 + t) == stamp
            &&& d.subrange(11 + t, 75 + t) == signature
        }),
{
    let d = seq![tier] + len_bytes + token + stamp + signature + rest;
    let t = token.len() as int;
    assert(d.subrange(1, 3) =~= len_bytes);
    assert(d.subrange(3, 3 + t) =~= token);
    assert(d.subrange(3 + t, 11 + t) =~= stamp);
    assert(d.subrange(11 + t, 75 + t) =~= signature);
}

proof fn lemma_subrange_within(d: Seq<u8>, q: int, tail: Seq<u8>, a: int, b: int)
    requires
        0 <= q <= d.len(),
        d.subrange(q, d.len() as int) == tail,
        0 <= a <= b <= tail.len(),
    ensures
        d.subrange(q + a, q + b) == tail.subrange(a, b),
{
    assert forall|i: int| 0 <= i < tail.len() implies d[q + i] == tail[i] by {
        assert(d.subrange(q, d.len() as int)[i] == d[q + i]);
    }
    assert(d.subrange(q + a, q + b) =~= tail.subrange(a, b));
}

proof fn lemma_regroup(head: Seq<u8>, a: Seq<u8>, b: Seq<u8>, c: Seq<u8>, e: Seq<u8>, f: Seq<u8>, rest: Seq<u8>)
    ensures
        head + a + b + c + e + f + rest == head + (a + b + c + e + f + rest),
{
    assert(head + a + b + c + e + f + rest =~= head + (a + b + c + e + f + rest));
}

/// What the fields of a request look like in bytes that start with it.
spec fn starts_with_request(d: Seq<u8>, r: RequestView) -> bool {
    let mesh = encode_utf8(r.mesh_id);
    let node = encode_utf8(r.node_id);
    let m = mesh.len() as int;
    let q = 34 + m + node.len();
    let t = r.bootstrap_token.len() as int;
    &&& d.len() >= q + 75 + t
    &&& d.subrange(0, 32) == r.subject_public_key
    &&& d[32] as int == m
    &&& d.subrange(33, 33 + m) == mesh
    &&& d[33 + m] as int == node.len()
    &&& d.subrange(34 + m, q) == node
    &&& d[q] == r.requested_tier.ordinal()
    &&& bytes::le_value(d.subrange(q + 1, q + 3)) == t
    &&& d.subrange(q + 3, q + 3 + t) == r.bootstrap_token
    &&& bytes::le_value(d.subrange(q + 3 + t, q + 11 + t)) == r.timestamp_ms
    &&& d.subrange(q + 11 + t, q + 75 + t) == r.signature
}

proof fn lemma_parse(d: Seq<u8>, r: RequestView)
    requires
        starts_with_request(d, r),
    ensures
        parse_request(d) == Ok::<RequestView, SecurityErrorView>(r),
{
    encode_utf8_valid_utf8(r.mesh_id);
    encode_utf8_valid_utf8(r.node_id);
    encode_utf8_decode_utf8(r.mesh_id);
    encode_utf8_decode_utf8(r.node_id);
    let q = 34 + encode_utf8(r.mesh_id).len() + encode_utf8(r.node_id).len();
    certificate::lemma_tier_byte_roundtrip(r.requested_tier, d[q as int]);
    assert(parse_request(d) is Ok);
    assert(parse_request(d)->Ok_0 =~= r);
}

/// The part of the wire format from the tier on, and what follows it.
spec fn request_tail(r: RequestView, rest: Seq<u8>) -> Seq<u8> {
    seq![r.requested_tier.ordinal()] + bytes::le_bytes((r.bootstrap_token.len() % 65536) as nat, 2)
        + r.bootstrap_token + bytes::le_bytes(r.timestamp_ms as nat, 8) + r.signature + rest
}

proof fn lemma_wire_split(r: RequestView, rest: Seq<u8>)
    ensures
        r.wire() + rest == r.subject_public_key + certificate::short_text(r.mesh_id) + certificate::short_text(r.node_id)
            + request_tail(r, rest),
{
    lemma_regroup(
        r.subject_public_key + certificate::short_text(r.mesh_id) + certificate::short_text(r.node_id),
        seq![r.requested_tier.ordinal()],
        bytes::le_bytes((r.bootstrap_token.len() % 65536) as nat, 2),
        r.bootstrap_token,
        bytes::le_bytes(r.timestamp_ms as nat, 8),
        r.signature,
        rest,
    );
}

proof fn lemma_tail_fields(r: RequestView, rest: Seq<u8>)
    requires
        r.fits_wire(),
    ensures
        tail_holds(request_tail(r, rest), r),
{
    let t = r.bootstrap_token.len();
    assert(t % 65536 == t);
    bytes::lemma_le_bytes_len(t, 2);
    bytes::lemma_le_bytes_len(r.timestamp_ms as nat, 8);
    bytes::lemma_pow256_values();
    bytes::lemma_le_value_of_bytes(t, 2);
    bytes::lemma_le_value_of_bytes(r.timestamp_ms as nat, 8);
    lemma_tail(
        r.requested_tier.ordinal(),
        bytes::le_bytes(t, 2),
        r.bootstrap_token,
        bytes::le_bytes(r.timestamp_ms as nat, 8),
        r.signature,
        rest,
    );
}

/// What the part from the tier on holds.
spec fn tail_holds(tail: Seq<u8>, r: RequestView) -> bool {
    let t = r.bootstrap_token.len() as int;
    &&& tail.len() >= 75 + t
    &&& tail[0] == r.requested_tier.ordinal()
    &&& bytes::le_value(tail.subrange(1, 3)) == t
    &&& tail.subrange(3, 3 + t) == r.bootstrap_token
    &&& bytes::le_value(tail.subrange(3 + t, 11 + t)) == r.timestamp_ms
    &&& tail.subrange(11 + t, 75 + t) == r.signature
}

proof fn lemma_assemble(d: Seq<u8>, r: RequestView, mesh: Seq<u8>, node: Seq<u8>, tail: Seq<u8>)
    requires
        r.subject_public_key.len() == 32,
        mesh == encode_utf8(r.mesh_id),
        node == encode_utf8(r.node_id),
        mesh.len() < 256,
        node.len() < 256,
        d == r.subject_public_key + (seq![(mesh.len() % 256) as u8] + mesh) + (seq![(node.len() % 256) as u8] + node)
            + tail,
        tail_holds(tail, r),
    ensures
        starts_with_request(d, r),
{
    let q: int = (34 + mesh.len() + node.len()) as int;
    let t = r.bootstrap_token.len() as int;
    lemma_head(r.subject_public_key, mesh, node, tail);
    assert(d[q] == tail[0]) by {
        assert(d.subrange(q, d.len() as int)[0] == d[q]);
    }
    lemma_subrange_within(d, q, tail, 1, 3);
    lemma_subrange_within(d, q, tail, 3, 3 + t);
    lemma_subrange_within(d, q, tail, 3 + t, 11 + t);
    lemma_subrange_within(d, q, tail, 11 + t, 75 + t);
}

/// Decoding what was encoded gives the request back, whatever follows it.
pub proof fn law_request_decode_of_encode(r: RequestView, rest: Seq<u8>)
    requires
        r.fits_wire(),
    ensures
        parse_request(r.wire() + rest) == Ok::<RequestView, SecurityErrorView>(r),
{
    lemma_wire_split(r, rest);
    lemma_tail_fields(r, rest);
    lemma_assemble(r.wire() + rest, r, encode_utf8(r.mesh_id), encode_utf8(r.node_id), request_tail(r, rest));
    lemma_parse(r.wire() + rest, r);
}

/// What is signed fixes the request but for its signature: changing any other field
/// changes the bytes that the signature is over.
pub proof fn law_signed_bytes_fix_request(a: RequestView, b: RequestView)
    requires
        a.fits_wire(),
        b.fits_wire(),
    ensures
        a.signable() == b.signable() <==> (RequestView { signature: a.signature, ..b }) == a,
{
    let c = RequestView { signature: a.signature, ..b };
    assert(c.signable() == b.signable());
    if a.signable() == b.signable() {
        law_request_decode_of_encode(a, Seq::empty());
        law_request_decode_of_encode(c, Seq::empty());
    }
}

/// Encoding what was decoded gives the bytes back, up to where the request ends.
pub proof fn law_request_encode_of_decode(d: Seq<u8>)
    requires
        parse_request(d) is Ok,
    ensures
        parse_request(d)->Ok_0.fits_wire(),
        parse_request(d)->Ok_0.wire().len() <= d.len(),
        parse_request(d)->Ok_0.wire() == d.subrange(0, parse_request(d)->Ok_0.wire().len() as int),
{
    let r = parse_request(d)->Ok_0;
    let m = d[32] as int;
    let n = d[33 + m] as int;
    let p = 34 + m;
    let q = p + n;
    let len_bytes = d.subrange(q + 1, q + 3);
    let t = bytes::le_value(len_bytes) as int;
    decode_utf8_encode_utf8(d.subrange(33, 33 + m));
    decode_utf8_encode_utf8(d.subrange(p, q));
    let stamp = d.subrange(q + 3 + t, q + 11 + t);
    bytes::lemma_pow256_values();
    bytes::lemma_le_value_bound(len_bytes);
    bytes::lemma_le_value_bound(stamp);
    bytes::lemma_le_bytes_of_value(len_bytes);
    bytes::lemma_le_bytes_of_value(stamp);
    assert(r.bootstrap_token.len() == t);
    assert(r.signable() =~= d.subrange(0, q + 11 + t));
    assert(r.wire() =~= d.subrange(0, q + 75 + t));
}

impl EnrollmentRequest {
    /// Create a new enrollment request.
    pub fn new(
        keypair: &DeviceKeypair,
        mesh_id: String,
        node_id: String,
        requested_tier: MeshTier,
        bootstrap_token: Vec<u8>,
        timestamp_ms: u64,
    ) -> (r: Self)
        ensures
            r@ == (RequestView {
                subject_public_key: keypair.public_key(),
                mesh_id: mesh_id@,
                node_id: node_id@,
                requested_tier,
                bootstrap_token: bootstrap_token@,
                timestamp_ms,
                signature: Seq::new(64, |i: int| 0u8),
            }).signed_by(keypair.secret()),
            r@.verify_outcome() is Ok,
    {
        let mut req = EnrollmentRequest {
            subject_public_key: keypair.public_key_bytes(),
            mesh_id,
            node_id,
            requested_tier,
            bootstrap_token,
            timestamp_ms,
            signature: [0u8; 64],
        };
        assert(req.signature@ =~= Seq::new(64, |i: int| 0u8));
        let ghost before = req@;
        let signable = req.signable_bytes();
        req.signature = keypair.sign(signable.as_slice());
        assert(req@.signable() == before.signable());
        req
    }

    /// Verify the request signature (proves the requester owns the private key).
    pub fn verify_signature(&self) -> (r: Result<(), SecurityError>)
        ensures
            error::outcome(r) == self@.verify_outcome(),
    {
        let signable = self.signable_bytes();
        verify_signed(&self.subject_public_key, signable.as_slice(), &self.signature)
    }

    /// The bytes that are signed (everything except the signature itself).
    pub fn signable_bytes(&self) -> (r: Vec<u8>)
        ensures
            r@ == self@.signable(),
    {
        let mut buf: Vec<u8> = Vec::new();
        push_bytes(&mut buf, self.subject_public_key.as_slice());
        push_short_text(&mut buf, self.mesh_id.as_str());
        push_short_text(&mut buf, self.node_id.as_str());
        buf.push(self.requested_tier.to_byte());
        push_le(&mut buf, (self.bootstrap_token.len() % 65536) as u64, 2);
        push_bytes(&mut buf, self.bootstrap_token.as_slice());
        push_le(&mut buf, self.timestamp_ms, 8);
        assert(buf@ =~= self@.signable());
        buf
    }

    /// Encode to wire format.
    pub fn encode(&self) -> (r: Vec<u8>)
        ensures
            r@ == self@.wire(),
    {
        let mut buf = self.signable_bytes();
        push_bytes(&mut buf, self.signature.as_slice());
        buf
    }

    /// Decode from wire format.
    pub fn decode(data: &[u8]) -> (r: Result<Self, SecurityError>)
        ensures
            error::outcome(r) == parse_request(data@),
    {
        let len: usize = data.len();
        if len < 109 {
            return Err(
                SecurityError::SerializationError(
                    joined3("enrollment request too short: ", decimal_string(len as u64).as_str(), " bytes (min 109)"),
                ),
            );
        }
        let subject_public_key = read_array32(data, 0);
        let mesh_id_len: usize = data[32] as usize;
        if 33 + mesh_id_len + 1 > len {
            return Err(SecurityError::SerializationError("enrollment request truncated at mesh_id".to_owned()));
        }
        let mesh_id = match string_from_utf8(copy_range(data, 33, 33 + mesh_id_len)) {
            Ok(s) => s,
            Err(e) => return Err(SecurityError::SerializationError(joined("invalid mesh_id: ", e.as_str()))),
        };
        let mut pos: usize = 33 + mesh_id_len;
        let node_id_len: usize = data[pos] as usize;
        pos = pos + 1;
        if pos + node_id_len + 3 > len {
            return Err(SecurityError::SerializationError("enrollment request truncated at node_id".to_owned()));
        }
        let node_id = match string_from_utf8(copy_range(data, pos, pos + node_id_len)) {
            Ok(s) => s,
            Err(e) => return Err(SecurityError::SerializationError(joined("invalid node_id: ", e.as_str()))),
        };
        pos = pos + node_id_len;
        let requested_tier = match MeshTier::from_byte(data[pos]) {
            Some(t) => t,
            None => return Err(SecurityError::SerializationError("invalid tier byte".to_owned())),
        };
        pos = pos + 1;
        let token_len: usize = read_le(data, pos, 2) as usize;
        proof {
            bytes::lemma_pow256_values();
            bytes::lemma_le_value_bound(data@.subrange(pos as int, pos + 2));
        }
        pos = pos + 2;
        if pos + token_len + 72 > len {
            return Err(SecurityError::SerializationError("enrollment request truncated at token".to_owned()));
        }
        let bootstrap_token = copy_range(data, pos, pos + token_len);
        pos = pos + token_len;
        let timestamp_ms: u64 = read_le(data, pos, 8);
        let signature = read_array64(data, pos + 8);
        Ok(
            EnrollmentRequest {
                subject_public_key,
                mesh_id,
                node_id,
                requested_tier,
                bootstrap_token,
                timestamp_ms,
                signature,
            },
        )
    }
}

/// Authority's response to an enrollment request.
#[derive(Debug)]
pub struct EnrollmentResponse {
    /// Enrollment decision.
    pub status: EnrollmentStatus,
    /// Signed certificate (present when the status is Approved).
    pub certificate: Option<MeshCertificate>,
    /// Formation secret; only provided on initial enrollment.
    pub formation_secret: Option<Vec<u8>>,
    /// Response timestamp (Unix epoch milliseconds).
    pub timestamp_ms: u64,
}

/// An [`EnrollmentResponse`] in terms of sequences.
pub struct ResponseView {
    pub status: StatusView,
    pub certificate: Option<CertificateView>,
    pub formation_secret: Option<Seq<u8>>,
    pub timestamp_ms: u64,
}

impl View for EnrollmentResponse {
    type V = ResponseView;

    open spec fn view(&self) -> ResponseView {
        ResponseView {
            status: self.status@,
            certificate: match self.certificate {
                Some(c) => Some(c@),
                None => None,
            },
            formation_secret: match self.formation_secret {
                Some(s) => Some(s@),
                None => None,
            },
            timestamp_ms: self.timestamp_ms,
        }
    }
}

/// A refusal for `reason`.
pub open spec fn denied_view(reason: Seq<char>, timestamp_ms: u64) -> ResponseView {
    ResponseView {
        status: StatusView::Denied { reason },
        certificate: None,
        formation_secret: None,
        timestamp_ms,
    }
}

impl EnrollmentResponse {
    /// Create an approval response with a signed certificate.
    pub fn approved(certificate: MeshCertificate, formation_secret: Option<Vec<u8>>, timestamp_ms: u64) -> (r: Self)
        ensures
            r@ == (ResponseView {
                status: StatusView::Approved,
                certificate: Some(certificate@),
                formation_secret: match formation_secret {
                    Some(s) => Some(s@),
                    None => None,
                },
                timestamp_ms,
            }),
    {
        EnrollmentResponse {
            status: EnrollmentStatus::Approved,
            certificate: Some(certificate),
            formation_secret,
            timestamp_ms,
        }
    }

    /// Create a denial response.
    pub fn denied(reason: String, timestamp_ms: u64) -> (r: Self)
        ensures
            r@ == denied_view(reason@, timestamp_ms),
    {
        EnrollmentResponse {
            status: EnrollmentStatus::Denied { reason },
            certificate: None,
            formation_secret: None,
            timestamp_ms,
        }
    }

    /// Create a pending response (request acknowledged, awaiting decision).
    pub fn pending(timestamp_ms: u64) -> (r: Self)
        ensures
            r@ == (ResponseView {
                status: StatusView::Pending,
                certificate: None,
                formation_secret: None,
                timestamp_ms,
            }),
    {
        EnrollmentResponse {
            status: EnrollmentStatus::Pending,
            certificate: None,
            formation_secret: None,
            timestamp_ms,
        }
    }
}

/// Enrollment service backends: they validate bootstrap tokens, issue
/// certificates and track enrollment status.
pub trait EnrollmentService {
    /// Process an enrollment request: verify its signature, validate its token,
    /// and issue a certificate, or deny, or leave it pending.
    fn process_request(&self, request: &EnrollmentRequest) -> Result<EnrollmentResponse, SecurityError>;

    /// Check the enrollment status for a public key.
    fn check_status(&self, subject_key: &[u8; 32]) -> Result<EnrollmentStatus, SecurityError>;

    /// Revoke an enrollment (invalidate the certificate).
    fn revoke(&self, subject_key: &[u8; 32], reason: String) -> Result<(), SecurityError>;
}

/// A static enrollment service that approves pre-provisioned nodes.
///
/// Bootstrap tokens are checked against a pre-configured list.
pub struct StaticEnrollmentService {
    authority: DeviceKeypair,
    mesh_id: String,
    allowed_tokens: VecMap<Vec<u8>, (MeshTier, u8)>,
    validity_ms: u64,
}

/// What a [`StaticEnrollmentService`] was set up with.
pub struct ServiceView {
    /// The authority's secret key.
    pub authority: Seq<u8>,
    /// The mesh that certificates are issued for.
    pub mesh_id: Seq<char>,
    /// The tier and the permissions that each token grants.
    pub tokens: Map<Seq<u8>, (MeshTier, u8)>,
    /// How long a certificate is valid.
    pub validity_ms: u64,
}

impl View for StaticEnrollmentService {
    type V = ServiceView;

    closed spec fn view(&self) -> ServiceView {
        ServiceView {
            authority: self.authority.secret(),
            mesh_id: self.mesh_id@,
            tokens: self.allowed_tokens@,
            validity_ms: self.validity_ms,
        }
    }
}

impl ServiceView {
    /// The certificate that is issued to a request with this grant.
    pub open spec fn issued(self, r: RequestView, grant: (MeshTier, u8), now_ms: u64) -> CertificateView {
        CertificateView {
            subject_public_key: r.subject_public_key,
            mesh_id: self.mesh_id,
            node_id: r.node_id,
            tier: grant.0,
            permissions: grant.1,
            issued_at_ms: now_ms,
            expires_at_ms: ((now_ms + self.validity_ms) % 0x1_0000_0000_0000_0000) as u64,
            issuer_public_key: crypto::ed25519_public_key(self.authority),
            signature: Seq::new(64, |i: int| 0u8),
        }.signed_by(self.authority)
    }

    /// The answer to a request at a given time.
    pub open spec fn decision(self, r: RequestView, now_ms: u64) -> Result<ResponseView, SecurityErrorView> {
        if r.verify_outcome() is Err {
            Err(r.verify_outcome()->Err_0)
        } else if r.mesh_id != self.mesh_id {
            Ok(
                denied_view(
                    "mesh ID mismatch: expected "@ + self.mesh_id + ", got "@ + r.mesh_id,
                    r.timestamp_ms,
                ),
            )
        } else if !self.tokens.contains_key(r.bootstrap_token) {
            Ok(denied_view("invalid bootstrap token"@, r.timestamp_ms))
        } else {
            Ok(
                ResponseView {
                    status: StatusView::Approved,
                    certificate: Some(self.issued(r, self.tokens[r.bootstrap_token], now_ms)),
                    formation_secret: None,
                    timestamp_ms: now_ms,
                },
            )
        }
    }
}

impl StaticEnrollmentService {
    /// Create a new static enrollment service.
    pub fn new(authority: DeviceKeypair, mesh_id: String, validity_ms: u64) -> (r: Self)
        ensures
            r@ == (ServiceView {
                authority: authority.secret(),
                mesh_id: mesh_id@,
                tokens: Map::empty(),
                validity_ms,
            }),
    {
        StaticEnrollmentService { authority, mesh_id, allowed_tokens: VecMap::new(), validity_ms }
    }

    /// Register a valid bootstrap token with associated tier and permissions.
    pub fn add_token(&mut self, token: Vec<u8>, tier: MeshTier, permissions: u8)
        ensures
            final(self)@ == (ServiceView {
                tokens: old(self)@.tokens.insert(token@, (tier, permissions)),
                ..old(self)@
            }),
    {
        self.allowed_tokens.insert(token, (tier, permissions));
    }

    /// Processes a request that arrives at `now_ms`. The expiration of the
    /// certificate wraps where it would pass the last millisecond that a `u64`
    /// can tell.
    pub fn process_request_at(&self, request: &EnrollmentRequest, now_ms: u64) -> (r: Result<
        EnrollmentResponse,
        SecurityError,
    >)
        ensures
            error::outcome(r) == self@.decision(request@, now_ms),
            r is Ok && r->Ok_0.certificate is Some ==> r->Ok_0.certificate->Some_0@.verify_outcome() is Ok,
    {
        match request.verify_signature() {
            Ok(()) => {},
            Err(e) => return Err(e),
        }
        if request.mesh_id != self.mesh_id {
            let mut reason = joined("mesh ID mismatch: expected ", self.mesh_id.as_str());
            push_text(&mut reason, ", got ");
            push_text(&mut reason, request.mesh_id.as_str());
            return Ok(EnrollmentResponse::denied(reason, request.timestamp_ms));
        }
        match self.allowed_tokens.get(&request.bootstrap_token) {
            Some(grant) => {
                let cert = MeshCertificate::new(
                    request.subject_public_key,
                    self.mesh_id.clone(),
                    request.node_id.clone(),
                    grant.0,
                    grant.1,
                    now_ms,
                    now_ms.wrapping_add(self.validity_ms),
                    self.authority.public_key_bytes(),
                ).signed(&self.authority);
                Ok(EnrollmentResponse::approved(cert, None, now_ms))
            },
            None => Ok(EnrollmentResponse::denied("invalid bootstrap token".to_owned(), request.timestamp_ms)),
        }
    }
}

impl EnrollmentService for StaticEnrollmentService {
    fn process_request(&self, request: &EnrollmentRequest) -> (r: Result<EnrollmentResponse, SecurityError>)
        ensures
            exists|now_ms: u64| error::outcome(r) == #[trigger] self@.decision(request@, now_ms),
            r is Ok && r->Ok_0.certificate is Some ==> r->Ok_0.certificate->Some_0@.verify_outcome() is Ok,
    {
        let now: u64 = clock::now_ms();
        self.process_request_at(request, now)
    }

    /// A static service keeps no state: always pending until a request comes.
    fn check_status(&self, _subject_key: &[u8; 32]) -> (r: Result<EnrollmentStatus, SecurityError>)
        ensures
            r is Ok,
            r->Ok_0 is Pending,
    {
        Ok(EnrollmentStatus::Pending)
    }

    /// A static service keeps no revocations.
    fn revoke(&self, _subject_key: &[u8; 32], _reason: String) -> (r: Result<(), SecurityError>)
        ensures
            r is Err,
            r->Err_0@ == SecurityErrorView::Internal("static enrollment service does not support revocation"@),
    {
        Err(SecurityError::Internal("static enrollment service does not support revocation".to_owned()))
    }
}

/// A request is approved exactly if its signature verifies, it names the
/// service's mesh and its token is registered; the certificate then carries the
/// requester's key and name and what the token grants.
pub proof fn law_approval(s: ServiceView, r: RequestView, now_ms: u64)
    ensures
        (s.decision(r, now_ms) is Ok && s.decision(r, now_ms)->Ok_0.status is Approved) <==> r.verify_outcome() is Ok
            && r.mesh_id == s.mesh_id && s.tokens.contains_key(r.bootstrap_token),
        s.decision(r, now_ms) is Ok ==> (s.decision(r, now_ms)->Ok_0.status is Approved <==> s.decision(
            r,
            now_ms,
        )->Ok_0.certificate is Some),
        s.decision(r, now_ms) is Ok && s.decision(r, now_ms)->Ok_0.status is Approved ==> {
            let c = s.decision(r, now_ms)->Ok_0.certificate->Some_0;
            let grant = s.tokens[r.bootstrap_token];
            &&& c.subject_public_key == r.subject_public_key
            &&& c.node_id == r.node_id
            &&& c.mesh_id == s.mesh_id
            &&& c.tier == grant.0
            &&& c.permissions == grant.1
            &&& c.issued_at_ms == now_ms
            &&& c.issuer_public_key == crypto::ed25519_public_key(s.authority)
        },
{
}

/// A certificate that an approval carries, and that verifies, is accepted by
/// every bundle that trusts the authority.
pub proof fn law_approved_is_admitted(s: ServiceView, r: RequestView, now_ms: u64, b: bundle::BundleView)
    requires
        s.decision(r, now_ms) is Ok,
        s.decision(r, now_ms)->Ok_0.status is Approved,
        s.decision(r, now_ms)->Ok_0.certificate->Some_0.verify_outcome() is Ok,
        b.authorities.contains(crypto::ed25519_public_key(s.authority)),
    ensures
        b.admission(s.decision(r, now_ms)->Ok_0.certificate->Some_0) is Ok,
{
}

} // verus!
