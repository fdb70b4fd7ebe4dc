//! Mesh-layer peer certificates.
//!
//! An authority signs certificates that bind a node's public key to a mesh, a
//! node name, a tier, permissions and a validity window.

use vstd::prelude::*;
use vstd::string::*;
use vstd::utf8::*;

use crate::bytes;
use crate::bytes::{bytes_eq, copy_range, push_bytes, push_le, read_array32, read_array64, read_le};
use crate::security::crypto;
use crate::security::error;
use crate::security::error::{joined, joined3, SecurityError, SecurityErrorView};
use crate::security::keypair;
use crate::security::keypair::{verify_signed, DeviceKeypair};
use crate::security::permissions;
use crate::text;
use crate::text::{decimal_string, normalize_name, string_from_utf8, text_eq};

verus! {

/// Tier classification for mesh nodes. Lower tiers have more trust and more
/// resources.
#[derive(Clone, Copy, Debug, PartialEq, Eq, Hash, Ord, Structural)]
pub enum MeshTier {
    /// Tier 0: enterprise data center, source of truth.
    Enterprise,
    /// Tier 1: regional hub, caches from enterprise.
    Regional,
    /// Tier 2: tactical node, intermittent connectivity.
    Tactical,
    /// Tier 3: edge device, minimal storage.
    Edge,
}

/// The tier whose small-letter name is `name`.
pub open spec fn tier_named(name: Seq<char>) -> Option<MeshTier> {
    if name == "enterprise"@ {
        Some(MeshTier::Enterprise)
    } else if name == "regional"@ {
        Some(MeshTier::Regional)
    } else if name == "tactical"@ {
        Some(MeshTier::Tactical)
    } else if name == "edge"@ {
        Some(MeshTier::Edge)
    } else {
        None
    }
}

/// The tier that a byte stands for.
pub open spec fn tier_of_byte(b: u8) -> Option<MeshTier> {
    if b == 0 {
        Some(MeshTier::Enterprise)
    } else if b == 1 {
        Some(MeshTier::Regional)
    } else if b == 2 {
        Some(MeshTier::Tactical)
    } else if b == 3 {
        Some(MeshTier::Edge)
    } else {
        None
    }
}

impl MeshTier {
    /// The place of the tier in the hierarchy.
    pub open spec fn ordinal(self) -> u8 {
        match self {
            MeshTier::Enterprise => 0,
            MeshTier::Regional => 1,
            MeshTier::Tactical => 2,
            MeshTier::Edge => 3,
        }
    }

    /// The name of the tier.
    pub open spec fn name(self) -> Seq<char> {
        match self {
            MeshTier::Enterprise => "Enterprise"@,
            MeshTier::Regional => "Regional"@,
            MeshTier::Tactical => "Tactical"@,
            MeshTier::Edge => "Edge"@,
        }
    }

    /// Parse from a string, in any case and with white space around it.
    pub fn from_str_name(s: &str) -> (r: Option<Self>)
        ensures
            r == tier_named(text::normalized_name(s@)),
            is_ascii_chars(text::trim_text(s@)) ==> r == tier_named(text::ascii_lower(text::trim_text(s@))),
    {
        let name = normalize_name(s);
        if text_eq(name.as_str(), "enterprise") {
            Some(MeshTier::Enterprise)
        } else if text_eq(name.as_str(), "regional") {
            Some(MeshTier::Regional)
        } else if text_eq(name.as_str(), "tactical") {
            Some(MeshTier::Tactical)
        } else if text_eq(name.as_str(), "edge") {
            Some(MeshTier::Edge)
        } else {
            None
        }
    }

    /// Get the tier name as a string.
    pub fn as_str(&self) -> (r: &'static str)
        ensures
            r@ == self.name(),
    {
        match self {
            MeshTier::Enterprise => "Enterprise",
            MeshTier::Regional => "Regional",
            MeshTier::Tactical => "Tactical",
            MeshTier::Edge => "Edge",
        }
    }

    /// Encode as a single byte.
    pub fn to_byte(self) -> (r: u8)
        ensures
            r == self.ordinal(),
    {
        match self {
            MeshTier::Enterprise => 0,
            MeshTier::Regional => 1,
            MeshTier::Tactical => 2,
            MeshTier::Edge => 3,
        }
    }

    /// Decode from a single byte.
    pub fn from_byte(b: u8) -> (r: Option<Self>)
        ensures
            r == tier_of_byte(b),
    {
        match b {
            0 => Some(MeshTier::Enterprise),
            1 => Some(MeshTier::Regional),
            2 => Some(MeshTier::Tactical),
            3 => Some(MeshTier::Edge),
            _ => None,
        }
    }
}

/// A byte decodes to a tier exactly if the tier encodes to that byte.
pub proof fn lemma_tier_byte_roundtrip(tier: MeshTier, b: u8)
    ensures
        tier_of_byte(tier.ordinal()) == Some(tier),
        tier_of_byte(b) == Some(tier) <==> b == tier.ordinal(),
{
}

/// A signed certificate binding a public key to mesh membership.
///
/// Wire format (integers are little-endian):
/// ```text
/// [subject_pubkey:32][mesh_id_len:1][mesh_id:N][node_id_len:1][node_id:M]
/// [tier:1][permissions:1][issued_at:8][expires_at:8][issuer_pubkey:32][signature:64]
/// ```
/// Minimum size: 148 bytes (with empty mesh_id and node_id).
#[derive(Debug)]
pub struct MeshCertificate {
    /// Subject's Ed25519 public key (the node this certificate is issued to).
    pub subject_public_key: [u8; 32],
    /// Mesh/formation identifier.
    pub mesh_id: String,
    /// Node identifier within the mesh (the discovery hostname).
    pub node_id: String,
    /// Node's tier in the distribution hierarchy.
    pub tier: MeshTier,
    /// Permission flags.
    pub permissions: u8,
    /// Issuance time (Unix epoch milliseconds).
    pub issued_at_ms: u64,
    /// Expiration time (Unix epoch milliseconds). 0 = no expiration.
    pub expires_at_ms: u64,
    /// Issuer's (authority's) Ed25519 public key.
    pub issuer_public_key: [u8; 32],
    /// Ed25519 signature over the signable portion of the certificate.
    pub signature: [u8; 64],
}

/// A [`MeshCertificate`] in terms of sequences.
#[verifier::ext_equal]
pub struct CertificateView {
    pub subject_public_key: Seq<u8>,
    pub mesh_id: Seq<char>,
    pub node_id: Seq<char>,
    pub tier: MeshTier,
    pub permissions: u8,
    pub issued_at_ms: u64,
    pub expires_at_ms: u64,
    pub issuer_public_key: Seq<u8>,
    pub signature: Seq<u8>,
}

impl Clone for MeshCertificate {
    fn clone(&self) -> (r: Self)
        ensures
            r@ == self@,
    {
        MeshCertificate {
            subject_public_key: self.subject_public_key,
            mesh_id: self.mesh_id.clone(),
            node_id: self.node_id.clone(),
            tier: self.tier,
            permissions: self.permissions,
            issued_at_ms: self.issued_at_ms,
            expires_at_ms: self.expires_at_ms,
            issuer_public_key: self.issuer_public_key,
            signature: self.signature,
        }
    }
}

impl View for MeshCertificate {
    type V = CertificateView;

    open spec fn view(&self) -> CertificateView {
        CertificateView {
            subject_public_key: self.subject_public_key@,
            mesh_id: self.mesh_id@,
            node_id: self.node_id@,
            tier: self.tier,
            permissions: self.permissions,
            issued_at_ms: self.issued_at_ms,
            expires_at_ms: self.expires_at_ms,
            issuer_public_key: self.issuer_public_key@,
            signature: self.signature@,
        }
    }
}

/// A text on the wire: one byte for its length, which wraps at 256, then its
/// UTF-8 bytes.
pub open spec fn short_text(t: Seq<char>) -> Seq<u8> {
    seq![(encode_utf8(t).len() % 256) as u8] + encode_utf8(t)
}

impl CertificateView {
    /// The certificate with another signature.
    pub open spec fn with_signature(self, signature: Seq<u8>) -> CertificateView {
        CertificateView { signature, ..self }
    }

    /// The part of the wire format between the two texts and the signature.
    pub open spec fn fixed_part(self) -> Seq<u8> {
        seq![self.tier.ordinal(), self.permissions] + bytes::le_bytes(self.issued_at_ms as nat, 8)
            + bytes::le_bytes(self.expires_at_ms as nat, 8) + self.issuer_public_key
    }

    /// The bytes that are signed: everything except the signature itself.
    pub open spec fn signable(self) -> Seq<u8> {
        self.subject_public_key + short_text(self.mesh_id) + short_text(self.node_id) + self.fixed_part()
    }

    /// The wire format.
    pub open spec fn wire(self) -> Seq<u8> {
        self.signable() + self.signature
    }

    /// What a check of the signature against the issuer's key says.
    pub open spec fn verify_outcome(self) -> Result<(), SecurityErrorView> {
        keypair::signature_outcome(self.issuer_public_key, self.signable(), self.signature)
    }

    /// The certificate with the signature of `secret` over it.
    pub open spec fn signed_by(self, secret: Seq<u8>) -> CertificateView {
        self.with_signature(crypto::ed25519_signature(secret, self.signable()))
    }

    /// Whether the certificate names its subject as its issuer.
    pub open spec fn is_root(self) -> bool {
        self.subject_public_key == self.issuer_public_key
    }

    /// The milliseconds left until expiration: none once it has come, and all
    /// there can be where no expiration is set.
    pub open spec fn remaining_ms(self, now_ms: u64) -> u64 {
        if self.expires_at_ms == 0 {
            u64::MAX
        } else if now_ms < self.expires_at_ms {
            (self.expires_at_ms - now_ms) as u64
        } else {
            0
        }
    }

    /// Whether the keys and the signature have their lengths and the two texts
    /// fit the length bytes of the wire format.
    pub open spec fn fits_wire(self) -> bool {
        &&& self.subject_public_key.len() == 32
        &&& self.issuer_public_key.len() == 32
        &&& self.signature.len() == 64
        &&& encode_utf8(self.mesh_id).len() < 256
        &&& encode_utf8(self.node_id).len() < 256
    }

    /// Whether the certificate carries all of some permissions.
    pub open spec fn permits(self, perm: u8) -> bool {
        self.permissions & perm == perm
    }

    /// Whether `now_ms` lies in the validity window.
    pub open spec fn valid_at(self, now_ms: u64) -> bool {
        self.issued_at_ms <= now_ms && (self.expires_at_ms == 0 || now_ms < self.expires_at_ms)
    }

    /// Whether the certificate has expired at `now_ms`.
    pub open spec fn expired_at(self, now_ms: u64) -> bool {
        self.expires_at_ms != 0 && self.expires_at_ms <= now_ms
    }
}

pub open spec fn malformed<T>(text: Seq<char>) -> Result<T, SecurityErrorView> {
    Err(SecurityErrorView::SerializationError(text))
}

/// The certificate that `d` starts with, or what is wrong with `d`. Bytes after
/// the certificate are ignored.
pub open spec fn parse_certificate(d: Seq<u8>) -> Result<CertificateView, SecurityErrorView> {
    let m = d[32] as int;
    let mesh_id = d.subrange(33, 33 + m);
    let n = d[33 + m] as int;
    let p = 34 + m;
    let node_id = d.subrange(p, p + n);
    let q = p + n;
    if d.len() < 148 {
        malformed("certificate too short: "@ + text::decimal(d.len()) + " bytes (min 148)"@)
    } else if 33 + m >= d.len() {
        malformed("certificate truncated at mesh_id"@)
    } else if !valid_utf8(mesh_id) {
        malformed("invalid mesh_id: "@ + text::utf8_error_text(mesh_id))
    } else if q + 114 > d.len() {
        malformed("certificate truncated at node_id"@)
    } else if !valid_utf8(node_id) {
        malformed("invalid node_id: "@ + text::utf8_error_text(node_id))
    } else if tier_of_byte(d[q]) is None {
        malformed("invalid tier byte"@)
    } else {
        Ok(
            CertificateView {
                subject_public_key: d.subrange(0, 32),
                mesh_id: decode_utf8(mesh_id),
                node_id: decode_utf8(node_id),
                tier: tier_of_byte(d[q])->Some_0,
                permissions: d[q + 1],
                issued_at_ms: bytes::le_value(d.subrange(q + 2, q + 10)) as u64,
                expires_at_ms: bytes::le_value(d.subrange(q + 10, q + 18)) as u64,
                issuer_public_key: d.subrange(q + 18, q + 50),
                signature: d.subrange(q + 50, q + 114),
            },
        )
    }
}

/// Decoding what was encoded gives the certificate back, whatever follows it.
pub proof fn law_decode_of_encode(c: CertificateView, rest: Seq<u8>)
    requires
        c.fits_wire(),
    ensures
        parse_certificate(c.wire() + rest) == Ok::<CertificateView, SecurityErrorView>(c),
{
    let d = c.wire() + rest;
    let mesh = encode_utf8(c.mesh_id);
    let node = encode_utf8(c.node_id);
    let m = mesh.len() as int;
    let n = node.len() as int;
    let q = 34 + m + n;
    bytes::lemma_le_bytes_len(c.issued_at_ms as nat, 8);
    bytes::lemma_le_bytes_len(c.expires_at_ms as nat, 8);
    assert(d.len() >= 148 + m + n);
    assert(d[32] == m as u8);
    assert(d.subrange(33, 33 + m) =~= mesh);
    assert(d[33 + m] == n as u8);
    assert(d.subrange(34 + m, q) =~= node);
    encode_utf8_valid_utf8(c.mesh_id);
    encode_utf8_valid_utf8(c.node_id);
    encode_utf8_decode_utf8(c.mesh_id);
    encode_utf8_decode_utf8(c.node_id);
    assert(d[q] == c.tier.ordinal());
    lemma_tier_byte_roundtrip(c.tier, d[q]);
    assert(d[q + 1] == c.permissions);
    assert(d.subrange(q + 2, q + 10) =~= bytes::le_bytes(c.issued_at_ms as nat, 8));
    assert(d.subrange(q + 10, q + 18) =~= bytes::le_bytes(c.expires_at_ms as nat, 8));
    bytes::lemma_pow256_values();
    bytes::lemma_le_value_of_bytes(c.issued_at_ms as nat, 8);
    bytes::lemma_le_value_of_bytes(c.expires_at_ms as nat, 8);
    assert(d.subrange(q + 18, q + 50) =~= c.issuer_public_key);
    assert(d.subrange(q + 50, q + 114) =~= c.signature);
    assert(d.subrange(0, 32) =~= c.subject_public_key);
}

/// Encoding what was decoded gives the bytes back, up to where the certificate
/// ends.
pub proof fn law_encode_of_decode(d: Seq<u8>)
    requires
        parse_certificate(d) is Ok,
    ensures
        parse_certificate(d)->Ok_0.fits_wire(),
        parse_certificate(d)->Ok_0.wire().len() <= d.len(),
        parse_certificate(d)->Ok_0.wire() == d.subrange(0, parse_certificate(d)->Ok_0.wire().len() as int),
{
    let c = parse_certificate(d)->Ok_0;
    let m = d[32] as int;
    let n = d[33 + m] as int;
    let p = 34 + m;
    let q = p + n;
    let mesh = d.subrange(33, 33 + m);
    let node = d.subrange(p, q);
    decode_utf8_encode_utf8(mesh);
    decode_utf8_encode_utf8(node);
    let issued = d.subrange(q + 2, q + 10);
    let expires = d.subrange(q + 10, q + 18);
    bytes::lemma_pow256_values();
    bytes::lemma_le_value_bound(issued);
    bytes::lemma_le_value_bound(expires);
    bytes::lemma_le_bytes_of_value(issued);
    bytes::lemma_le_bytes_of_value(expires);
    assert(c.signable() =~= d.subrange(0, q + 50));
    assert(c.wire() =~= d.subrange(0, q + 114));
}

/// Two certificates with the same bytes on the wire are the same, where both fit
/// the format.
pub proof fn law_wire_injective(a: CertificateView, b: CertificateView)
    requires
        a.fits_wire(),
        b.fits_wire(),
        a.wire() == b.wire(),
    ensures
        a == b,
{
    law_decode_of_encode(a, Seq::empty());
    law_decode_of_encode(b, Seq::empty());
}

/// What is signed fixes the certificate but for its signature: changing any other field
/// changes the bytes that the signature is over.
pub proof fn law_signed_bytes_fix_certificate(a: CertificateView, b: CertificateView)
    requires
        a.fits_wire(),
        b.fits_wire(),
    ensures
        a.signable() == b.signable() <==> b.with_signature(a.signature) == a,
{
    let c = b.with_signature(a.signature);
    assert(c.signable() == b.signable());
    if a.signable() == b.signable() {
        law_wire_injective(a, c);
    }
}

/// A valid certificate has time left, time runs out exactly at the expiration,
/// and without one a certificate stays valid once issued.
pub proof fn law_remaining_time(c: CertificateView, now_ms: u64)
    ensures
        c.valid_at(now_ms) ==> c.remaining_ms(now_ms) > 0,
        c.remaining_ms(now_ms) == 0 <==> c.expires_at_ms != 0 && now_ms >= c.expires_at_ms,
        c.expires_at_ms == 0 && now_ms >= c.issued_at_ms ==> c.valid_at(now_ms),
{
}

/// Every name of a tier reads back as the tier, in small letters too.
pub proof fn law_tier_name_roundtrip(tier: MeshTier)
    ensures
        is_ascii_chars(tier.name()),
        tier_named(text::ascii_lower(text::trim_text(tier.name()))) == Some(tier),
{
    reveal_strlit("Enterprise");
    reveal_strlit("Regional");
    reveal_strlit("Tactical");
    reveal_strlit("Edge");
    reveal_strlit("enterprise");
    reveal_strlit("regional");
    reveal_strlit("tactical");
    reveal_strlit("edge");
    assert(text::trim_text(tier.name()) =~= tier.name());
    match tier {
        MeshTier::Enterprise => {
            assert(text::ascii_lower("Enterprise"@) =~= "enterprise"@);
        },
        MeshTier::Regional => {
            assert(text::ascii_lower("Regional"@) =~= "regional"@);
            assert("regional"@.len() != "enterprise"@.len());
        },
        MeshTier::Tactical => {
            assert(text::ascii_lower("Tactical"@) =~= "tactical"@);
            assert("tactical"@[0] != "regional"@[0]);
            assert("tactical"@.len() != "enterprise"@.len());
        },
        MeshTier::Edge => {
            assert(text::ascii_lower("Edge"@) =~= "edge"@);
            assert("edge"@.len() != "enterprise"@.len());
            assert("edge"@.len() != "regional"@.len());
            assert("edge"@.len() != "tactical"@.len());
        },
    }
}

pub(crate) fn push_short_text(buf: &mut Vec<u8>, t: &str)
    ensures
        final(buf)@ == old(buf)@ + short_text(t@),
{
    let raw = t.as_bytes();
    buf.push((raw.len() % 256) as u8);
    push_bytes(buf, raw);
    assert(buf@ =~= old(buf)@ + short_text(t@));
}

impl MeshCertificate {
    /// Create a new unsigned certificate.
    pub fn new(
        subject_public_key: [u8; 32],
        mesh_id: String,
        node_id: String,
        tier: MeshTier,
        permissions: u8,
        issued_at_ms: u64,
        expires_at_ms: u64,
        issuer_public_key: [u8; 32],
    ) -> (r: Self)
        ensures
            r@ == (CertificateView {
                subject_public_key: subject_public_key@,
                mesh_id: mesh_id@,
                node_id: node_id@,
                tier,
                permissions,
                issued_at_ms,
                expires_at_ms,
                issuer_public_key: issuer_public_key@,
                signature: Seq::new(64, |i: int| 0u8),
            }),
    {
        let r = MeshCertificate {
            subject_public_key,
            mesh_id,
            node_id,
            tier,
            permissions,
            issued_at_ms,
            expires_at_ms,
            issuer_public_key,
            signature: [0u8; 64],
        };
        assert(r.signature@ =~= Seq::new(64, |i: int| 0u8));
        r
    }

    /// Create a self-signed root (authority) certificate.
    pub fn new_root(
        authority: &DeviceKeypair,
        mesh_id: String,
        node_id: String,
        tier: MeshTier,
        issued_at_ms: u64,
        expires_at_ms: u64,
    ) -> (r: Self)
        ensures
            r@ == (CertificateView {
                subject_public_key: authority.public_key(),
                mesh_id: mesh_id@,
                node_id: node_id@,
                tier,
                permissions: permissions::AUTHORITY,
                issued_at_ms,
                expires_at_ms,
                issuer_public_key: authority.public_key(),
                signature: Seq::new(64, |i: int| 0u8),
            }).signed_by(authority.secret()),
            r@.is_root(),
            r@.verify_outcome() is Ok,
    {
        let pubkey = authority.public_key_bytes();
        let mut cert = Self::new(
            pubkey,
            mesh_id,
            node_id,
            tier,
            permissions::AUTHORITY,
            issued_at_ms,
            expires_at_ms,
            pubkey,
        );
        cert.sign_with(authority);
        cert
    }

    /// Sign the certificate in place with the given keypair.
    pub fn sign_with(&mut self, issuer: &DeviceKeypair)
        ensures
            final(self)@ == old(self)@.signed_by(issuer.secret()),
            old(self)@.issuer_public_key == issuer.public_key() ==> final(self)@.verify_outcome() is Ok,
    {
        let signable = self.signable_bytes();
        let ghost before = self@;
        let sig = issuer.sign(signable.as_slice());
        self.signature = sig;
        assert(self@.signable() == before.signable());
    }

    /// Return a signed copy (builder pattern).
    pub fn signed(self, issuer: &DeviceKeypair) -> (r: Self)
        ensures
            r@ == self@.signed_by(issuer.secret()),
            self@.issuer_public_key == issuer.public_key() ==> r@.verify_outcome() is Ok,
    {
        let mut cert = self;
        cert.sign_with(issuer);
        cert
    }

    /// Verify the certificate's signature against the issuer public key.
    pub fn verify(&self) -> (r: Result<(), SecurityError>)
        ensures
            error::outcome(r) == self@.verify_outcome(),
    {
        let signable = self.signable_bytes();
        verify_signed(&self.issuer_public_key, signable.as_slice(), &self.signature)
    }

    /// Check if this is a self-signed root certificate.
    pub fn is_root(&self) -> (r: bool)
        ensures
            r == self@.is_root(),
    {
        bytes_eq(self.subject_public_key.as_slice(), self.issuer_public_key.as_slice())
    }

    /// Check if the certificate is valid at the given time.
    pub fn is_valid(&self, now_ms: u64) -> (r: bool)
        ensures
            r == self@.valid_at(now_ms),
    {
        now_ms >= self.issued_at_ms && (self.expires_at_ms == 0 || now_ms < self.expires_at_ms)
    }

    /// Check if a specific permission is set.
    pub fn has_permission(&self, perm: u8) -> (r: bool)
        ensures
            r == (self.permissions & perm == perm),
            r == self@.permits(perm),
    {
        self.permissions & perm == perm
    }

    /// Milliseconds remaining until expiration: 0 once expired, `u64::MAX` where
    /// there is no expiration.
    pub fn time_remaining_ms(&self, now_ms: u64) -> (r: u64)
        ensures
            r == self@.remaining_ms(now_ms),
    {
        if self.expires_at_ms == 0 {
            return u64::MAX;
        }
        self.expires_at_ms.saturating_sub(now_ms)
    }

    /// The bytes that are signed (everything except the signature itself).
    pub fn signable_bytes(&self) -> (r: Vec<u8>)
        ensures
            r@ == self@.signable(),
    {
        let mut buf: Vec<u8> = Vec::new();
        push_bytes(&mut buf, self.subject_public_key.as_slice());
        push_short_text(&mut buf, self.mesh_id.as_str());
        push_short_text(&mut buf, self.node_id.as_str());
        buf.push(self.tier.to_byte());
        buf.push(self.permissions);
        push_le(&mut buf, self.issued_at_ms, 8);
        push_le(&mut buf, self.expires_at_ms, 8);
        push_bytes(&mut buf, self.issuer_public_key.as_slice());
        assert(buf@ =~= self@.signable());
        buf
    }

    /// Encode to wire format.
    pub fn encode(&self) -> (r: Vec<u8>)
        ensures
            r@ == self@.wire(),
    {
        let mut buf = self.signable_bytes();
        push_bytes(&mut buf, self.signature.as_slice());
        buf
    }

    /// Decode from wire format.
    pub fn decode(data: &[u8]) -> (r: Result<Self, SecurityError>)
        ensures
            error::outcome(r) == parse_certificate(data@),
    {
        let len: usize = data.len();
        if len < 148 {
            return Err(
                SecurityError::SerializationError(
                    joined3("certificate too short: ", decimal_string(len as u64).as_str(), " bytes (min 148)"),
                ),
            );
        }
        let subject_public_key = read_array32(data, 0);
        let mesh_id_len: usize = data[32] as usize;
        if 33 + mesh_id_len >= len {
            return Err(SecurityError::SerializationError("certificate truncated at mesh_id".to_owned()));
        }
        let mesh_id = match string_from_utf8(copy_range(data, 33, 33 + mesh_id_len)) {
            Ok(s) => s,
            Err(e) => return Err(SecurityError::SerializationError(joined("invalid mesh_id: ", e.as_str()))),
        };
        let mut pos: usize = 33 + mesh_id_len;
        let node_id_len: usize = data[pos] as usize;
        pos = pos + 1;
        if pos + node_id_len + 114 > len {
            return Err(SecurityError::SerializationError("certificate truncated at node_id".to_owned()));
        }
        let node_id = match string_from_utf8(copy_range(data, pos, pos + node_id_len)) {
            Ok(s) => s,
            Err(e) => return Err(SecurityError::SerializationError(joined("invalid node_id: ", e.as_str()))),
        };
        pos = pos + node_id_len;
        let tier = match MeshTier::from_byte(data[pos]) {
            Some(t) => t,
            None => return Err(SecurityError::SerializationError("invalid tier byte".to_owned())),
        };
        let permissions: u8 = data[pos + 1];
        let issued_at_ms: u64 = read_le(data, pos + 2, 8);
        let expires_at_ms: u64 = read_le(data, pos + 10, 8);
        let issuer_public_key = read_array32(data, pos + 18);
        let signature = read_array64(data, pos + 50);
        Ok(
            MeshCertificate {
                subject_public_key,
                mesh_id,
                node_id,
                tier,
                permissions,
                issued_at_ms,
                expires_at_ms,
                issuer_public_key,
                signature,
            },
        )
    }
}

} // verus!
