//! The genesis of a mesh formation.
//!
//! A mesh starts from a name and a 256-bit seed. Its identifier, its formation
//! secret and its authority keypair are derived from them by HKDF-SHA256 in
//! distinct contexts.

use vstd::prelude::*;
use vstd::string::*;
use vstd::utf8::*;

use crate::bytes;
use crate::bytes::{copy_range, push_bytes, push_le, read_array32, read_le};
use crate::clock;
use crate::security::bundle;
use crate::security::certificate;
use crate::security::certificate::{CertificateView, MeshCertificate, MeshTier};
use crate::security::crypto;
use crate::security::error;
use crate::security::error::{joined, joined3, SecurityError, SecurityErrorView};
use crate::security::keypair::DeviceKeypair;
use crate::security::permissions;
use crate::text;
use crate::text::{decimal_string, normalize_name, string_from_utf8, text_eq, upper_hex};

verus! {

/// Membership policy controlling how nodes can join the mesh.
#[derive(Debug, Clone, Copy, PartialEq, Eq, Structural)]
pub enum MembershipPolicy {
    /// Anyone with the formation secret can join. Least secure.
    Open,
    /// Explicit enrollment by an authority is required. Default.
    Controlled,
    /// Only pre-provisioned devices can join. Highest security.
    Strict,
}

impl Default for MembershipPolicy {
    fn default() -> (r: Self)
        ensures
            r == MembershipPolicy::Controlled,
    {
        MembershipPolicy::Controlled
    }
}

/// The policy that a byte stands for.
pub open spec fn policy_of_byte(b: u8) -> Option<MembershipPolicy> {
    if b == 0 {
        Some(MembershipPolicy::Open)
    } else if b == 1 {
        Some(MembershipPolicy::Controlled)
    } else if b == 2 {
        Some(MembershipPolicy::Strict)
    } else {
        None
    }
}

/// The policy whose small-letter name is `name`.
pub open spec fn policy_named(name: Seq<char>) -> Option<MembershipPolicy> {
    if name == "open"@ {
        Some(MembershipPolicy::Open)
    } else if name == "controlled"@ {
        Some(MembershipPolicy::Controlled)
    } else if name == "strict"@ {
        Some(MembershipPolicy::Strict)
    } else {
        None
    }
}

impl MembershipPolicy {
    /// The byte that stands for the policy.
    pub open spec fn code(self) -> u8 {
        match self {
            MembershipPolicy::Open => 0,
            MembershipPolicy::Controlled => 1,
            MembershipPolicy::Strict => 2,
        }
    }

    /// The name of the policy.
    pub open spec fn name(self) -> Seq<char> {
        match self {
            MembershipPolicy::Open => "Open"@,
            MembershipPolicy::Controlled => "Controlled"@,
            MembershipPolicy::Strict => "Strict"@,
        }
    }

    /// Encode as a single byte.
    pub fn to_byte(self) -> (r: u8)
        ensures
            r == self.code(),
    {
        match self {
            MembershipPolicy::Open => 0,
            MembershipPolicy::Controlled => 1,
            MembershipPolicy::Strict => 2,
        }
    }

    /// Decode from a single byte.
    pub fn from_byte(b: u8) -> (r: Option<Self>)
        ensures
            r == policy_of_byte(b),
    {
        match b {
            0 => Some(MembershipPolicy::Open),
            1 => Some(MembershipPolicy::Controlled),
            2 => Some(MembershipPolicy::Strict),
            _ => None,
        }
    }

    /// Parse from a string, in any case and with white space around it.
    pub fn from_str_name(s: &str) -> (r: Option<Self>)
        ensures
            r == policy_named(text::normalized_name(s@)),
            is_ascii_chars(text::trim_text(s@)) ==> r == policy_named(text::ascii_lower(text::trim_text(s@))),
    {
        let name = normalize_name(s);
        if text_eq(name.as_str(), "open") {
            Some(MembershipPolicy::Open)
        } else if text_eq(name.as_str(), "controlled") {
            Some(MembershipPolicy::Controlled)
        } else if text_eq(name.as_str(), "strict") {
            Some(MembershipPolicy::Strict)
        } else {
            None
        }
    }

    /// Get the policy name as a string.
    pub fn as_str(&self) -> (r: &'static str)
        ensures
            r@ == self.name(),
    {
        match self {
            MembershipPolicy::Open => "Open",
            MembershipPolicy::Controlled => "Controlled",
            MembershipPolicy::Strict => "Strict",
        }
    }
}

/// A byte decodes to a policy exactly if the policy encodes to that byte.
pub proof fn law_policy_byte_roundtrip(policy: MembershipPolicy, b: u8)
    ensures
        policy_of_byte(policy.code()) == Some(policy),
        policy_of_byte(b) == Some(policy) <==> b == policy.code(),
{
}

/// Every name of a policy reads back as the policy, in small letters too.
pub proof fn law_policy_name_roundtrip(policy: MembershipPolicy)
    ensures
        is_ascii_chars(policy.name()),
        policy_named(text::ascii_lower(text::trim_text(policy.name()))) == Some(policy),
{
    reveal_strlit("Open");
    reveal_strlit("Controlled");
    reveal_strlit("Strict");
    reveal_strlit("open");
    reveal_strlit("controlled");
    reveal_strlit("strict");
    assert(text::trim_text(policy.name()) =~= policy.name());
    match policy {
        MembershipPolicy::Open => {
            assert(text::ascii_lower("Open"@) =~= "open"@);
        },
        MembershipPolicy::Controlled => {
            assert(text::ascii_lower("Controlled"@) =~= "controlled"@);
            assert("controlled"@.len() != "open"@.len());
        },
        MembershipPolicy::Strict => {
            assert(text::ascii_lower("Strict"@) =~= "strict"@);
            assert("strict"@.len() != "open"@.len());
            assert("strict"@.len() != "controlled"@.len());
        },
    }
}

/// Genesis event for creating a new mesh formation.
///
/// Contains all cryptographic material needed to bootstrap a mesh from zero. The
/// seed is the root secret: keep it safe and never transmit it. What may be
/// shared is in [`MeshCredentials`].
pub struct MeshGenesis {
    /// Human-readable mesh name.
    pub mesh_name: String,
    mesh_seed: [u8; 32],
    authority: DeviceKeypair,
    /// Timestamp of creation (milliseconds since Unix epoch).
    pub created_at_ms: u64,
    /// Membership policy for this mesh.
    pub policy: MembershipPolicy,
}

/// A [`MeshGenesis`] in terms of sequences.
#[verifier::ext_equal]
pub struct GenesisView {
    pub mesh_name: Seq<char>,
    pub mesh_seed: Seq<u8>,
    /// The authority's secret key.
    pub authority: Seq<u8>,
    pub created_at_ms: u64,
    pub policy: MembershipPolicy,
}

impl View for MeshGenesis {
    type V = GenesisView;

    closed spec fn view(&self) -> GenesisView {
        GenesisView {
            mesh_name: self.mesh_name@,
            mesh_seed: self.mesh_seed@,
            authority: self.authority.secret(),
            created_at_ms: self.created_at_ms,
            policy: self.policy,
        }
    }
}

impl GenesisView {
    /// What HKDF-SHA256 derives from the seed, salted with the name, in a context.
    pub open spec fn derived(self, context: Seq<char>) -> Seq<u8> {
        crypto::hkdf_sha256(Some(encode_utf8(self.mesh_name)), self.mesh_seed, encode_utf8(context))
    }

    /// The identifier of the mesh: the first four derived bytes, in capital
    /// hexadecimal digits.
    pub open spec fn mesh_id(self) -> Seq<char> {
        text::upper_hex_text(self.derived("peat-mesh:mesh-id"@).subrange(0, 4))
    }

    /// The secret that is shared with all members.
    pub open spec fn formation_secret(self) -> Seq<u8> {
        self.derived("peat-mesh:formation-secret"@)
    }

    /// The authority's public key.
    pub open spec fn authority_public_key(self) -> Seq<u8> {
        crypto::ed25519_public_key(self.authority)
    }

    /// The root certificate that is made at a given time.
    pub open spec fn root_certificate(self, node_id: Seq<char>, now_ms: u64) -> CertificateView {
        CertificateView {
            subject_public_key: self.authority_public_key(),
            mesh_id: self.mesh_id(),
            node_id,
            tier: MeshTier::Enterprise,
            permissions: permissions::AUTHORITY,
            issued_at_ms: now_ms,
            expires_at_ms: 0,
            issuer_public_key: self.authority_public_key(),
            signature: Seq::new(64, |i: int| 0u8),
        }.signed_by(self.authority)
    }

    /// The certificate that is issued to a member at a given time. A validity of
    /// zero means no expiration; the expiration wraps where it would pass the
    /// last millisecond that a `u64` can tell.
    pub open spec fn issued(
        self,
        subject_public_key: Seq<u8>,
        node_id: Seq<char>,
        tier: MeshTier,
        permissions: u8,
        validity_ms: u64,
        now_ms: u64,
    ) -> CertificateView {
        CertificateView {
            subject_public_key,
            mesh_id: self.mesh_id(),
            node_id,
            tier,
            permissions,
            issued_at_ms: now_ms,
            expires_at_ms: if validity_ms == 0 {
                0
            } else {
                ((now_ms + validity_ms) % 0x1_0000_0000_0000_0000) as u64
            },
            issuer_public_key: self.authority_public_key(),
            signature: Seq::new(64, |i: int| 0u8),
        }.signed_by(self.authority)
    }

    /// What may be shared with the nodes of the mesh.
    pub open spec fn credentials(self) -> CredentialsView {
        CredentialsView {
            mesh_id: self.mesh_id(),
            mesh_name: self.mesh_name,
            formation_secret: self.formation_secret(),
            authority_public_key: self.authority_public_key(),
            policy: self.policy,
        }
    }

    /// The format for secure persistence.
    pub open spec fn encoded(self) -> Seq<u8> {
        bytes::le_bytes((encode_utf8(self.mesh_name).len() % 65536) as nat, 2) + encode_utf8(self.mesh_name)
            + self.mesh_seed + self.authority + bytes::le_bytes(self.created_at_ms as nat, 8) + seq![self.policy.code()]
    }
}

/// The genesis that `d` starts with, or what is wrong with `d`.
pub open spec fn parse_genesis(d: Seq<u8>) -> Result<GenesisView, SecurityErrorView> {
    let n = bytes::le_value(d.subrange(0, 2)) as int;
    let name = d.subrange(2, 2 + n);
    let o = 2 + n;
    if d.len() < 75 {
        certificate::malformed("genesis too short: "@ + text::decimal(d.len()) + " bytes (min 75)"@)
    } else if d.len() < 75 + n {
        certificate::malformed("genesis truncated at mesh_name"@)
    } else if !valid_utf8(name) {
        certificate::malformed("invalid mesh_name: "@ + text::utf8_error_text(name))
    } else if policy_of_byte(d[o + 72]) is None {
        certificate::malformed("invalid policy byte"@)
    } else {
        Ok(
            GenesisView {
                mesh_name: decode_utf8(name),
                mesh_seed: d.subrange(o, o + 32),
                authority: d.subrange(o + 32, o + 64),
                created_at_ms: bytes::le_value(d.subrange(o + 64, o + 72)) as u64,
                policy: policy_of_byte(d[o + 72])->Some_0,
            },
        )
    }
}

impl MeshGenesis {
    /// Create a new mesh formation with a random seed.
    ///
    /// The authority keypair is derived from the seed.
    pub fn create(mesh_name: &str, policy: MembershipPolicy) -> (r: Self)
        ensures
            r@.mesh_name == mesh_name@,
            r@.policy == policy,
            r@.mesh_seed.len() == 32,
            r@.authority == crypto::hkdf_sha256(
                None,
                r@.mesh_seed,
                encode_utf8("peat-mesh:authority-keypair"@),
            ),
    {
        Self::with_seed(mesh_name, crypto::random_bytes(), policy)
    }

    /// Create a genesis with a specific seed. The seed must be random in earnest.
    pub fn with_seed(mesh_name: &str, mesh_seed: [u8; 32], policy: MembershipPolicy) -> (r: Self)
        ensures
            r@.mesh_name == mesh_name@,
            r@.mesh_seed == mesh_seed@,
            r@.authority == crypto::hkdf_sha256(None, mesh_seed@, encode_utf8("peat-mesh:authority-keypair"@)),
            r@.policy == policy,
    {
        let now: u64 = clock::now_ms();
        Self::with_seed_at(mesh_name, mesh_seed, policy, now)
    }

    /// Create a genesis with a specific seed at `now_ms`.
    pub fn with_seed_at(mesh_name: &str, mesh_seed: [u8; 32], policy: MembershipPolicy, now_ms: u64) -> (r: Self)
        ensures
            r@ == (GenesisView {
                mesh_name: mesh_name@,
                mesh_seed: mesh_seed@,
                authority: crypto::hkdf_sha256(None, mesh_seed@, encode_utf8("peat-mesh:authority-keypair"@)),
                created_at_ms: now_ms,
                policy,
            }),
    {
        let secret = crypto::derive_key(None, mesh_seed.as_slice(), "peat-mesh:authority-keypair".as_bytes());
        Self::with_authority_at(mesh_name, mesh_seed, DeviceKeypair::from_secret(secret), policy, now_ms)
    }

    /// Create a genesis with a specific seed and an authority keypair that comes
    /// from elsewhere (a hardware security module, say).
    pub fn with_authority(
        mesh_name: &str,
        mesh_seed: [u8; 32],
        authority: DeviceKeypair,
        policy: MembershipPolicy,
    ) -> (r: Self)
        ensures
            r@.mesh_name == mesh_name@,
            r@.mesh_seed == mesh_seed@,
            r@.authority == authority.secret(),
            r@.policy == policy,
    {
        let now: u64 = clock::now_ms();
        Self::with_authority_at(mesh_name, mesh_seed, authority, policy, now)
    }

    /// Create a genesis with a specific seed and authority keypair at `now_ms`.
    pub fn with_authority_at(
        mesh_name: &str,
        mesh_seed: [u8; 32],
        authority: DeviceKeypair,
        policy: MembershipPolicy,
        now_ms: u64,
    ) -> (r: Self)
        ensures
            r@ == (GenesisView {
                mesh_name: mesh_name@,
                mesh_seed: mesh_seed@,
                authority: authority.secret(),
                created_at_ms: now_ms,
                policy,
            }),
    {
        MeshGenesis { mesh_name: mesh_name.to_owned(), mesh_seed, authority, created_at_ms: now_ms, policy }
    }

    /// Derive the mesh_id from name and seed: 8 capital hexadecimal digits.
    pub fn mesh_id(&self) -> (r: String)
        ensures
            r@ == self@.mesh_id(),
            r@.len() == 8,
    {
        let hash = self.derive("peat-mesh:mesh-id");
        let first = copy_range(hash.as_slice(), 0, 4);
        upper_hex(first.as_slice())
    }

    /// Derive the formation secret, which is shared with all mesh members.
    pub fn formation_secret(&self) -> (r: [u8; 32])
        ensures
            r@ == self@.formation_secret(),
    {
        self.derive("peat-mesh:formation-secret")
    }

    /// Get the authority keypair.
    pub fn authority(&self) -> (r: &DeviceKeypair)
        ensures
            r.secret() == self@.authority,
    {
        &self.authority
    }

    /// Get the authority's public key bytes.
    pub fn authority_public_key(&self) -> (r: [u8; 32])
        ensures
            r@ == self@.authority_public_key(),
    {
        self.authority.public_key_bytes()
    }

    /// Get the mesh seed for secure storage. Protect it carefully.
    pub fn mesh_seed(&self) -> (r: &[u8; 32])
        ensures
            r@ == self@.mesh_seed,
    {
        &self.mesh_seed
    }

    /// Generate a self-signed root certificate for the authority node.
    pub fn root_certificate(&self, node_id: &str) -> (r: MeshCertificate)
        ensures
            exists|now_ms: u64| r@ == #[trigger] self@.root_certificate(node_id@, now_ms),
            r@.verify_outcome() is Ok,
    {
        let now: u64 = clock::now_ms();
        self.root_certificate_at(node_id, now)
    }

    /// Generate a self-signed root certificate at `now_ms`. It has the Enterprise
    /// tier, all permissions and no expiration.
    pub fn root_certificate_at(&self, node_id: &str, now_ms: u64) -> (r: MeshCertificate)
        ensures
            r@ == self@.root_certificate(node_id@, now_ms),
            r@.verify_outcome() is Ok,
    {
        MeshCertificate::new_root(
            &self.authority,
            self.mesh_id(),
            node_id.to_owned(),
            MeshTier::Enterprise,
            now_ms,
            0,
        )
    }

    /// Issue a signed certificate for a new member.
    pub fn issue_certificate(
        &self,
        subject_public_key: [u8; 32],
        node_id: &str,
        tier: MeshTier,
        permissions: u8,
        validity_ms: u64,
    ) -> (r: MeshCertificate)
        ensures
            exists|now_ms: u64|
                r@ == #[trigger] self@.issued(
                    subject_public_key@,
                    node_id@,
                    tier,
                    permissions,
                    validity_ms,
                    now_ms,
                ),
            r@.verify_outcome() is Ok,
    {
        let now: u64 = clock::now_ms();
        self.issue_certificate_at(subject_public_key, node_id, tier, permissions, validity_ms, now)
    }

    /// Issue a signed certificate for a new member at `now_ms`.
    pub fn issue_certificate_at(
        &self,
        subject_public_key: [u8; 32],
        node_id: &str,
        tier: MeshTier,
        permissions: u8,
        validity_ms: u64,
        now_ms: u64,
    ) -> (r: MeshCertificate)
        ensures
            r@ == self@.issued(subject_public_key@, node_id@, tier, permissions, validity_ms, now_ms),
            r@.verify_outcome() is Ok,
    {
        let expires: u64 = if validity_ms == 0 {
            0
        } else {
            now_ms.wrapping_add(validity_ms)
        };
        MeshCertificate::new(
            subject_public_key,
            self.mesh_id(),
            node_id.to_owned(),
            tier,
            permissions,
            now_ms,
            expires,
            self.authority.public_key_bytes(),
        ).signed(&self.authority)
    }

    /// Build shareable credentials (no seed, no authority private key).
    pub fn credentials(&self) -> (r: MeshCredentials)
        ensures
            r@ == self@.credentials(),
    {
        MeshCredentials {
            mesh_id: self.mesh_id(),
            mesh_name: self.mesh_name.clone(),
            formation_secret: self.formation_secret(),
            authority_public_key: self.authority_public_key(),
            policy: self.policy,
        }
    }

    /// Encode genesis data for secure persistence.
    ///
    /// ```text
    /// [mesh_name_len:2 LE][mesh_name:N][mesh_seed:32][authority secret key:32]
    /// [created_at_ms:8 LE][policy:1]
    /// ```
    pub fn encode(&self) -> (r: Vec<u8>)
        ensures
            r@ == self@.encoded(),
    {
        let name = self.mesh_name.as_str().as_bytes();
        let mut buf: Vec<u8> = Vec::new();
        push_le(&mut buf, (name.len() % 65536) as u64, 2);
        push_bytes(&mut buf, name);
        push_bytes(&mut buf, self.mesh_seed.as_slice());
        let secret = self.authority.secret_key_bytes();
        push_bytes(&mut buf, secret.as_slice());
        push_le(&mut buf, self.created_at_ms, 8);
        buf.push(self.policy.to_byte());
        assert(buf@ =~= self@.encoded());
        buf
    }

    /// Decode genesis data from bytes.
    pub fn decode(data: &[u8]) -> (r: Result<Self, SecurityError>)
        ensures
            error::outcome(r) == parse_genesis(data@),
    {
        let len: usize = data.len();
        if len < 75 {
            return Err(
                SecurityError::SerializationError(
                    joined3("genesis too short: ", decimal_string(len as u64).as_str(), " bytes (min 75)"),
                ),
            );
        }
        let name_len: usize = read_le(data, 0, 2) as usize;
        proof {
            bytes::lemma_pow256_values();
            bytes::lemma_le_value_bound(data@.subrange(0, 2));
        }
        if len < 75 + name_len {
            return Err(SecurityError::SerializationError("genesis truncated at mesh_name".to_owned()));
        }
        let mesh_name = match string_from_utf8(copy_range(data, 2, 2 + name_len)) {
            Ok(s) => s,
            Err(e) => return Err(SecurityError::SerializationError(joined("invalid mesh_name: ", e.as_str()))),
        };
        let offset: usize = 2 + name_len;
        let mesh_seed = read_array32(data, offset);
        let secret = read_array32(data, offset + 32);
        let created_at_ms: u64 = read_le(data, offset + 64, 8);
        let policy = match MembershipPolicy::from_byte(data[offset + 72]) {
            Some(p) => p,
            None => return Err(SecurityError::SerializationError("invalid policy byte".to_owned())),
        };
        Ok(
            MeshGenesis {
                mesh_name,
                mesh_seed,
                authority: DeviceKeypair::from_secret(secret),
                created_at_ms,
                policy,
            },
        )
    }

    /// The name of the mesh.
    pub fn name(&self) -> (r: &str)
        ensures
            r@ == self@.mesh_name,
    {
        self.mesh_name.as_str()
    }

    /// The membership policy of the mesh.
    pub fn membership_policy(&self) -> (r: MembershipPolicy)
        ensures
            r == self@.policy,
    {
        self.policy
    }

    /// When the mesh was created (milliseconds since Unix epoch).
    pub fn created_at(&self) -> (r: u64)
        ensures
            r == self@.created_at_ms,
    {
        self.created_at_ms
    }

    /// Derive 32 bytes from the mesh_seed with a context string.
    pub fn derive(&self, context: &str) -> (r: [u8; 32])
        ensures
            r@ == self@.derived(context@),
    {
        crypto::derive_key(Some(self.mesh_name.as_str().as_bytes()), self.mesh_seed.as_slice(), context.as_bytes())
    }
}

/// Shareable mesh credentials (no seed, no authority private key).
#[derive(Debug)]
pub struct MeshCredentials {
    /// The mesh_id (derived, for verification).
    pub mesh_id: String,
    /// Mesh name.
    pub mesh_name: String,
    /// Formation secret.
    pub formation_secret: [u8; 32],
    /// Authority's public key (for certificate verification).
    pub authority_public_key: [u8; 32],
    /// Membership policy.
    pub policy: MembershipPolicy,
}

/// [`MeshCredentials`] in terms of sequences.
#[verifier::ext_equal]
pub struct CredentialsView {
    pub mesh_id: Seq<char>,
    pub mesh_name: Seq<char>,
    pub formation_secret: Seq<u8>,
    pub authority_public_key: Seq<u8>,
    pub policy: MembershipPolicy,
}

impl View for MeshCredentials {
    type V = CredentialsView;

    open spec fn view(&self) -> CredentialsView {
        CredentialsView {
            mesh_id: self.mesh_id@,
            mesh_name: self.mesh_name@,
            formation_secret: self.formation_secret@,
            authority_public_key: self.authority_public_key@,
            policy: self.policy,
        }
    }
}

impl CredentialsView {
    /// The format for distribution.
    pub open spec fn encoded(self) -> Seq<u8> {
        bytes::le_bytes((encode_utf8(self.mesh_name).len() % 65536) as nat, 2) + encode_utf8(self.mesh_name)
            + encode_utf8(self.mesh_id) + self.formation_secret + self.authority_public_key + seq![self.policy.code()]
    }
}

/// The credentials that `d` starts with, or what is wrong with `d`.
pub open spec fn parse_credentials(d: Seq<u8>) -> Result<CredentialsView, SecurityErrorView> {
    let n = bytes::le_value(d.subrange(0, 2)) as int;
    let name = d.subrange(2, 2 + n);
    let o = 2 + n;
    let id = d.subrange(o, o + 8);
    if d.len() < 75 {
        certificate::malformed("credentials too short: "@ + text::decimal(d.len()) + " bytes (min 75)"@)
    } else if d.len() < 75 + n {
        certificate::malformed("credentials truncated at mesh_name"@)
    } else if !valid_utf8(name) {
        certificate::malformed("invalid mesh_name: "@ + text::utf8_error_text(name))
    } else if !valid_utf8(id) {
        certificate::malformed("invalid mesh_id: "@ + text::utf8_error_text(id))
    } else if policy_of_byte(d[o + 72]) is None {
        certificate::malformed("invalid policy byte"@)
    } else {
        Ok(
            CredentialsView {
                mesh_id: decode_utf8(id),
                mesh_name: decode_utf8(name),
                formation_secret: d.subrange(o + 8, o + 40),
                authority_public_key: d.subrange(o + 40, o + 72),
                policy: policy_of_byte(d[o + 72])->Some_0,
            },
        )
    }
}

impl MeshCredentials {
    /// Encode for distribution (a QR code or a config file, say).
    ///
    /// ```text
    /// [mesh_name_len:2 LE][mesh_name:N][mesh_id:8 ASCII hex][formation_secret:32]
    /// [authority_public_key:32][policy:1]
    /// ```
    pub fn encode(&self) -> (r: Vec<u8>)
        ensures
            r@ == self@.encoded(),
    {
        let name = self.mesh_name.as_str().as_bytes();
        let mut buf: Vec<u8> = Vec::new();
        push_le(&mut buf, (name.len() % 65536) as u64, 2);
        push_bytes(&mut buf, name);
        push_bytes(&mut buf, self.mesh_id.as_str().as_bytes());
        push_bytes(&mut buf, self.formation_secret.as_slice());
        push_bytes(&mut buf, self.authority_public_key.as_slice());
        buf.push(self.policy.to_byte());
        assert(buf@ =~= self@.encoded());
        buf
    }

    /// Decode from bytes.
    pub fn decode(data: &[u8]) -> (r: Result<Self, SecurityError>)
        ensures
            error::outcome(r) == parse_credentials(data@),
    {
        let len: usize = data.len();
        if len < 75 {
            return Err(
                SecurityError::SerializationError(
                    joined3("credentials too short: ", decimal_string(len as u64).as_str(), " bytes (min 75)"),
                ),
            );
        }
        let name_len: usize = read_le(data, 0, 2) as usize;
        proof {
            bytes::lemma_pow256_values();
            bytes::lemma_le_value_bound(data@.subrange(0, 2));
        }
        if len < 75 + name_len {
            return Err(SecurityError::SerializationError("credentials truncated at mesh_name".to_owned()));
        }
        let mesh_name = match string_from_utf8(copy_range(data, 2, 2 + name_len)) {
            Ok(s) => s,
            Err(e) => return Err(SecurityError::SerializationError(joined("invalid mesh_name: ", e.as_str()))),
        };
        let offset: usize = 2 + name_len;
        let mesh_id = match string_from_utf8(copy_range(data, offset, offset + 8)) {
            Ok(s) => s,
            Err(e) => return Err(SecurityError::SerializationError(joined("invalid mesh_id: ", e.as_str()))),
        };
        let formation_secret = read_array32(data, offset + 8);
        let authority_public_key = read_array32(data, offset + 40);
        let policy = match MembershipPolicy::from_byte(data[offset + 72]) {
            Some(p) => p,
            None => return Err(SecurityError::SerializationError("invalid policy byte".to_owned())),
        };
        Ok(MeshCredentials { mesh_id, mesh_name, formation_secret, authority_public_key, policy })
    }
}

proof fn lemma_parts(len_bytes: Seq<u8>, name: Seq<u8>, a: Seq<u8>, b: Seq<u8>, c: Seq<u8>, last: u8, rest: Seq<u8>)
    requires
        len_bytes.len() == 2,
    ensures
        ({
            let d = len_bytes + name + a + b + c + seq![last] + rest;
            let o = 2 + name.len() as int;
            let p = o + a.len();
            let q = p + b.len();
            let s = q + c.len();
            &&& d.len() == s + 1 + rest.len()
            &&& d.subrange(0, 2) == len_bytes
            &&& d.subrange(2, o) == name
            &&& d.subrange(o, p) == a
            &&& d.subrange(p, q) == b
            &&& d.subrange(q, s) == c
            &&& d[s] == last
        }),
{
    let d = len_bytes + name + a + b + c + seq![last] + rest;
    let o = 2 + name.len() as int;
    let p = o + a.len();
    let q = p + b.len();
    let s = q + c.len();
    assert(d.subrange(0, 2) =~= len_bytes);
    assert(d.subrange(2, o) =~= name);
    assert(d.subrange(o, p) =~= a);
    assert(d.subrange(p, q) =~= b);
    assert(d.subrange(q, s) =~= c);
}

/// Decoding what was encoded gives the genesis back, whatever follows it, where
/// the name fits its length field.
pub proof fn law_genesis_decode_of_encode(g: GenesisView, rest: Seq<u8>)
    requires
        g.mesh_seed.len() == 32,
        g.authority.len() == 32,
        encode_utf8(g.mesh_name).len() < 65536,
    ensures
        parse_genesis(g.encoded() + rest) == Ok::<GenesisView, SecurityErrorView>(g),
{
    let d = g.encoded() + rest;
    let name = encode_utf8(g.mesh_name);
    let n = name.len();
    bytes::lemma_le_bytes_len(n, 2);
    bytes::lemma_le_bytes_len(g.created_at_ms as nat, 8);
    bytes::lemma_pow256_values();
    bytes::lemma_le_value_of_bytes(n, 2);
    bytes::lemma_le_value_of_bytes(g.created_at_ms as nat, 8);
    lemma_parts(
        bytes::le_bytes(n, 2),
        name,
        g.mesh_seed,
        g.authority,
        bytes::le_bytes(g.created_at_ms as nat, 8),
        g.policy.code(),
        rest,
    );
    encode_utf8_valid_utf8(g.mesh_name);
    encode_utf8_decode_utf8(g.mesh_name);
    assert(parse_genesis(d) is Ok);
    assert(parse_genesis(d)->Ok_0 =~= g);
}

/// Decoding what was encoded gives the credentials back, whatever follows them,
/// where the name fits its length field and the mesh_id takes 8 bytes.
pub proof fn law_credentials_decode_of_encode(c: CredentialsView, rest: Seq<u8>)
    requires
        c.formation_secret.len() == 32,
        c.authority_public_key.len() == 32,
        encode_utf8(c.mesh_id).len() == 8,
        encode_utf8(c.mesh_name).len() < 65536,
    ensures
        parse_credentials(c.encoded() + rest) == Ok::<CredentialsView, SecurityErrorView>(c),
{
    let d = c.encoded() + rest;
    let name = encode_utf8(c.mesh_name);
    let n = name.len();
    bytes::lemma_le_bytes_len(n, 2);
    bytes::lemma_pow256_values();
    bytes::lemma_le_value_of_bytes(n, 2);
    lemma_parts(
        bytes::le_bytes(n, 2),
        name,
        encode_utf8(c.mesh_id),
        c.formation_secret,
        c.authority_public_key,
        c.policy.code(),
        rest,
    );
    encode_utf8_valid_utf8(c.mesh_name);
    encode_utf8_decode_utf8(c.mesh_name);
    encode_utf8_valid_utf8(c.mesh_id);
    encode_utf8_decode_utf8(c.mesh_id);
    assert(parse_credentials(d) is Ok);
    assert(parse_credentials(d)->Ok_0 =~= c);
}

/// Encoding what was decoded gives the bytes back, up to where the genesis ends.
pub proof fn law_genesis_encode_of_decode(d: Seq<u8>)
    requires
        parse_genesis(d) is Ok,
    ensures
        parse_genesis(d)->Ok_0.encoded().len() <= d.len(),
        parse_genesis(d)->Ok_0.encoded() == d.subrange(0, parse_genesis(d)->Ok_0.encoded().len() as int),
{
    let g = parse_genesis(d)->Ok_0;
    let n = bytes::le_value(d.subrange(0, 2)) as int;
    let o = 2 + n;
    bytes::lemma_pow256_values();
    bytes::lemma_le_value_bound(d.subrange(0, 2));
    bytes::lemma_le_bytes_of_value(d.subrange(0, 2));
    bytes::lemma_le_value_bound(d.subrange(o + 64, o + 72));
    bytes::lemma_le_bytes_of_value(d.subrange(o + 64, o + 72));
    decode_utf8_encode_utf8(d.subrange(2, o));
    law_policy_byte_roundtrip(g.policy, d[o + 72]);
    assert(g.encoded() =~= d.subrange(0, o + 73));
}

/// Encoding what was decoded gives the bytes back, up to where the credentials end.
pub proof fn law_credentials_encode_of_decode(d: Seq<u8>)
    requires
        parse_credentials(d) is Ok,
    ensures
        parse_credentials(d)->Ok_0.encoded().len() <= d.len(),
        parse_credentials(d)->Ok_0.encoded() == d.subrange(0, parse_credentials(d)->Ok_0.encoded().len() as int),
{
    let c = parse_credentials(d)->Ok_0;
    let n = bytes::le_value(d.subrange(0, 2)) as int;
    let o = 2 + n;
    bytes::lemma_pow256_values();
    bytes::lemma_le_value_bound(d.subrange(0, 2));
    bytes::lemma_le_bytes_of_value(d.subrange(0, 2));
    decode_utf8_encode_utf8(d.subrange(2, o));
    decode_utf8_encode_utf8(d.subrange(o, o + 8));
    law_policy_byte_roundtrip(c.policy, d[o + 72]);
    assert(c.encoded() =~= d.subrange(0, o + 73));
}

/// The mesh_id is 8 capital hexadecimal digits, so it takes 8 bytes and the
/// credentials of a genesis survive encoding.
pub proof fn law_mesh_id_format(g: GenesisView)
    requires
        g.derived("peat-mesh:mesh-id"@).len() == 32,
    ensures
        g.mesh_id().len() == 8,
        forall|i: int|
            0 <= i < 8 ==> ('0' <= #[trigger] g.mesh_id()[i] && g.mesh_id()[i] <= '9') || ('A' <= g.mesh_id()[i]
                && g.mesh_id()[i] <= 'F'),
        encode_utf8(g.mesh_id()).len() == 8,
{
    let t = g.mesh_id();
    assert forall|i: int| 0 <= i < t.len() implies (#[trigger] t[i]) as nat <= 127 by {}
    assert(is_ascii_chars(t));
    is_ascii_chars_encode_utf8(t);
}

/// The contexts in which secrets are derived are distinct.
pub proof fn law_contexts_distinct()
    ensures
        "peat-mesh:mesh-id"@ != "peat-mesh:formation-secret"@,
        "peat-mesh:mesh-id"@ != "peat-mesh:authority-keypair"@,
        "peat-mesh:formation-secret"@ != "peat-mesh:authority-keypair"@,
{
    reveal_strlit("peat-mesh:mesh-id");
    reveal_strlit("peat-mesh:formation-secret");
    reveal_strlit("peat-mesh:authority-keypair");
    assert("peat-mesh:mesh-id"@.len() == 17);
    assert("peat-mesh:formation-secret"@.len() == 26);
    assert("peat-mesh:authority-keypair"@.len() == 27);
}

/// A root certificate names itself as its issuer, carries every permission and
/// stays valid from its issue on; where it verifies, every bundle accepts it.
pub proof fn law_root_certificate(g: GenesisView, node_id: Seq<char>, issued_ms: u64, now_ms: u64, b: bundle::BundleView)
    ensures
        g.root_certificate(node_id, issued_ms).is_root(),
        g.root_certificate(node_id, issued_ms).permissions == permissions::AUTHORITY,
        g.root_certificate(node_id, issued_ms).tier == MeshTier::Enterprise,
        now_ms >= issued_ms ==> g.root_certificate(node_id, issued_ms).valid_at(now_ms),
        g.root_certificate(node_id, issued_ms).verify_outcome() is Ok ==> b.admission(
            g.root_certificate(node_id, issued_ms),
        ) is Ok,
{
}

/// A certificate that the genesis authority issued, where it verifies, is
/// accepted by every bundle that trusts the authority, and it is valid for its
/// validity period.
pub proof fn law_issued_certificate(
    g: GenesisView,
    subject: Seq<u8>,
    node_id: Seq<char>,
    tier: MeshTier,
    perms: u8,
    validity_ms: u64,
    issued_ms: u64,
    now_ms: u64,
    b: bundle::BundleView,
)
    requires
        b.authorities.contains(g.authority_public_key()),
        issued_ms + validity_ms <= u64::MAX,
        g.issued(subject, node_id, tier, perms, validity_ms, issued_ms).verify_outcome() is Ok,
    ensures
        b.admission(g.issued(subject, node_id, tier, perms, validity_ms, issued_ms)) is Ok,
        g.issued(subject, node_id, tier, perms, validity_ms, issued_ms).valid_at(now_ms) <==> issued_ms <= now_ms && (
        validity_ms == 0 || now_ms < issued_ms + validity_ms),
{
}

} // verus!
