//! What certificates, bundles, genesis and enrollment promise together.

use vstd::prelude::*;
use vstd::string::*;
use vstd::utf8::*;

use crate::bytes;
use crate::security::bundle;
use crate::security::bundle::BundleView;
use crate::security::certificate;
use crate::security::certificate::{CertificateView, MeshTier};
use crate::security::crypto;
use crate::security::enrollment;
use crate::security::enrollment::{RequestView, ServiceView};
use crate::security::error::SecurityErrorView;
use crate::security::genesis;
use crate::security::genesis::{CredentialsView, GenesisView, MembershipPolicy};
use crate::security::keypair;
use crate::security::permissions;
use crate::text;

verus! {

/// A signature is accepted exactly if the key is an Ed25519 key and the signature verifies
/// under it; a bad key is told from a bad signature.
pub proof fn law_signatures_are_checked(key: Seq<u8>, message: Seq<u8>, signature: Seq<u8>)
    ensures
        ({
            let r = keypair::signature_outcome(key, message, signature);
            &&& r is Ok <==> crypto::ed25519_key_error(key) is None && crypto::ed25519_verify_error(
                key,
                message,
                signature,
            ) is None
            &&& r is Err && r->Err_0 is InvalidPublicKey <==> crypto::ed25519_key_error(key) is Some
            &&& r is Err ==> r->Err_0 is InvalidPublicKey || r->Err_0 is InvalidSignature
        }),
{
}

/// A certificate verifies exactly if its signature verifies under its issuer's key over
/// bytes that hold every other field, and a request under its own subject's key.
pub proof fn law_what_is_verified(c: CertificateView, r: RequestView)
    requires
        c.fits_wire(),
        r.fits_wire(),
    ensures
        c.verify_outcome() is Ok <==> crypto::ed25519_key_error(c.issuer_public_key) is None
            && crypto::ed25519_verify_error(
            c.issuer_public_key,
            c.wire().take(c.wire().len() - 64),
            c.wire().skip(c.wire().len() - 64),
        ) is None,
        r.verify_outcome() is Ok <==> crypto::ed25519_key_error(r.subject_public_key) is None
            && crypto::ed25519_verify_error(
            r.subject_public_key,
            r.wire().take(r.wire().len() - 64),
            r.wire().skip(r.wire().len() - 64),
        ) is None,
{
    assert(c.wire().take(c.wire().len() - 64) =~= c.signable());
    assert(c.wire().skip(c.wire().len() - 64) =~= c.signature);
    assert(r.wire().take(r.wire().len() - 64) =~= r.signable());
    assert(r.wire().skip(r.wire().len() - 64) =~= r.signature);
}

/// The validity window is from the issue on, up to but not including the expiration, or
/// without end where none is set. Until the expiration the time left and the time now make
/// it; once it has come nothing is left, and never before.
pub proof fn law_validity_window(c: CertificateView, now_ms: u64)
    ensures
        now_ms < c.issued_at_ms ==> !c.valid_at(now_ms),
        c.expires_at_ms == 0 && now_ms >= c.issued_at_ms ==> c.valid_at(now_ms),
        c.expires_at_ms != 0 && now_ms >= c.expires_at_ms ==> !c.valid_at(now_ms) && c.expired_at(now_ms)
            && c.remaining_ms(now_ms) == 0,
        c.issued_at_ms <= now_ms < c.expires_at_ms ==> c.valid_at(now_ms),
        now_ms < c.expires_at_ms ==> !c.expired_at(now_ms) && now_ms + c.remaining_ms(now_ms) == c.expires_at_ms,
        c.expires_at_ms == 0 ==> !c.expired_at(now_ms) && c.remaining_ms(now_ms) == u64::MAX,
{
}

/// A certificate permits several things exactly if it permits each of them: an authority
/// everything, and a standard member to relay and to raise emergencies but not to enroll
/// or to administer.
pub proof fn law_permissions(c: CertificateView, a: u8, b: u8)
    ensures
        c.permits(a | b) <==> c.permits(a) && c.permits(b),
        c.permits(0),
        c.permissions == permissions::AUTHORITY ==> c.permits(permissions::RELAY) && c.permits(permissions::EMERGENCY)
            && c.permits(permissions::ENROLL) && c.permits(permissions::ADMIN),
        c.permissions == permissions::STANDARD ==> c.permits(permissions::RELAY) && c.permits(permissions::EMERGENCY)
            && !c.permits(permissions::ENROLL) && !c.permits(permissions::ADMIN),
        c.permissions == 0 && a != 0 ==> !c.permits(a),
{
    let p = c.permissions;
    assert(p & (a | b) == (a | b) <==> (p & a == a && p & b == b)) by (bit_vector);
    assert(p & 0 == 0 && 0u8 & a == 0) by (bit_vector);
    assert(0b1000_0111u8 & 0b0000_0001u8 == 0b0000_0001u8 && 0b1000_0111u8 & 0b0000_0010u8 == 0b0000_0010u8
        && 0b1000_0111u8 & 0b0000_0100u8 == 0b0000_0100u8 && 0b1000_0111u8 & 0b1000_0000u8 == 0b1000_0000u8
        && 0b0000_0011u8 & 0b0000_0001u8 == 0b0000_0001u8 && 0b0000_0011u8 & 0b0000_0010u8 == 0b0000_0010u8
        && 0b0000_0011u8 & 0b0000_0100u8 == 0 && 0b0000_0011u8 & 0b1000_0000u8 == 0) by (bit_vector);
}

/// A bundle accepts a certificate exactly if its signature verifies and its issuer is a
/// trusted authority or the subject itself. It vouches for a peer exactly if it holds a
/// certificate for the peer's key that it would accept, at a time in the window.
pub proof fn law_who_is_vouched_for(b: BundleView, c: CertificateView, key: Seq<u8>, now_ms: u64)
    ensures
        b.admission(c) is Ok <==> c.verify_outcome() is Ok && (c.subject_public_key == c.issuer_public_key
            || b.authorities.contains(c.issuer_public_key)),
        b.admission(c) is Err && c.verify_outcome() is Ok ==> b.admission(c)->Err_0 is CertificateError,
        c.verify_outcome() is Err ==> b.admission(c) == c.verify_outcome(),
        b.vouches(c, now_ms) <==> b.admission(c) is Ok && c.issued_at_ms <= now_ms && (c.expires_at_ms == 0 || now_ms
            < c.expires_at_ms),
        b.validates(key, now_ms) <==> b.certificates.contains_key(key) && b.vouches(b.certificates[key], now_ms),
        c.is_root() <==> c.subject_public_key == c.issuer_public_key,
{
}

/// Filing a certificate touches no other: every other key has the certificate that it had,
/// and the authorities stay. Clearing the certificates leaves the authorities and nothing
/// else, and trusting one more authority takes trust from none.
pub proof fn law_filing_keeps_the_rest(b: BundleView, c: CertificateView, key: Seq<u8>, authority: Seq<u8>)
    requires
        b.consistent(),
    ensures
        key != c.subject_public_key ==> b.with_certificate(c).certificates.contains_key(key)
            == b.certificates.contains_key(key),
        key != c.subject_public_key && b.certificates.contains_key(key) ==> b.with_certificate(c).certificates[key]
            == b.certificates[key],
        b.with_certificate(c).authorities == b.authorities,
        b.with_certificate(c).filed.last() == c.subject_public_key,
        b.with_certificate(c).certificates.dom().len() == b.certificates.dom().len() + (
        if b.certificates.contains_key(c.subject_public_key) {
            0int
        } else {
            1
        }),
        b.without_certificates().authorities == b.authorities,
        !b.without_certificates().certificates.contains_key(key),
        b.with_authority(authority).authorities.contains(authority),
        b.with_authority(authority).authorities.contains(key) <==> b.authorities.contains(key) || key == authority,
        b.with_authority(authority).certificates == b.certificates,
        b.with_authority(authority).names == b.names,
        b.without_expired(0).authorities == b.authorities,
{
    let more = b.with_authority(authority).authorities;
    if !b.authorities.contains(authority) {
        assert(more[b.authorities.len() as int] == authority);
        if b.authorities.contains(key) {
            let i = choose|i: int| 0 <= i < b.authorities.len() && b.authorities[i] == key;
            assert(more[i] == key);
        }
        if more.contains(key) && key != authority {
            let i = choose|i: int| 0 <= i < more.len() && more[i] == key;
            assert(b.authorities[i] == key);
        }
    }
    assert(b.with_certificate(c).certificates.dom() =~= b.certificates.dom().insert(c.subject_public_key));
}

/// Purging removes the certificates whose expiration has come and no others, and keeps the
/// authorities.
pub proof fn law_purge_goes_by_expiration(b: BundleView, key: Seq<u8>, now_ms: u64)
    requires
        b.certificates.contains_key(key),
    ensures
        b.without_expired(now_ms).certificates.contains_key(key) <==> b.certificates[key].expires_at_ms == 0 || now_ms
            < b.certificates[key].expires_at_ms,
        b.without_expired(now_ms).certificates.contains_key(key) ==> b.without_expired(now_ms).certificates[key]
            == b.certificates[key],
        b.without_expired(now_ms).authorities == b.authorities,
{
}

/// Loading key files trusts exactly the keys that were trusted before and the files that
/// are 32 bytes and an Ed25519 key; it says how many of the files are.
pub proof fn law_authority_files(b: BundleView, files: Seq<Vec<u8>>, key: Seq<u8>)
    ensures
        bundle::with_authority_files(b, files).authorities.contains(key) <==> b.authorities.contains(key) || exists|
            i: int,
        | 0 <= i < files.len() && (#[trigger] files[i])@ == key && key.len() == 32 && crypto::ed25519_key_error(key) is None,
        bundle::with_authority_files(b, files).certificates == b.certificates,
        bundle::authority_files(files) <= files.len(),
        (forall|i: int| 0 <= i < files.len() ==> (#[trigger] files[i])@.len() == 32 && crypto::ed25519_key_error(
            files[i]@,
        ) is None) <==> bundle::authority_files(files) == files.len(),
    decreases files.len(),
{
    if files.len() > 0 {
        let front = files.drop_last();
        let last = files.last()@;
        let n = files.len() - 1;
        law_authority_files(b, front, key);
        let prior = bundle::with_authority_files(b, front);
        let all = bundle::with_authority_files(b, files);
        assert(files[n]@ == last);
        assert(forall|i: int| 0 <= i < n ==> #[trigger] front[i] == files[i]);
        assert(forall|i: int| 0 <= i < n ==> #[trigger] files[i] == front[i]);
        if last.len() == 32 && crypto::ed25519_key_error(last) is None {
            lemma_authority_added(prior, last, key);
            assert(all == prior.with_authority(last));
        } else {
            assert(all == prior);
        }
        if exists|i: int|
            0 <= i < files.len() && (#[trigger] files[i])@ == key && key.len() == 32 && crypto::ed25519_key_error(key) is None {
            let i = choose|i: int|
                0 <= i < files.len() && (#[trigger] files[i])@ == key && key.len() == 32 && crypto::ed25519_key_error(
                    key,
                ) is None;
            if i < n {
                assert(front[i]@ == key);
            }
        }
        if exists|i: int|
            0 <= i < front.len() && (#[trigger] front[i])@ == key && key.len() == 32 && crypto::ed25519_key_error(key) is None {
            let i = choose|i: int|
                0 <= i < front.len() && (#[trigger] front[i])@ == key && key.len() == 32 && crypto::ed25519_key_error(
                    key,
                ) is None;
            assert(files[i]@ == key);
        }
    }
}

proof fn lemma_authority_added(b: BundleView, authority: Seq<u8>, key: Seq<u8>)
    ensures
        b.with_authority(authority).authorities.contains(key) <==> b.authorities.contains(key) || key == authority,
{
    let more = b.with_authority(authority).authorities;
    if !b.authorities.contains(authority) {
        assert(more[b.authorities.len() as int] == authority);
        if b.authorities.contains(key) {
            let i = choose|i: int| 0 <= i < b.authorities.len() && b.authorities[i] == key;
            assert(more[i] == key);
        }
        if more.contains(key) && key != authority {
            let i = choose|i: int| 0 <= i < more.len() && more[i] == key;
            assert(b.authorities[i] == key);
        }
    }
}

/// Loading certificate files trusts no one new, and a file whose certificate the bundle
/// accepts is found after it was loaded, while one that it does not accept changes
/// nothing; each that is accepted is counted.
pub proof fn law_certificate_files(b: BundleView, files: Seq<Vec<u8>>, c: CertificateView)
    requires
        c.fits_wire(),
        files.len() > 0,
        files.last()@ == c.wire(),
    ensures
        ({
            let before = bundle::with_certificate_files(b, files.drop_last());
            let after = bundle::with_certificate_files(b, files);
            &&& after.authorities == b.authorities
            &&& b.admission(c) is Ok ==> after.certificates.contains_key(c.subject_public_key)
                && after.certificates[c.subject_public_key] == c && bundle::accepted_files(b, files)
                == bundle::accepted_files(b, files.drop_last()) + 1
            &&& b.admission(c) is Err ==> after == before && bundle::accepted_files(b, files) == bundle::accepted_files(
                b,
                files.drop_last(),
            )
        }),
{
    lemma_files_keep_authorities(b, files);
    lemma_files_keep_authorities(b, files.drop_last());
    certificate::law_decode_of_encode(c, Seq::empty());
    assert(c.wire() + Seq::<u8>::empty() =~= c.wire());
}

proof fn lemma_files_keep_authorities(b: BundleView, files: Seq<Vec<u8>>)
    ensures
        bundle::with_certificate_files(b, files).authorities == b.authorities,
    decreases files.len(),
{
    if files.len() > 0 {
        lemma_files_keep_authorities(b, files.drop_last());
    }
}

/// Everything that a mesh is known by comes from its name and its seed alone, each by
/// HKDF-SHA256 in its own context: two meshes with the same name and seed have the same
/// identifier and formation secret, whatever their authority, policy and time. The
/// identifier tells the first four derived bytes in two digits each.
pub proof fn law_derived_from_name_and_seed(g: GenesisView, h: GenesisView)
    requires
        g.derived("peat-mesh:mesh-id"@).len() == 32,
    ensures
        g.mesh_name == h.mesh_name && g.mesh_seed == h.mesh_seed ==> g.mesh_id() == h.mesh_id()
            && g.formation_secret() == h.formation_secret(),
        g.formation_secret() == crypto::hkdf_sha256(
            Some(encode_utf8(g.mesh_name)),
            g.mesh_seed,
            encode_utf8("peat-mesh:formation-secret"@),
        ),
        g.mesh_id() == text::upper_hex_text(
            crypto::hkdf_sha256(
                Some(encode_utf8(g.mesh_name)),
                g.mesh_seed,
                encode_utf8("peat-mesh:mesh-id"@),
            ).take(4),
        ),
        g.authority == h.authority ==> g.authority_public_key() == h.authority_public_key(),
{
    let d = g.derived("peat-mesh:mesh-id"@);
    assert(d.subrange(0, 4) =~= d.take(4));
}

/// The credentials of a mesh say what its members need and no secret but the shared one:
/// its name, identifier and policy, the formation secret and the authority's public key.
pub proof fn law_credentials(g: GenesisView)
    ensures
        g.credentials().mesh_id == g.mesh_id(),
        g.credentials().mesh_name == g.mesh_name,
        g.credentials().formation_secret == g.formation_secret(),
        g.credentials().authority_public_key == crypto::ed25519_public_key(g.authority),
        g.credentials().policy == g.policy,
{
}

/// A certificate that a genesis issues says what was asked for, names the mesh, and is
/// signed by the mesh's authority over all of it.
pub proof fn law_issued_says_what_was_asked(
    g: GenesisView,
    subject: Seq<u8>,
    node_id: Seq<char>,
    tier: MeshTier,
    perms: u8,
    validity_ms: u64,
    now_ms: u64,
)
    ensures
        ({
            let c = g.issued(subject, node_id, tier, perms, validity_ms, now_ms);
            &&& c.subject_public_key == subject
            &&& c.node_id == node_id
            &&& c.tier == tier
            &&& c.permissions == perms
            &&& c.mesh_id == g.mesh_id()
            &&& c.issued_at_ms == now_ms
            &&& c.issuer_public_key == crypto::ed25519_public_key(g.authority)
            &&& c.signature == crypto::ed25519_signature(g.authority, c.signable())
            &&& validity_ms == 0 ==> c.expires_at_ms == 0
            &&& 0 < validity_ms <= u64::MAX - now_ms ==> c.expires_at_ms - c.issued_at_ms == validity_ms
        }),
        ({
            let c = g.root_certificate(node_id, now_ms);
            &&& c.subject_public_key == crypto::ed25519_public_key(g.authority)
            &&& c.node_id == node_id
            &&& c.mesh_id == g.mesh_id()
            &&& c.issued_at_ms == now_ms
            &&& c.expires_at_ms == 0
            &&& c.signature == crypto::ed25519_signature(g.authority, c.signable())
        }),
{
    let c = g.issued(subject, node_id, tier, perms, validity_ms, now_ms);
    let unsigned = c.with_signature(Seq::new(64, |i: int| 0u8));
    assert(c.signable() == unsigned.signable());
    let r = g.root_certificate(node_id, now_ms);
    let unsigned_root = r.with_signature(Seq::new(64, |i: int| 0u8));
    assert(r.signable() == unsigned_root.signable());
}

/// An approved node has a certificate for as long as the service grants: from the moment
/// of the approval for the service's validity and not a millisecond longer. It is signed
/// by the authority over all its fields, and it is in force at once in every bundle that
/// trusts the authority, where it verifies.
pub proof fn law_approval_lasts(s: ServiceView, r: RequestView, now_ms: u64, t: u64, b: BundleView)
    requires
        r.verify_outcome() is Ok,
        r.mesh_id == s.mesh_id,
        s.tokens.contains_key(r.bootstrap_token),
        now_ms + s.validity_ms <= u64::MAX,
    ensures
        s.decision(r, now_ms) is Ok,
        s.decision(r, now_ms)->Ok_0.status is Approved,
        s.decision(r, now_ms)->Ok_0.timestamp_ms == now_ms,
        s.decision(r, now_ms)->Ok_0.formation_secret is None,
        s.decision(r, now_ms)->Ok_0.certificate is Some,
        ({
            let c = s.decision(r, now_ms)->Ok_0.certificate->Some_0;
            &&& c.issued_at_ms == now_ms
            &&& c.expires_at_ms == now_ms + s.validity_ms
            &&& c.signature == crypto::ed25519_signature(s.authority, c.signable())
            &&& s.validity_ms > 0 ==> (c.valid_at(t) <==> now_ms <= t < now_ms + s.validity_ms)
            &&& s.validity_ms > 0 && c.verify_outcome() is Ok && b.authorities.contains(
                crypto::ed25519_public_key(s.authority),
            ) ==> (b.with_certificate(c).validates(r.subject_public_key, t) <==> now_ms <= t < now_ms + s.validity_ms)
        }),
{
    let c = s.decision(r, now_ms)->Ok_0.certificate->Some_0;
    let unsigned = c.with_signature(Seq::new(64, |i: int| 0u8));
    assert(c.signable() == unsigned.signable());
}

/// A request that is not approved gets no certificate and no secret: one whose signature
/// does not verify is an error, and any other is denied, with the time of the request. The
/// answer to a request does not depend on other tokens than its own.
pub proof fn law_refusals(s: ServiceView, r: RequestView, now_ms: u64, other: Seq<u8>, grant: (MeshTier, u8))
    ensures
        r.verify_outcome() is Err <==> s.decision(r, now_ms) is Err,
        r.verify_outcome() is Err ==> s.decision(r, now_ms)->Err_0 == r.verify_outcome()->Err_0,
        r.verify_outcome() is Ok && (r.mesh_id != s.mesh_id || !s.tokens.contains_key(r.bootstrap_token)) ==> {
            let a = s.decision(r, now_ms)->Ok_0;
            &&& a.status is Denied
            &&& a.certificate is None
            &&& a.formation_secret is None
            &&& a.timestamp_ms == r.timestamp_ms
        },
        other != r.bootstrap_token ==> s.decision(r, now_ms) == (ServiceView {
            tokens: s.tokens.insert(other, grant),
            ..s
        }).decision(r, now_ms),
{
}

/// Bytes that are no request are refused by the first thing that is missing: a request has
/// 109 bytes at least, and then goes as far as its texts and its token say.
pub proof fn law_cut_requests(d: Seq<u8>)
    ensures
        d.len() < 109 ==> enrollment::parse_request(d) == Err::<RequestView, SecurityErrorView>(
            SecurityErrorView::SerializationError(
                "enrollment request too short: "@ + text::decimal(d.len()) + " bytes (min 109)"@,
            ),
        ),
        d.len() >= 109 && d.len() < 34 + d[32] ==> enrollment::parse_request(d) == Err::<RequestView, SecurityErrorView>(
            SecurityErrorView::SerializationError("enrollment request truncated at mesh_id"@),
        ),
        enrollment::parse_request(d) is Ok ==> {
            let m = d[32] as int;
            let n = d[33 + m] as int;
            let t = bytes::le_value(d.subrange(35 + m + n, 37 + m + n)) as int;
            &&& d.len() >= 109
            &&& d.len() >= 109 + m + n + t
        },
{
}

/// A certificate that is refused for its issuer alone says so; one whose signature is wrong
/// is refused for that first.
pub proof fn law_admission_says(b: BundleView, c: CertificateView)
    ensures
        b.admission(c) is Ok <==> c.verify_outcome() is Ok && (c.subject_public_key == c.issuer_public_key
            || b.authorities.contains(c.issuer_public_key)),
        c.verify_outcome() is Err ==> b.admission(c) == c.verify_outcome(),
        c.verify_outcome() is Ok && b.admission(c) is Err ==> b.admission(c)->Err_0
            == SecurityErrorView::CertificateError("issuer not in trusted authorities"@),
{
}

/// A text on the wire is its UTF-8 bytes behind one byte for their number; of a number that
/// does not fit in the byte, what is left over from a multiple of 256 is written.
pub proof fn law_texts_on_the_wire(t: Seq<char>)
    ensures
        certificate::short_text(t).len() == encode_utf8(t).len() + 1,
        certificate::short_text(t).skip(1) == encode_utf8(t),
        encode_utf8(t).len() < 256 ==> certificate::short_text(t)[0] == encode_utf8(t).len(),
        (encode_utf8(t).len() - certificate::short_text(t)[0]) % 256 == 0,
{
    assert(certificate::short_text(t).skip(1) =~= encode_utf8(t));
}

/// A certificate has 148 bytes at least, and then goes as far as its texts say; one that is
/// cut is refused, and told how short it is or at which text it ends.
pub proof fn law_cut_certificates(d: Seq<u8>)
    ensures
        d.len() < 148 ==> certificate::parse_certificate(d) == Err::<CertificateView, SecurityErrorView>(
            SecurityErrorView::SerializationError(
                "certificate too short: "@ + text::decimal(d.len()) + " bytes (min 148)"@,
            ),
        ),
        d.len() >= 148 && d.len() < 34 + d[32] ==> certificate::parse_certificate(d) == Err::<
            CertificateView,
            SecurityErrorView,
        >(SecurityErrorView::SerializationError("certificate truncated at mesh_id"@)),
        d.len() >= 148 && d.len() >= 34 + d[32] && valid_utf8(d.subrange(33, 33 + d[32])) && d.len() < 148 + d[32]
            + d[33 + d[32]] ==> certificate::parse_certificate(d) == Err::<CertificateView, SecurityErrorView>(
            SecurityErrorView::SerializationError("certificate truncated at node_id"@),
        ),
{
}

/// The record of a mesh and the credentials of a member have 75 bytes at least, and then go
/// as far as the name of the mesh says; what is cut is refused, and told how short it is or
/// that it ends at the name.
pub proof fn law_cut_records(d: Seq<u8>)
    ensures
        d.len() < 75 ==> genesis::parse_genesis(d) == Err::<GenesisView, SecurityErrorView>(
            SecurityErrorView::SerializationError(
                "genesis too short: "@ + text::decimal(d.len()) + " bytes (min 75)"@,
            ),
        ),
        d.len() < 75 ==> genesis::parse_credentials(d) == Err::<CredentialsView, SecurityErrorView>(
            SecurityErrorView::SerializationError(
                "credentials too short: "@ + text::decimal(d.len()) + " bytes (min 75)"@,
            ),
        ),
        75 <= d.len() < 75 + bytes::le_value(d.subrange(0, 2)) ==> {
            &&& genesis::parse_genesis(d) == Err::<GenesisView, SecurityErrorView>(
                SecurityErrorView::SerializationError("genesis truncated at mesh_name"@),
            )
            &&& genesis::parse_credentials(d) == Err::<CredentialsView, SecurityErrorView>(
                SecurityErrorView::SerializationError("credentials truncated at mesh_name"@),
            )
        },
{
}

} // verus!
