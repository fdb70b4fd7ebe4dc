//! Ed25519, HKDF-SHA256, SHA-256 and random bytes.

use ed25519_dalek::Signer;
use ed25519_dalek::Verifier;
use rand_core::RngCore;
use sha2::Digest;
use vstd::prelude::*;

use crate::text;

verus! {

/// The Ed25519 public key of a secret key.
pub uninterp spec fn ed25519_public_key(secret: Seq<u8>) -> Seq<u8>;

/// The Ed25519 signature of a message under a secret key.
pub uninterp spec fn ed25519_signature(secret: Seq<u8>, message: Seq<u8>) -> Seq<u8>;

/// Why bytes are refused as an Ed25519 public key; `None` where they are one.
pub uninterp spec fn ed25519_key_error(key: Seq<u8>) -> Option<Seq<char>>;

/// Why a signature is refused; `None` where it verifies.
pub uninterp spec fn ed25519_verify_error(key: Seq<u8>, message: Seq<u8>, signature: Seq<u8>) -> Option<Seq<char>>;

/// The first 32 bytes of HKDF-SHA256 for a salt, a secret and a context.
pub uninterp spec fn hkdf_sha256(salt: Option<Seq<u8>>, secret: Seq<u8>, context: Seq<u8>) -> Seq<u8>;

/// The SHA-256 digest of a message.
pub uninterp spec fn sha256_digest(message: Seq<u8>) -> Seq<u8>;

/// Calls `ed25519_dalek::SigningKey::verifying_key`: the public key is a
/// function of the secret key, and `VerifyingKey::from_bytes` accepts it.
#[verifier::external_body]
pub(crate) fn derive_public_key(secret: &[u8; 32]) -> (r: [u8; 32])
    ensures
        r@ == ed25519_public_key(secret@),
        ed25519_key_error(r@) is None,
{
    ed25519_dalek::SigningKey::from_bytes(secret).verifying_key().to_bytes()
}

/// Calls `ed25519_dalek::SigningKey::sign`: the signature is a function of the
/// secret key and the message, and it verifies under the public key of that
/// secret key.
#[verifier::external_body]
pub(crate) fn sign_message(secret: &[u8; 32], message: &[u8]) -> (r: [u8; 64])
    ensures
        r@ == ed25519_signature(secret@, message@),
        ed25519_verify_error(ed25519_public_key(secret@), message@, r@) is None,
{
    ed25519_dalek::SigningKey::from_bytes(secret).sign(message).to_bytes()
}

/// Calls `ed25519_dalek::VerifyingKey::from_bytes`: whether the bytes are a
/// public key, and the text of the error where they are not, is a function of
/// them.
#[verifier::external_body]
pub(crate) fn check_public_key(key: &[u8; 32]) -> (r: Option<String>)
    ensures
        text::optional_text(r) == ed25519_key_error(key@),
{
    ed25519_dalek::VerifyingKey::from_bytes(key).err().map(|e| e.to_string())
}

/// Calls `ed25519_dalek::VerifyingKey::verify`: whether the signature verifies,
/// and the text of the error where it does not, is a function of the key, the
/// message and the signature.
#[verifier::external_body]
pub(crate) fn check_signature(key: &[u8; 32], message: &[u8], signature: &[u8; 64]) -> (r: Option<String>)
    ensures
        text::optional_text(r) == ed25519_verify_error(key@, message@, signature@),
{
    let signature = ed25519_dalek::Signature::from_bytes(signature);
    let key = ed25519_dalek::VerifyingKey::from_bytes(key);
    key.and_then(|k| k.verify(message, &signature)).err().map(|e| e.to_string())
}

/// Calls `hkdf::Hkdf::<Sha256>::new` and `expand` for 32 bytes, which is within
/// the length that `expand` grants: the bytes are a function of the salt, the
/// secret and the context.
#[verifier::external_body]
pub(crate) fn derive_key(salt: Option<&[u8]>, secret: &[u8], context: &[u8]) -> (r: [u8; 32])
    ensures
        r@ == hkdf_sha256(
            (match salt {
                Some(s) => Some(s@),
                None => None,
            }),
            secret@,
            context@,
        ),
{
    let mut okm = [0u8; 32];
    let hk = hkdf::Hkdf::<sha2::Sha256>::new(salt, secret);
    hk.expand(context, &mut okm).expect("32 bytes are within the limit of HKDF");
    okm
}

/// A SHA-256 hasher: an accumulator of bytes, of which only the digest comes out.
/// `sha2::Sha256` is an alias of a type with many parameters, so it is held here.
#[verifier::external_body]
pub struct Hasher {
    inner: sha2::Sha256,
}

/// The bytes that a hasher was fed, in order.
pub uninterp spec fn absorbed(hasher: Hasher) -> Seq<u8>;

/// Calls `sha2::Sha256::new`: nothing was fed yet.
#[verifier::external_body]
pub(crate) fn new_hasher() -> (r: Hasher)
    ensures
        absorbed(r) == Seq::<u8>::empty(),
{
    Hasher { inner: sha2::Sha256::new() }
}

/// Calls `sha2::Sha256::update`: the bytes come behind those that were fed before.
#[verifier::external_body]
pub(crate) fn absorb(hasher: &mut Hasher, data: &[u8])
    ensures
        absorbed(*final(hasher)) == absorbed(*old(hasher)) + data@,
{
    hasher.inner.update(data);
}

/// Calls `sha2::Sha256::finalize`: the digest is a function of the bytes that were
/// fed, whatever pieces they came in.
#[verifier::external_body]
pub(crate) fn finish(hasher: Hasher) -> (r: [u8; 32])
    ensures
        r@ == sha256_digest(absorbed(hasher)),
{
    hasher.inner.finalize().into()
}

/// The SHA-256 digest of a message.
pub fn digest_bytes(message: &[u8]) -> (r: [u8; 32])
    ensures
        r@ == sha256_digest(message@),
{
    let mut hasher = new_hasher();
    absorb(&mut hasher, message);
    assert(absorbed(hasher) =~= message@);
    finish(hasher)
}

/// Calls `rand_core::OsRng::fill_bytes`; nothing is claimed of the bytes.
#[verifier::external_body]
pub(crate) fn random_bytes() -> (r: [u8; 32]) {
    let mut bytes = [0u8; 32];
    rand_core::OsRng.fill_bytes(&mut bytes);
    bytes
}

} // verus!
