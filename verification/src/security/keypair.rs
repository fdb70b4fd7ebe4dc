//! The Ed25519 keypair that identifies a device.

use vstd::prelude::*;
use vstd::string::*;

use crate::bytes::read_array32;
use crate::security::crypto;
use crate::security::error::{joined, SecurityError, SecurityErrorView};
use crate::security::error;
use crate::text;
use crate::text::decimal_string;

verus! {

/// A device's Ed25519 keypair, kept as its secret key.
pub struct DeviceKeypair {
    secret: [u8; 32],
}

impl Clone for DeviceKeypair {
    fn clone(&self) -> (r: Self)
        ensures
            r == *self,
    {
        DeviceKeypair { secret: self.secret }
    }
}

/// What a check of a signature says of it.
pub open spec fn signature_outcome(key: Seq<u8>, message: Seq<u8>, signature: Seq<u8>) -> Result<(), SecurityErrorView> {
    match crypto::ed25519_key_error(key) {
        Some(text) => Err(SecurityErrorView::InvalidPublicKey(text)),
        None => match crypto::ed25519_verify_error(key, message, signature) {
            Some(text) => Err(SecurityErrorView::InvalidSignature(text)),
            None => Ok(()),
        },
    }
}

/// Checks that `signature` signs `message` under the public key `key`.
pub fn verify_signed(key: &[u8; 32], message: &[u8], signature: &[u8; 64]) -> (r: Result<(), SecurityError>)
    ensures
        error::outcome(r) == signature_outcome(key@, message@, signature@),
{
    if let Some(text) = crypto::check_public_key(key) {
        return Err(SecurityError::InvalidPublicKey(text));
    }
    match crypto::check_signature(key, message, signature) {
        Some(text) => Err(SecurityError::InvalidSignature(text)),
        None => Ok(()),
    }
}

impl DeviceKeypair {
    /// The bytes of the secret key.
    pub closed spec fn secret(self) -> Seq<u8> {
        self.secret@
    }

    /// The bytes of the public key.
    pub open spec fn public_key(self) -> Seq<u8> {
        crypto::ed25519_public_key(self.secret())
    }

    /// The keypair of a secret key.
    pub fn from_secret(secret: [u8; 32]) -> (r: Self)
        ensures
            r.secret() == secret@,
    {
        DeviceKeypair { secret }
    }

    /// A keypair with a secret key from the system's random numbers.
    pub fn generate() -> (r: Self)
        ensures
            r.secret().len() == 32,
    {
        Self::from_secret(crypto::random_bytes())
    }

    /// The keypair that HKDF-SHA256 derives from `seed` in `context`.
    pub fn from_seed(seed: &[u8], context: &str) -> (r: Result<Self, SecurityError>)
        ensures
            r is Ok,
            r->Ok_0.secret() == crypto::hkdf_sha256(None, seed@, context.spec_bytes()),
    {
        Ok(Self::from_secret(crypto::derive_key(None, seed, context.as_bytes())))
    }

    /// The keypair of the secret key in `bytes`, which must be 32 bytes.
    pub fn from_secret_bytes(bytes: &[u8]) -> (r: Result<Self, SecurityError>)
        ensures
            r is Ok == (bytes@.len() == 32),
            r is Ok ==> r->Ok_0.secret() == bytes@,
            r is Err ==> r->Err_0@ == SecurityErrorView::KeypairError(
                "secret key must be 32 bytes, got "@ + text::decimal(bytes@.len()),
            ),
    {
        if bytes.len() != 32 {
            return Err(
                SecurityError::KeypairError(
                    joined("secret key must be 32 bytes, got ", decimal_string(bytes.len() as u64).as_str()),
                ),
            );
        }
        let secret = read_array32(bytes, 0);
        assert(secret@ =~= bytes@);
        Ok(Self::from_secret(secret))
    }

    /// The bytes of the secret key. Keep them safe.
    pub fn secret_key_bytes(&self) -> (r: [u8; 32])
        ensures
            r@ == self.secret(),
    {
        self.secret
    }

    /// The bytes of the public key.
    pub fn public_key_bytes(&self) -> (r: [u8; 32])
        ensures
            r@ == self.public_key(),
            crypto::ed25519_key_error(r@) is None,
    {
        crypto::derive_public_key(&self.secret)
    }

    /// Signs `message`.
    pub fn sign(&self, message: &[u8]) -> (r: [u8; 64])
        ensures
            r@ == crypto::ed25519_signature(self.secret(), message@),
            signature_outcome(self.public_key(), message@, r@) is Ok,
    {
        let _key = crypto::derive_public_key(&self.secret);
        crypto::sign_message(&self.secret, message)
    }

    /// Checks that `signature` is this keypair's signature of `message`.
    pub fn verify(&self, message: &[u8], signature: &[u8; 64]) -> (r: Result<(), SecurityError>)
        ensures
            error::outcome(r) == signature_outcome(self.public_key(), message@, signature@),
    {
        let key = self.public_key_bytes();
        verify_signed(&key, message, signature)
    }
}

} // verus!
