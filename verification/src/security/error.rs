//! Errors of the security layer.

use vstd::prelude::*;

use crate::text::push_text;

verus! {

/// Why an operation of the security layer failed.
#[derive(Debug)]
pub enum SecurityError {
    /// Bytes that are no Ed25519 public key.
    InvalidPublicKey(String),
    /// A signature that does not verify.
    InvalidSignature(String),
    /// Bytes that are no secret key.
    KeypairError(String),
    /// Bytes that do not follow a wire format.
    SerializationError(String),
    /// A certificate that is not accepted.
    CertificateError(String),
    /// An operation that the service does not offer.
    Internal(String),
}

/// A [`SecurityError`] with its text as a sequence of characters.
pub enum SecurityErrorView {
    InvalidPublicKey(Seq<char>),
    InvalidSignature(Seq<char>),
    KeypairError(Seq<char>),
    SerializationError(Seq<char>),
    CertificateError(Seq<char>),
    Internal(Seq<char>),
}

impl View for SecurityError {
    type V = SecurityErrorView;

    open spec fn view(&self) -> SecurityErrorView {
        match self {
            SecurityError::InvalidPublicKey(s) => SecurityErrorView::InvalidPublicKey(s@),
            SecurityError::InvalidSignature(s) => SecurityErrorView::InvalidSignature(s@),
            SecurityError::KeypairError(s) => SecurityErrorView::KeypairError(s@),
            SecurityError::SerializationError(s) => SecurityErrorView::SerializationError(s@),
            SecurityError::CertificateError(s) => SecurityErrorView::CertificateError(s@),
            SecurityError::Internal(s) => SecurityErrorView::Internal(s@),
        }
    }
}

impl SecurityErrorView {
    /// What is shown to a reader.
    pub open spec fn text(self) -> Seq<char> {
        match self {
            SecurityErrorView::InvalidPublicKey(s) => "invalid public key: "@ + s,
            SecurityErrorView::InvalidSignature(s) => "invalid signature: "@ + s,
            SecurityErrorView::KeypairError(s) => "keypair error: "@ + s,
            SecurityErrorView::SerializationError(s) => "serialization error: "@ + s,
            SecurityErrorView::CertificateError(s) => "certificate error: "@ + s,
            SecurityErrorView::Internal(s) => "internal error: "@ + s,
        }
    }
}

impl SecurityError {
    /// What is shown to a reader.
    pub fn text(&self) -> (r: String)
        ensures
            r@ == self@.text(),
    {
        match self {
            SecurityError::InvalidPublicKey(s) => joined("invalid public key: ", s.as_str()),
            SecurityError::InvalidSignature(s) => joined("invalid signature: ", s.as_str()),
            SecurityError::KeypairError(s) => joined("keypair error: ", s.as_str()),
            SecurityError::SerializationError(s) => joined("serialization error: ", s.as_str()),
            SecurityError::CertificateError(s) => joined("certificate error: ", s.as_str()),
            SecurityError::Internal(s) => joined("internal error: ", s.as_str()),
        }
    }
}

/// Two texts, one after the other.
pub fn joined(a: &str, b: &str) -> (r: String)
    ensures
        r@ == a@ + b@,
{
    let mut r = a.to_owned();
    push_text(&mut r, b);
    r
}

/// Three texts, one after the other.
pub fn joined3(a: &str, b: &str, c: &str) -> (r: String)
    ensures
        r@ == a@ + b@ + c@,
{
    let mut r = a.to_owned();
    push_text(&mut r, b);
    push_text(&mut r, c);
    r
}

/// A result with its value and its error taken by their views.
pub open spec fn outcome<T: View, E: View>(r: Result<T, E>) -> Result<<T as View>::V, <E as View>::V> {
    match r {
        Ok(v) => Ok(v@),
        Err(e) => Err(e@),
    }
}

} // verus!
