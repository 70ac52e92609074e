//! Errors.

use vstd::prelude::*;

verus! {

/// What can go wrong in a handshake.
#[derive(Debug)]
pub enum TlsError {
    /// A failure that has no variant of its own.
    General(String),
    /// The random source failed.
    FailedToGetRandomBytes,
    /// The peer's certificate, or a signature made with it, does not hold up.
    InvalidCertificate(CertificateError),
}

/// What is wrong with a certificate.
#[derive(Debug)]
pub enum CertificateError {
    /// A signature does not verify.
    BadSignature,
    /// Nobody trusted has issued the certificate.
    UnknownIssuer,
}

/// The random source could not deliver.
#[derive(Debug)]
pub struct GetRandomFailed;

/// More key material was asked for than HKDF can give.
#[derive(Debug)]
pub struct OutputLengthError;

/// `e` is the general error with this text.
pub open spec fn is_general(e: TlsError, text: Seq<char>) -> bool {
    e matches TlsError::General(s) && s@ == text
}

/// The general error with this text.
pub fn general(text: &str) -> (e: TlsError)
    ensures
        is_general(e, text@),
{
    TlsError::General(text.to_owned())
}

/// A general error is told by its whole text, and by nothing else.
pub proof fn a_general_error_is_its_text(e: TlsError, text: Seq<char>)
    ensures
        is_general(e, text) <==> (e matches TlsError::General(s) && s@ == text),
{
}

} // verus!
