//! Verifying the server.

use std::collections::hash_map::DefaultHasher;
use vstd::prelude::*;

use crate::cert::{
    cert_tail, embedded_key, extract_ed25519_pubkey_from_reality_cert, reality_verdict,
    verify_reality_cert, TAG_LEN,
};
use crate::crypto::{ed25519_accepts, ed25519_verify, hmac_sha512_tag};
use crate::error::{CertificateError, TlsError};
use crate::provider::SignatureScheme;
use crate::session::AuthKeySlot;

verus! {

/// A certificate chain, in DER.
#[derive(Debug)]
pub struct CertificateIdentity {
    /// The certificate of the peer itself.
    pub end_entity: Vec<u8>,
    /// The certificates between it and a root.
    pub intermediates: Vec<Vec<u8>>,
}

/// How a peer says who it is.
#[derive(Debug)]
pub enum Identity {
    /// By a chain of X.509 certificates.
    X509(CertificateIdentity),
    /// By a bare public key.
    RawPublicKey(Vec<u8>),
}

/// A server's identity and what it is to be judged by.
#[derive(Debug)]
pub struct ServerIdentity {
    /// Who the server says it is.
    pub identity: Identity,
    /// Who the client wants to talk to.
    pub server_name: String,
    /// The stapled OCSP response, empty if there was none.
    pub ocsp_response: Vec<u8>,
    /// The time, in seconds since the Unix epoch.
    pub now: u64,
}

/// The key that a handshake signature is to be checked with.
#[derive(Debug)]
pub enum SignerPublicKey {
    /// The key in this DER certificate.
    X509(Vec<u8>),
    /// This bare public key.
    RawPublicKey(Vec<u8>),
}

/// A signature and how it was made.
#[derive(Debug)]
pub struct DigitallySignedStruct {
    /// How it was made.
    pub scheme: SignatureScheme,
    /// The signature.
    pub sig: Vec<u8>,
}

/// A handshake signature to be checked.
#[derive(Debug)]
pub struct SignatureVerificationInput {
    /// What was signed.
    pub message: Vec<u8>,
    /// Whose signature it is.
    pub signer: SignerPublicKey,
    /// The signature.
    pub signature: DigitallySignedStruct,
}

/// How certificates can be presented.
#[derive(Clone, Copy, Debug, PartialEq, Eq, Structural)]
pub enum CertificateType {
    /// As X.509 certificates.
    X509,
    /// As bare public keys.
    RawPublicKey,
}

/// Says that a peer's identity has been verified.
#[derive(Debug)]
pub struct PeerVerified {
    asserted: (),
}

/// Says that a handshake signature has been verified.
#[derive(Debug)]
pub struct HandshakeSignatureValid {
    asserted: (),
}

impl PeerVerified {
    /// Asserts that the peer has been verified.
    pub fn assertion() -> (verified: Self) {
        PeerVerified { asserted: () }
    }
}

impl HandshakeSignatureValid {
    /// Asserts that the signature has been verified.
    pub fn assertion() -> (valid: Self) {
        HandshakeSignatureValid { asserted: () }
    }
}

/// Judges servers.
pub trait ServerVerifier {
    /// Is the server who it says it is, and is that who we want?
    fn verify_identity(&self, identity: &ServerIdentity) -> (r: Result<PeerVerified, TlsError>);

    /// Is this signature of a TLS 1.2 handshake good?
    fn verify_tls12_signature(&self, input: &SignatureVerificationInput) -> (r: Result<
        HandshakeSignatureValid,
        TlsError,
    >);

    /// Is this signature of a TLS 1.3 handshake good?
    fn verify_tls13_signature(&self, input: &SignatureVerificationInput) -> (r: Result<
        HandshakeSignatureValid,
        TlsError,
    >);

    /// The schemes that signatures may be made with, the preferred one first.
    fn supported_verify_schemes(&self) -> (schemes: Vec<SignatureScheme>);

    /// Should the server be asked for an OCSP response?
    fn request_ocsp_response(&self) -> (wanted: bool);

    /// How the server may present its identity, the preferred way first.
    fn supported_certificate_types(&self) -> (types: Vec<CertificateType>);

    /// The names of the roots to hint at, in DER.
    fn root_hint_subjects(&self) -> (subjects: Option<Vec<Vec<u8>>>);

    /// Feeds the verifier's configuration to a hasher and hands it back.
    fn hash_config(&self, h: DefaultHasher) -> (fed: DefaultHasher);
}

/// The key in the slot vouches for this identity: it is a certificate chain whose
/// first certificate carries the tag of its own Ed25519 key.
pub open spec fn vouched(slot: Option<Seq<u8>>, identity: Identity) -> bool {
    match (slot, identity) {
        (Some(auth_key), Identity::X509(certificates)) => {
            reality_verdict(certificates.end_entity@, auth_key) == Some(true)
        },
        _ => false,
    }
}

/// An Ed25519 signature that the key inside the signer's certificate accepts.
pub open spec fn embedded_key_accepts(input: SignatureVerificationInput) -> bool {
    match (input.signature.scheme, input.signer) {
        (SignatureScheme::ED25519, SignerPublicKey::X509(cert)) => match embedded_key(cert@) {
            Some(pubkey) => ed25519_accepts(pubkey, input.message@, input.signature.sig@),
            None => false,
        },
        _ => false,
    }
}

/// A list of schemes with Ed25519 in it: as it was, or with Ed25519 put last.
pub open spec fn with_ed25519(schemes: Seq<SignatureScheme>) -> Seq<SignatureScheme> {
    if schemes.contains(SignatureScheme::ED25519) {
        schemes
    } else {
        schemes.push(SignatureScheme::ED25519)
    }
}

/// Does the key in the slot vouch for this identity?
pub fn reality_vouches(slot: &AuthKeySlot, identity: &Identity) -> (yes: bool)
    ensures
        yes == vouched(slot@, *identity),
{
    match slot.get() {
        Some(auth_key) => match identity {
            Identity::X509(certificates) => {
                match verify_reality_cert(certificates.end_entity.as_slice(), &auth_key) {
                    Some(valid) => valid,
                    None => false,
                }
            },
            Identity::RawPublicKey(_) => false,
        },
        None => false,
    }
}

/// Is this an Ed25519 signature that the key inside the signer's certificate accepts?
pub fn verify_with_embedded_key(input: &SignatureVerificationInput) -> (valid: bool)
    ensures
        valid == embedded_key_accepts(*input),
{
    match input.signature.scheme {
        SignatureScheme::ED25519 => {},
        _ => {
            return false;
        },
    }
    match &input.signer {
        SignerPublicKey::X509(cert) => {
            match extract_ed25519_pubkey_from_reality_cert(cert.as_slice()) {
                Some(pubkey) => ed25519_verify(
                    &pubkey,
                    input.message.as_slice(),
                    input.signature.sig.as_slice(),
                ),
                None => false,
            }
        },
        SignerPublicKey::RawPublicKey(_) => false,
    }
}

/// What becomes of a TLS 1.3 signature that the embedded key accepts or not.
pub fn embedded_key_verdict(accepted: bool) -> (r: Result<HandshakeSignatureValid, TlsError>)
    ensures
        r is Ok <==> accepted,
        r matches Err(e) ==> e == TlsError::InvalidCertificate(CertificateError::BadSignature),
{
    if accepted {
        Ok(HandshakeSignatureValid::assertion())
    } else {
        Err(TlsError::InvalidCertificate(CertificateError::BadSignature))
    }
}

/// Puts Ed25519 at the end of a list of schemes that lacks it.
pub fn add_ed25519(schemes: Vec<SignatureScheme>) -> (extended: Vec<SignatureScheme>)
    ensures
        extended@ == with_ed25519(schemes@),
{
    let mut k: usize = 0;
    while k < schemes.len()
        invariant
            k <= schemes@.len(),
            forall|m: int| 0 <= m < k ==> schemes@[m] != SignatureScheme::ED25519,
        decreases schemes@.len() - k,
    {
        if schemes[k] == SignatureScheme::ED25519 {
            assert(schemes@.contains(SignatureScheme::ED25519));
            return schemes;
        }
        k = k + 1;
    }
    let mut extended = schemes;
    extended.push(SignatureScheme::ED25519);
    extended
}

/// A [`ServerVerifier`] that understands Reality certificates and leaves
/// everything else to another verifier.
pub struct RealityServerCertVerifier<'a, V> {
    auth_key_slot: &'a AuthKeySlot,
    inner: V,
}

impl<'a, V> RealityServerCertVerifier<'a, V> {
    /// What is in the slot.
    pub closed spec fn slot(&self) -> Option<Seq<u8>> {
        self.auth_key_slot@
    }

    /// The other verifier.
    pub closed spec fn inner(&self) -> V {
        self.inner
    }

    /// A verifier that reads the slot and falls back on `inner`.
    pub fn new(auth_key_slot: &'a AuthKeySlot, inner: V) -> (verifier: Self)
        ensures
            verifier.slot() == auth_key_slot@,
            verifier.inner() == inner,
    {
        RealityServerCertVerifier { auth_key_slot, inner }
    }
}

impl<'a, V: ServerVerifier> ServerVerifier for RealityServerCertVerifier<'a, V> {
    fn verify_identity(&self, identity: &ServerIdentity) -> (r: Result<PeerVerified, TlsError>)
        ensures
            if vouched(self.slot(), identity.identity) {
                r is Ok
            } else {
                call_ensures(V::verify_identity, (&self.inner(), identity), r)
            },
    {
        if reality_vouches(self.auth_key_slot, &identity.identity) {
            return Ok(PeerVerified::assertion());
        }
        self.inner.verify_identity(identity)
    }

    fn verify_tls12_signature(&self, input: &SignatureVerificationInput) -> (r: Result<
        HandshakeSignatureValid,
        TlsError,
    >)
        ensures
            call_ensures(V::verify_tls12_signature, (&self.inner(), input), r),
    {
        self.inner.verify_tls12_signature(input)
    }

    fn verify_tls13_signature(&self, input: &SignatureVerificationInput) -> (r: Result<
        HandshakeSignatureValid,
        TlsError,
    >)
        ensures
            exists|inner: Result<HandshakeSignatureValid, TlsError>| #[trigger]
                call_ensures(V::verify_tls13_signature, (&self.inner(), input), inner) && (r is Ok
                    <==> inner is Ok || embedded_key_accepts(*input)) && (inner is Ok ==> r
                    == inner),
            r matches Err(e) ==> e == TlsError::InvalidCertificate(CertificateError::BadSignature),
    {
        match self.inner.verify_tls13_signature(input) {
            Ok(valid) => Ok(valid),
            Err(_) => embedded_key_verdict(verify_with_embedded_key(input)),
        }
    }

    fn supported_verify_schemes(&self) -> (schemes: Vec<SignatureScheme>)
        ensures
            exists|inner: Vec<SignatureScheme>| #[trigger]
                call_ensures(V::supported_verify_schemes, (&self.inner(),), inner) && schemes@
                    == with_ed25519(inner@),
    {
        let inner = self.inner.supported_verify_schemes();
        assert(call_ensures(V::supported_verify_schemes, (&self.inner(),), inner));
        add_ed25519(inner)
    }

    fn request_ocsp_response(&self) -> (wanted: bool)
        ensures
            call_ensures(V::request_ocsp_response, (&self.inner(),), wanted),
    {
        self.inner.request_ocsp_response()
    }

    fn supported_certificate_types(&self) -> (types: Vec<CertificateType>)
        ensures
            call_ensures(V::supported_certificate_types, (&self.inner(),), types),
    {
        self.inner.supported_certificate_types()
    }

    fn root_hint_subjects(&self) -> (subjects: Option<Vec<Vec<u8>>>)
        ensures
            call_ensures(V::root_hint_subjects, (&self.inner(),), subjects),
    {
        self.inner.root_hint_subjects()
    }

    fn hash_config(&self, h: DefaultHasher) -> (fed: DefaultHasher)
        ensures
            call_ensures(V::hash_config, (&self.inner(), h), fed),
    {
        self.inner.hash_config(h)
    }
}

/// Without a key nothing is vouched for: every identity is left to the other verifier.
pub proof fn an_empty_slot_vouches_for_nothing(identity: Identity)
    ensures
        !vouched(None, identity),
{
}

/// Bare public keys are always left to the other verifier.
pub proof fn raw_keys_are_never_vouched_for(slot: Option<Seq<u8>>, key: Vec<u8>)
    ensures
        !vouched(slot, Identity::RawPublicKey(key)),
{
}

/// A certificate that carries an Ed25519 key and ends in the tag of that key under
/// the key in the slot is vouched for, whatever else is in it and in the chain.
pub proof fn a_tagged_certificate_is_vouched_for(
    auth_key: Seq<u8>,
    certificates: CertificateIdentity,
    pubkey: Seq<u8>,
)
    requires
        certificates.end_entity@.len() >= TAG_LEN,
        embedded_key(certificates.end_entity@) == Some(pubkey),
        cert_tail(certificates.end_entity@) == hmac_sha512_tag(auth_key, pubkey),
    ensures
        vouched(Some(auth_key), Identity::X509(certificates)),
{
}

/// Ed25519 is among the schemes; what was there before stays in front, in order;
/// and adding it a second time changes nothing.
pub proof fn ed25519_is_always_supported(schemes: Seq<SignatureScheme>)
    ensures
        with_ed25519(schemes).contains(SignatureScheme::ED25519),
        with_ed25519(schemes).take(schemes.len() as int) == schemes,
        with_ed25519(with_ed25519(schemes)) == with_ed25519(schemes),
{
    let out = with_ed25519(schemes);
    assert(out.take(schemes.len() as int) =~= schemes);
    if !schemes.contains(SignatureScheme::ED25519) {
        assert(out[out.len() - 1] == SignatureScheme::ED25519);
    }
}

/// An Ed25519 signature is held against the whole message, whole as it is, with the key
/// in the signer's certificate; anything else is not accepted.
pub proof fn the_whole_message_is_held_against_the_whole_signature(
    input: SignatureVerificationInput,
    cert: Vec<u8>,
    key: Vec<u8>,
)
    ensures
        input.signature.scheme == SignatureScheme::ED25519 && input.signer == SignerPublicKey::X509(
            cert,
        ) && embedded_key(cert@) is Some ==> embedded_key_accepts(input) == ed25519_accepts(
            embedded_key(cert@)->0,
            input.message@,
            input.signature.sig@,
        ),
        input.signer == SignerPublicKey::X509(cert) && embedded_key(cert@) is None
            ==> !embedded_key_accepts(input),
        input.signer == SignerPublicKey::RawPublicKey(key) ==> !embedded_key_accepts(input),
        input.signature.scheme != SignatureScheme::ED25519 ==> !embedded_key_accepts(input),
{
}

/// The key in the slot vouches for a chain just where the chain's own certificate has an
/// Ed25519 key in it and ends in the sixty-four bytes of that key's tag. What else is in
/// the chain does not matter.
pub proof fn vouching_takes_a_key_and_its_tag(
    auth_key: Seq<u8>,
    certificates: CertificateIdentity,
)
    ensures
        ({
            let der = certificates.end_entity@;
            vouched(Some(auth_key), Identity::X509(certificates)) <==> {
                &&& der.len() >= 64
                &&& embedded_key(der) is Some
                &&& der.subrange(der.len() - 64, der.len() as int) == hmac_sha512_tag(
                    auth_key,
                    embedded_key(der)->0,
                )
            }
        }),
{
}

/// At most one scheme is added, and that one is Ed25519, at the end.
pub proof fn nothing_but_ed25519_is_added(schemes: Seq<SignatureScheme>)
    ensures
        ({
            let out = with_ed25519(schemes);
            ||| out == schemes && schemes.contains(SignatureScheme::ED25519)
            ||| {
                &&& !schemes.contains(SignatureScheme::ED25519)
                &&& out.len() == schemes.len() + 1
                &&& out.drop_last() == schemes
                &&& out.last() == SignatureScheme::ED25519
            }
        }),
{
    if !schemes.contains(SignatureScheme::ED25519) {
        assert(with_ed25519(schemes).drop_last() =~= schemes);
    }
}

} // verus!
