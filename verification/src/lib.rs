//! The client side of the VLESS Reality protocol, and the shaping of a
//! `ClientHello` that goes with it.

pub mod bytes;
pub mod cert;
pub mod config;
pub mod crypto;
pub mod ech;
pub mod error;
pub mod grease;
pub mod handshake;
pub mod hello;
pub mod hello_laws;
pub mod hkdf;
pub mod profile;
pub mod provider;
pub mod random;
pub mod session;
pub mod text;
pub mod verify;
pub mod vless;
pub mod wire;

pub use cert::{
    constant_time_eq, ends_in_tag, extract_ed25519_pubkey_from_reality_cert, verify_reality_cert,
};
pub use config::{RealityConfig, RealityConfigError};
pub use ech::{
    EchGreaseConfig, HpkeAead, HpkeKdf, HpkeKem, HpkeSuite, HpkeSymmetricCipherSuite,
};
pub use error::{CertificateError, GetRandomFailed, OutputLengthError, TlsError};
pub use grease::{is_grease, Grease, GREASE_VALUES};
pub use hello::{HelloOffer, ShapedHello};
pub use hkdf::{Hkdf, HkdfExpander, HkdfSha256, HkdfSha256Expander};
pub use profile::{ClientHelloProfile, Padding, RawExtension};
pub use provider::{
    get_hkdf_sha256_from_provider, provider, CipherSuiteCommon, CryptoProvider, HashAlgorithm,
    KeyExchangeAlgorithm, SignatureScheme, Tls12CipherSuite, Tls13CipherSuite,
    TLS13_AES_128_GCM_SHA256, TLS13_CHACHA20_POLY1305_SHA256,
    TLS_ECDHE_RSA_WITH_CHACHA20_POLY1305_SHA256,
};
pub use random::{Provider, SecureRandom};
pub use session::{
    aes_128_gcm_encrypt, aes_256_gcm_encrypt, join_sealed, AuthKeySlot, NamedGroup, Random, RealityKeyExchange,
    RealitySessionState, SharedSecret,
};
pub use text::{
    base64_to_bytes, bytes_to_hex, cuts_a_character, format_uuid, hex_to_bytes, parse_public_key,
    parse_short_id, parse_uuid, public_key_from_bytes, uuid_cuts_a_character, TextError,
};
pub use verify::{
    add_ed25519, embedded_key_verdict, reality_vouches, verify_with_embedded_key,
    CertificateIdentity, CertificateType, DigitallySignedStruct, HandshakeSignatureValid, Identity,
    PeerVerified, RealityServerCertVerifier, ServerIdentity, ServerVerifier,
    SignatureVerificationInput, SignerPublicKey,
};
pub use vless::{
    http_get, http_get_uncompressed, probe_frame, take_chunk, verdict, vless_request, Verdict,
};
pub use wire::WireClientHello;
