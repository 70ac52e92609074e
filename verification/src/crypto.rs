//! The cryptographic primitives, each behind one small trusted function.
//!
//! Nothing here says how a primitive computes. A primitive's result gets a name,
//! a few short facts are stated of it, and the rest of the crate is verified for
//! every meaning of the names that has those facts.

use aes_gcm::aead::{AeadInPlace, KeyInit};
use aes_gcm::{Aes128Gcm, Aes256Gcm};
use ed25519_dalek::{Signature, VerifyingKey};
use hmac::{Hmac, Mac};
use sha2::{Sha256, Sha512};
use vstd::prelude::*;
use x25519_dalek::{PublicKey, StaticSecret};

verus! {

/// The longest associated data that AES-GCM takes, in bytes.
pub const AAD_MAX: u64 = 0x10_0000_0000;

/// `aes_gcm::Error`: carries nothing but the fact of failure.
#[verifier::external_type_specification]
#[verifier::external_body]
pub struct ExAesGcmError(aes_gcm::Error);

/// The base point of X25519.
pub const BASE_POINT: [u8; 32] = [
    9, 0, 0, 0, 0, 0, 0, 0, 0, 0, 0, 0, 0, 0, 0, 0, 0, 0, 0, 0, 0, 0, 0, 0, 0, 0, 0, 0, 0, 0, 0, 0,
];

/// The X25519 secret shared between a private key and a peer's public key.
pub uninterp spec fn x25519_shared(private_key: Seq<u8>, peer_public_key: Seq<u8>) -> Seq<u8>;

/// The X25519 public key that belongs to a private key: the exchange with the base
/// point.
pub open spec fn x25519_public_key(private_key: Seq<u8>) -> Seq<u8> {
    x25519_shared(private_key, BASE_POINT@)
}

/// AES-128-GCM: the ciphertext and, directly behind it, the tag.
pub uninterp spec fn aes_128_gcm_sealed(
    key: Seq<u8>,
    nonce: Seq<u8>,
    aad: Seq<u8>,
    plaintext: Seq<u8>,
) -> Seq<u8>;

/// AES-256-GCM: the ciphertext and, directly behind it, the tag.
pub uninterp spec fn aes_256_gcm_sealed(
    key: Seq<u8>,
    nonce: Seq<u8>,
    aad: Seq<u8>,
    plaintext: Seq<u8>,
) -> Seq<u8>;

/// HMAC-SHA256 of `data` under `key`.
pub uninterp spec fn hmac_sha256_tag(key: Seq<u8>, data: Seq<u8>) -> Seq<u8>;

/// HMAC-SHA512 of `data` under `key`.
pub uninterp spec fn hmac_sha512_tag(key: Seq<u8>, data: Seq<u8>) -> Seq<u8>;

/// Strict Ed25519 verification of `signature` over `message` succeeds.
pub uninterp spec fn ed25519_accepts(
    pubkey: Seq<u8>,
    message: Seq<u8>,
    signature: Seq<u8>,
) -> bool;

/// Two sealings of sixteen bytes under one keystream: ciphertexts differ where, and
/// by what, plaintexts differ.
pub open spec fn same_keystream(
    sealed: Seq<u8>,
    plaintext: Seq<u8>,
    other_sealed: Seq<u8>,
    other_plaintext: Seq<u8>,
) -> bool {
    &&& other_sealed.len() == 32
    &&& forall|i: int|
        #![trigger sealed[i]]
        #![trigger other_sealed[i]]
        0 <= i < 16 ==> sealed[i] ^ other_sealed[i] == plaintext[i] ^ other_plaintext[i]
}

/// Calls `x25519_dalek::PublicKey::from` on a `StaticSecret`.
///
/// Claims that the public key is what the exchange with the base point gives.
#[verifier::external_body]
pub(crate) fn x25519_public(private_key: &[u8; 32]) -> (public_key: [u8; 32])
    ensures
        public_key@ == x25519_public_key(private_key@),
{
    PublicKey::from(&StaticSecret::from(*private_key)).to_bytes()
}

/// Calls `x25519_dalek::StaticSecret::diffie_hellman`.
///
/// Claims that the shared secret is a function of the two keys, and that both
/// sides of an exchange come to the same secret: where the peer's public key
/// belongs to some private key, that private key and our public key give it too.
#[verifier::external_body]
pub(crate) fn x25519_ecdh(private_key: &[u8; 32], peer_public_key: &[u8; 32]) -> (secret: [u8; 32])
    ensures
        secret@ == x25519_shared(private_key@, peer_public_key@),
        forall|peer_private: Seq<u8>|
            peer_private.len() == 32 && peer_public_key@ == #[trigger] x25519_public_key(
                peer_private,
            ) ==> secret@ == x25519_shared(peer_private, x25519_public_key(private_key@)),
{
    StaticSecret::from(*private_key).diffie_hellman(&PublicKey::from(*peer_public_key)).to_bytes()
}

/// Calls `Aes128Gcm::encrypt_in_place_detached` under a fresh cipher.
///
/// Claims that it fails for associated data over the cipher's limit and for
/// nothing else (the plaintext is far below its own limit), that ciphertext and
/// tag are a function of key, nonce, associated data and plaintext, and that the
/// ciphertext is the plaintext, combined by exclusive or with a keystream that key
/// and nonce fix: whatever else is sealed under them, the two ciphertexts differ by
/// what the two plaintexts differ by.
#[verifier::external_body]
pub(crate) fn aes_128_gcm_seal(
    key: &[u8; 16],
    nonce: &[u8; 12],
    aad: &[u8],
    plaintext: &[u8; 16],
) -> (sealed: Result<([u8; 16], [u8; 16]), aes_gcm::Error>)
    ensures
        sealed is Ok <==> aad@.len() <= AAD_MAX,
        sealed matches Ok(parts) ==> parts.0@ + parts.1@ == aes_128_gcm_sealed(
            key@,
            nonce@,
            aad@,
            plaintext@,
        ),
        sealed matches Ok(parts) ==> forall|other_aad: Seq<u8>, other: Seq<u8>|
            other_aad.len() <= AAD_MAX && other.len() == 16 ==> same_keystream(
                parts.0@ + parts.1@,
                plaintext@,
                #[trigger] aes_128_gcm_sealed(key@, nonce@, other_aad, other),
                other,
            ),
{
    let mut buffer = *plaintext;
    let cipher = Aes128Gcm::new(key.into());
    let tag = cipher.encrypt_in_place_detached(nonce.into(), aad, &mut buffer)?;
    Ok((buffer, tag.into()))
}

/// Calls `Aes256Gcm::encrypt_in_place_detached` under a fresh cipher.
///
/// Claims that it fails for associated data over the cipher's limit and for
/// nothing else (the plaintext is far below its own limit), that ciphertext and
/// tag are a function of key, nonce, associated data and plaintext, and that no
/// two plaintexts come out the same: the ciphertext is the plaintext, combined by
/// exclusive or with a keystream that key and nonce fix.
#[verifier::external_body]
pub(crate) fn aes_256_gcm_seal(
    key: &[u8; 32],
    nonce: &[u8; 12],
    aad: &[u8],
    plaintext: &[u8; 16],
) -> (sealed: Result<([u8; 16], [u8; 16]), aes_gcm::Error>)
    ensures
        sealed is Ok <==> aad@.len() <= AAD_MAX,
        sealed matches Ok(parts) ==> parts.0@ + parts.1@ == aes_256_gcm_sealed(
            key@,
            nonce@,
            aad@,
            plaintext@,
        ),
        sealed matches Ok(parts) ==> forall|other: Seq<u8>|
            other.len() == 16 && parts.0@ + parts.1@ == (#[trigger] aes_256_gcm_sealed(
                key@,
                nonce@,
                aad@,
                other,
            )) ==> other == plaintext@,
{
    let mut buffer = *plaintext;
    let cipher = Aes256Gcm::new(key.into());
    let tag = cipher.encrypt_in_place_detached(nonce.into(), aad, &mut buffer)?;
    Ok((buffer, tag.into()))
}

/// Calls `hmac::Hmac::<Sha256>`: one `update`, then `finalize`.
///
/// Claims that the tag is a function of key and data. A key of any length is taken.
#[verifier::external_body]
pub(crate) fn hmac_sha256(key: &[u8], data: &[u8]) -> (tag: [u8; 32])
    ensures
        tag@ == hmac_sha256_tag(key@, data@),
{
    let mut mac = <Hmac<Sha256> as Mac>::new_from_slice(key).expect("HMAC takes any key");
    mac.update(data);
    mac.finalize().into_bytes().into()
}

/// Calls `hmac::Hmac::<Sha512>`: one `update`, then `finalize`.
///
/// Claims that the tag is a function of key and data.
#[verifier::external_body]
pub(crate) fn hmac_sha512(key: &[u8; 32], data: &[u8]) -> (tag: [u8; 64])
    ensures
        tag@ == hmac_sha512_tag(key@, data@),
{
    let mut mac = <Hmac<Sha512> as Mac>::new_from_slice(key).expect("HMAC takes any key");
    mac.update(data);
    mac.finalize().into_bytes().into()
}

/// Calls `ed25519_dalek::VerifyingKey::verify_strict`.
///
/// Claims that the verdict is a function of key, message and signature, a key or
/// a signature that does not parse being a refusal, and that no signature of
/// another length than 64 bytes is accepted.
#[verifier::external_body]
pub(crate) fn ed25519_verify(pubkey: &[u8; 32], message: &[u8], signature: &[u8]) -> (valid: bool)
    ensures
        valid == ed25519_accepts(pubkey@, message@, signature@),
        valid ==> signature@.len() == 64,
{
    let Ok(verifying_key) = VerifyingKey::from_bytes(pubkey) else {
        return false;
    };
    let Ok(signature) = Signature::from_slice(signature) else {
        return false;
    };
    verifying_key.verify_strict(message, &signature).is_ok()
}

} // verus!
