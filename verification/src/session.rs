//! The client's half of a Reality handshake.

use std::sync::Arc;
use vstd::prelude::*;
use vstd::slice::slice_subrange;

use crate::bytes::{be32, be32_round_trip};
use crate::config::{
    padded_short_id, session_plaintext, session_plaintext_fields, RealityConfig,
    RealityConfigModel,
};
use crate::crypto::{
    aes_128_gcm_seal, aes_128_gcm_sealed, aes_256_gcm_seal, aes_256_gcm_sealed, hmac_sha256_tag,
    same_keystream, x25519_ecdh, x25519_public, x25519_public_key, x25519_shared, AAD_MAX,
    BASE_POINT,
};
use crate::error::{general, is_general, GetRandomFailed, TlsError};
use crate::hkdf::{
    each_block_hangs_on_the_one_before, the_blocks_stand_in_a_row, Hkdf, HkdfExpander, HkdfSha256,
};
use crate::profile::RawExtension;
use crate::provider::CryptoProvider;
use crate::random::SecureRandom;

verus! {

/// The HKDF label of the authentication key: "REALITY".
pub const AUTH_KEY_INFO: [u8; 7] = [0x52, 0x45, 0x41, 0x4c, 0x49, 0x54, 0x59];

/// The code point of the group X25519.
pub const X25519_GROUP: u16 = 0x001d;

/// The random value of a `ClientHello`.
#[derive(Clone, Copy, Debug)]
pub struct Random(pub [u8; 32]);

/// Where the authentication key of the latest handshake is kept for the verifier.
#[derive(Clone, Copy, Debug)]
pub struct AuthKeySlot {
    key: Option<[u8; 32]>,
}

impl View for AuthKeySlot {
    type V = Option<Seq<u8>>;

    closed spec fn view(&self) -> Option<Seq<u8>> {
        match self.key {
            Some(key) => Some(key@),
            None => None,
        }
    }
}

impl AuthKeySlot {
    /// An empty slot.
    pub fn new() -> (slot: Self)
        ensures
            slot@ is None,
    {
        AuthKeySlot { key: None }
    }

    /// The key, if one has been stored.
    pub fn get(&self) -> (key: Option<[u8; 32]>)
        ensures
            match key {
                Some(k) => self@ == Some(k@),
                None => self@ is None,
            },
    {
        self.key
    }

    /// Stores a key in place of what was there.
    pub fn store(&mut self, key: [u8; 32])
        ensures
            final(self)@ == Some(key@),
    {
        self.key = Some(key);
    }
}

/// The authentication key: HKDF of the shared secret, salted with the first
/// twenty bytes of the hello's random value.
pub open spec fn auth_key<H: Hkdf>(hkdf: H, shared_secret: Seq<u8>, random: Seq<u8>) -> Option<
    Seq<u8>,
> {
    hkdf.okm(Some(random.subrange(0, 20)), shared_secret, AUTH_KEY_INFO@, 32)
}

/// The key that seals the session ID: the leading sixteen bytes of the
/// authentication key, as many as AES-128 takes.
pub open spec fn sealing_key(auth_key: Seq<u8>) -> Seq<u8> {
    auth_key.subrange(0, 16)
}

/// Sixteen bytes, sealed with AES-128-GCM under the sealing key, with the last
/// twelve bytes of the random value as nonce and bound to the hello.
pub open spec fn sealed_under(
    key: Seq<u8>,
    random: Seq<u8>,
    hello_bytes: Seq<u8>,
    plaintext: Seq<u8>,
) -> Seq<u8> {
    aes_128_gcm_sealed(sealing_key(key), random.subrange(20, 32), hello_bytes, plaintext)
}

/// The session ID under a given authentication key: the plaintext, sealed.
pub open spec fn session_id_under(
    config: RealityConfigModel,
    key: Seq<u8>,
    random: Seq<u8>,
    hello_bytes: Seq<u8>,
    timestamp: u32,
) -> Seq<u8> {
    sealed_under(key, random, hello_bytes, session_plaintext(config, timestamp))
}

/// Whoever has the key can tell from `id` what was sealed in it: no other sixteen
/// bytes give the same session ID.
pub open spec fn readable(
    id: Seq<u8>,
    key: Seq<u8>,
    random: Seq<u8>,
    hello_bytes: Seq<u8>,
    plaintext: Seq<u8>,
) -> bool {
    forall|p: Seq<u8>|
        p.len() == 16 && id == #[trigger] sealed_under(key, random, hello_bytes, p) ==> p
            == plaintext
}

/// Whatever else is sealed under the key and the random value, for whatever hello,
/// its ciphertext differs from that in `id` by what the plaintexts differ by.
pub open spec fn streamed(
    id: Seq<u8>,
    key: Seq<u8>,
    random: Seq<u8>,
    plaintext: Seq<u8>,
) -> bool {
    &&& id.len() == 32
    &&& forall|hello: Seq<u8>, p: Seq<u8>|
        hello.len() <= AAD_MAX && p.len() == 16 ==> same_keystream(
            id,
            plaintext,
            #[trigger] sealed_under(key, random, hello, p),
            p,
        )
}

/// What a [`RealitySessionState`] holds.
pub struct SessionModel {
    /// The configuration.
    pub config: RealityConfigModel,
    /// The client's ephemeral private key.
    pub client_private: Seq<u8>,
    /// The public key that belongs to it.
    pub client_public: Seq<u8>,
    /// The secret shared with the server.
    pub auth_shared_secret: Seq<u8>,
}

impl SessionModel {
    /// What holds of every session: the public key and the secret belong to the
    /// private key, and whoever has the server's private key gets the same secret
    /// from the client's public key.
    pub open spec fn well_formed(self) -> bool {
        &&& self.config.well_formed()
        &&& self.client_private.len() == 32
        &&& self.client_public.len() == 32
        &&& self.auth_shared_secret.len() == 32
        &&& self.client_public == x25519_public_key(self.client_private)
        &&& self.auth_shared_secret == x25519_shared(
            self.client_private,
            self.config.server_public_key,
        )
        &&& forall|server_private: Seq<u8>|
            server_private.len() == 32 && self.config.server_public_key == (
            #[trigger] x25519_public_key(server_private)) ==> self.auth_shared_secret
                == x25519_shared(server_private, self.client_public)
    }
}

/// The client's keys for one connection.
pub struct RealitySessionState {
    config: Arc<RealityConfig>,
    client_private: [u8; 32],
    client_public: [u8; 32],
    auth_shared_secret: [u8; 32],
}

impl View for RealitySessionState {
    type V = SessionModel;

    closed spec fn view(&self) -> SessionModel {
        SessionModel {
            config: self.config@,
            client_private: self.client_private@,
            client_public: self.client_public@,
            auth_shared_secret: self.auth_shared_secret@,
        }
    }
}

/// Copies the nonce out of a random value.
fn nonce_of(random: &Random) -> (nonce: [u8; 12])
    ensures
        nonce@ == random.0@.subrange(20, 32),
{
    let mut nonce = [0u8; 12];
    let mut k: usize = 0;
    while k < 12
        invariant
            k <= 12,
            forall|m: int| 0 <= m < k ==> nonce@[m] == random.0@[20 + m],
        decreases 12 - k,
    {
        nonce[k] = random.0[20 + k];
        k = k + 1;
    }
    assert(nonce@ =~= random.0@.subrange(20, 32));
    nonce
}

/// Copies the sealing key out of an authentication key.
fn sealing_key_of(auth_key: &[u8; 32]) -> (key: [u8; 16])
    ensures
        key@ == sealing_key(auth_key@),
{
    let mut key = [0u8; 16];
    let mut k: usize = 0;
    while k < 16
        invariant
            k <= 16,
            forall|m: int| 0 <= m < k ==> key@[m] == auth_key@[m],
        decreases 16 - k,
    {
        key[k] = auth_key[k];
        k = k + 1;
    }
    assert(key@ =~= sealing_key(auth_key@));
    key
}

/// Puts a tag behind its ciphertext.
pub fn join_sealed(ciphertext: &[u8; 16], tag: &[u8; 16]) -> (out: [u8; 32])
    ensures
        out@ == ciphertext@ + tag@,
{
    let mut out = [0u8; 32];
    let mut k: usize = 0;
    while k < 16
        invariant
            k <= 16,
            forall|m: int| 0 <= m < k ==> out@[m] == ciphertext@[m],
            forall|m: int| 16 <= m < 16 + k ==> #[trigger] out@[m] == tag@[m - 16],
        decreases 16 - k,
    {
        out[k] = ciphertext[k];
        out[16 + k] = tag[k];
        k = k + 1;
    }
    assert(out@ =~= ciphertext@ + tag@);
    out
}

proof fn lemma_xor_is_zero(a: u8, b: u8)
    ensures
        a ^ b == 0 <==> a == b,
{
    assert(a ^ b == 0 <==> a == b) by (bit_vector);
}

/// Seals sixteen bytes with AES-128-GCM; the tag comes behind the ciphertext.
///
/// Callers know the failure by its text, which is the same for both ciphers.
pub fn aes_128_gcm_encrypt(
    key: &[u8; 16],
    nonce: &[u8; 12],
    aad: &[u8],
    plaintext: &[u8; 16],
) -> (r: Result<[u8; 32], TlsError>)
    ensures
        r is Ok <==> aad@.len() <= AAD_MAX,
        r matches Ok(out) ==> {
            &&& out@ == aes_128_gcm_sealed(key@, nonce@, aad@, plaintext@)
            &&& forall|other_aad: Seq<u8>, other: Seq<u8>|
                other_aad.len() <= AAD_MAX && other.len() == 16 ==> same_keystream(
                    out@,
                    plaintext@,
                    #[trigger] aes_128_gcm_sealed(key@, nonce@, other_aad, other),
                    other,
                )
            &&& forall|other: Seq<u8>|
                other.len() == 16 && out@ == (#[trigger] aes_128_gcm_sealed(
                    key@,
                    nonce@,
                    aad@,
                    other,
                )) ==> other == plaintext@
        },
        r matches Err(e) ==> is_general(e, "Reality AES-256-GCM encrypt failed"@),
{
    match aes_128_gcm_seal(key, nonce, aad, plaintext) {
        Ok(parts) => {
            let out = join_sealed(&parts.0, &parts.1);
            proof {
                assert forall|other: Seq<u8>|
                    other.len() == 16 && out@ == (#[trigger] aes_128_gcm_sealed(
                        key@,
                        nonce@,
                        aad@,
                        other,
                    )) implies other == plaintext@ by {
                    assert forall|i: int| 0 <= i < 16 implies #[trigger] other[i]
                        == plaintext@[i] by {
                        lemma_xor_is_zero(out@[i], out@[i]);
                        lemma_xor_is_zero(plaintext@[i], other[i]);
                    }
                    assert(other =~= plaintext@);
                }
            }
            Ok(out)
        },
        Err(_) => Err(general("Reality AES-256-GCM encrypt failed")),
    }
}

/// Seals sixteen bytes with AES-256-GCM; the tag comes behind the ciphertext.
pub fn aes_256_gcm_encrypt(
    key: &[u8; 32],
    nonce: &[u8; 12],
    aad: &[u8],
    plaintext: &[u8; 16],
) -> (r: Result<[u8; 32], TlsError>)
    ensures
        r is Ok <==> aad@.len() <= AAD_MAX,
        r matches Ok(out) ==> {
            &&& out@ == aes_256_gcm_sealed(key@, nonce@, aad@, plaintext@)
            &&& forall|other: Seq<u8>|
                other.len() == 16 && out@ == (#[trigger] aes_256_gcm_sealed(
                    key@,
                    nonce@,
                    aad@,
                    other,
                )) ==> other == plaintext@
        },
        r matches Err(e) ==> is_general(e, "Reality AES-256-GCM encrypt failed"@),
{
    match aes_256_gcm_seal(key, nonce, aad, plaintext) {
        Ok(parts) => Ok(join_sealed(&parts.0, &parts.1)),
        Err(_) => Err(general("Reality AES-256-GCM encrypt failed")),
    }
}

impl RealitySessionState {
    #[verifier::type_invariant]
    spec fn inv(self) -> bool {
        self@.well_formed()
    }

    /// The session that a given private key makes.
    pub fn from_private_key(config: Arc<RealityConfig>, client_private: [u8; 32]) -> (state: Self)
        ensures
            state@.config == config@,
            state@.client_private == client_private@,
            state@.well_formed(),
    {
        let client_public = x25519_public(&client_private);
        let auth_shared_secret = x25519_ecdh(&client_private, config.server_public_key());
        RealitySessionState { config, client_private, client_public, auth_shared_secret }
    }

    /// A session with a fresh private key from the provider's random source.
    pub fn new<R: SecureRandom, H>(
        config: Arc<RealityConfig>,
        provider: &CryptoProvider<R, H>,
    ) -> (r: Result<Self, TlsError>)
        ensures
            exists|buffer: &mut [u8], filled: Result<(), GetRandomFailed>| #[trigger]
                call_ensures(R::fill, (&provider.secure_random, buffer), filled) && buffer@.len()
                    == 32 && match filled {
                    Ok(()) => r matches Ok(state) && state@.client_private == final(buffer)@,
                    Err(_) => r is Err,
                },
            r matches Ok(state) ==> state@.config == config@ && state@.well_formed(),
            r matches Err(e) ==> e is FailedToGetRandomBytes,
    {
        let mut client_private = [0u8; 32];
        match provider.secure_random.fill(&mut client_private) {
            Ok(()) => Ok(RealitySessionState::from_private_key(config, client_private)),
            Err(_) => Err(TlsError::FailedToGetRandomBytes),
        }
    }

    /// Hands the ephemeral key on to the key exchange of the handshake.
    pub fn into_key_exchange(self) -> (kx: RealityKeyExchange)
        ensures
            kx.private_key() == self@.client_private,
            kx.public_key() == self@.client_public,
    {
        proof {
            use_type_invariant(&self);
        }
        RealityKeyExchange { client_private: self.client_private, client_public: self.client_public }
    }

    /// The key share of the session: its group and its public key.
    pub fn key_share(&self) -> (share: RawExtension)
        ensures
            share@ == (X25519_GROUP, self@.client_public),
            self@.well_formed(),
    {
        proof {
            use_type_invariant(self);
        }
        let mut payload: Vec<u8> = Vec::new();
        payload.extend_from_slice(&self.client_public);
        assert(payload@ =~= self.client_public@);
        RawExtension { typ: X25519_GROUP, payload }
    }

    /// Seals the session ID under a given authentication key.
    pub fn seal_session_id(
        &self,
        auth_key: &[u8; 32],
        random: &Random,
        hello_bytes: &[u8],
        timestamp: u32,
    ) -> (r: Result<[u8; 32], TlsError>)
        ensures
            r is Ok <==> hello_bytes@.len() <= AAD_MAX,
            r matches Ok(id) ==> {
                &&& id@ == session_id_under(
                    self@.config,
                    auth_key@,
                    random.0@,
                    hello_bytes@,
                    timestamp,
                )
                &&& readable(
                    id@,
                    auth_key@,
                    random.0@,
                    hello_bytes@,
                    session_plaintext(self@.config, timestamp),
                )
                &&& streamed(
                    id@,
                    auth_key@,
                    random.0@,
                    session_plaintext(self@.config, timestamp),
                )
            },
            r matches Err(e) ==> is_general(e, "Reality AES-256-GCM encrypt failed"@),
    {
        let plaintext = self.config.session_plaintext(timestamp);
        let nonce = nonce_of(random);
        let key = sealing_key_of(auth_key);
        aes_128_gcm_encrypt(&key, &nonce, hello_bytes, &plaintext)
    }

    /// Computes the session ID of the hello and leaves the authentication key in `slot`.
    ///
    /// `hello_bytes` is the hello as it will be sent, with zeros for the session
    /// ID. Where the call fails the slot keeps what it had.
    pub fn compute_session_id<H: Hkdf>(
        &self,
        slot: &mut AuthKeySlot,
        random: &Random,
        hello_bytes: &[u8],
        hkdf: &H,
        timestamp: u32,
    ) -> (r: Result<[u8; 32], TlsError>)
        ensures
            match auth_key(*hkdf, self@.auth_shared_secret, random.0@) {
                Some(key) => {
                    &&& r is Ok <==> hello_bytes@.len() <= AAD_MAX
                    &&& r matches Ok(id) ==> {
                        &&& id@ == session_id_under(
                            self@.config,
                            key,
                            random.0@,
                            hello_bytes@,
                            timestamp,
                        )
                        &&& readable(
                            id@,
                            key,
                            random.0@,
                            hello_bytes@,
                            session_plaintext(self@.config, timestamp),
                        )
                        &&& streamed(
                            id@,
                            key,
                            random.0@,
                            session_plaintext(self@.config, timestamp),
                        )
                        &&& final(slot)@ == Some(key)
                    }
                    &&& r matches Err(e) ==> is_general(e, "Reality AES-256-GCM encrypt failed"@)
                },
                None => r matches Err(e) && is_general(e, "HKDF expand failed"@),
            },
            r is Err ==> *final(slot) == *old(slot),
            self@.well_formed(),
    {
        proof {
            use_type_invariant(self);
        }
        let salt = slice_subrange(random.0.as_slice(), 0, 20);
        let expander = hkdf.extract_from_secret(Some(salt), &self.auth_shared_secret);
        let mut key = [0u8; 32];
        match expander.expand_slice(&AUTH_KEY_INFO, &mut key) {
            Ok(()) => {},
            Err(_) => {
                return Err(general("HKDF expand failed"));
            },
        }
        match self.seal_session_id(&key, random, hello_bytes, timestamp) {
            Ok(id) => {
                slot.store(key);
                Ok(id)
            },
            Err(e) => Err(e),
        }
    }
}

impl Clone for RealitySessionState {
    fn clone(&self) -> (state: Self)
        ensures
            state@ == self@,
    {
        proof {
            use_type_invariant(self);
        }
        RealitySessionState {
            config: self.config.clone(),
            client_private: self.client_private,
            client_public: self.client_public,
            auth_shared_secret: self.auth_shared_secret,
        }
    }
}

/// The server derives the client's authentication key: its own private key and
/// the public key from the client's key share are all it takes.
pub proof fn server_derives_auth_key<H: Hkdf>(
    session: SessionModel,
    server_private: Seq<u8>,
    hkdf: H,
    random: Seq<u8>,
)
    requires
        session.well_formed(),
        server_private.len() == 32,
        session.config.server_public_key == x25519_public_key(server_private),
    ensures
        auth_key(hkdf, x25519_shared(server_private, session.client_public), random) == auth_key(
            hkdf,
            session.auth_shared_secret,
            random,
        ),
{
}

/// Client and server come to one secret: each side combines its own private key with
/// the other's public key, and a public key is the exchange with the base point.
pub proof fn both_sides_share_one_secret(session: SessionModel, server_private: Seq<u8>)
    requires
        session.well_formed(),
        server_private.len() == 32,
        session.config.server_public_key == x25519_shared(server_private, BASE_POINT@),
    ensures
        session.client_public == x25519_shared(session.client_private, BASE_POINT@),
        x25519_shared(session.client_private, session.config.server_public_key) == x25519_shared(
            server_private,
            session.client_public,
        ),
{
    assert(session.config.server_public_key == x25519_public_key(server_private));
}

/// A configuration and a time that give a readable session ID agree with what was
/// sealed in version, time and short ID.
pub proof fn session_id_tells_what_was_sealed(
    id: Seq<u8>,
    config: RealityConfigModel,
    key: Seq<u8>,
    random: Seq<u8>,
    hello_bytes: Seq<u8>,
    timestamp: u32,
    other: RealityConfigModel,
    other_timestamp: u32,
)
    requires
        config.well_formed(),
        other.well_formed(),
        readable(id, key, random, hello_bytes, session_plaintext(config, timestamp)),
        id == session_id_under(other, key, random, hello_bytes, other_timestamp),
    ensures
        other.client_version == config.client_version,
        other_timestamp == timestamp,
        padded_short_id(other.short_id) == padded_short_id(config.short_id),
{
    session_plaintext_fields(config, timestamp);
    session_plaintext_fields(other, other_timestamp);
}

/// Two session IDs of one configuration under one key and random value differ, in
/// front of their tags, just where and by what their times differ. So different
/// times give different session IDs, and the hello touches nothing but the tag.
pub proof fn session_ids_differ_by_their_times(
    id: Seq<u8>,
    config: RealityConfigModel,
    key: Seq<u8>,
    random: Seq<u8>,
    timestamp: u32,
    other_hello: Seq<u8>,
    other_timestamp: u32,
)
    requires
        config.well_formed(),
        streamed(id, key, random, session_plaintext(config, timestamp)),
        other_hello.len() <= AAD_MAX,
    ensures
        ({
            let other = session_id_under(config, key, random, other_hello, other_timestamp);
            &&& forall|i: int|
                0 <= i < 4 ==> id[4 + i] ^ other[4 + i] == #[trigger] be32(timestamp)[i] ^ be32(
                    other_timestamp,
                )[i]
            &&& forall|j: int| 0 <= j < 4 || 8 <= j < 16 ==> #[trigger] id[j] == other[j]
            &&& timestamp != other_timestamp ==> id != other
            &&& timestamp == other_timestamp ==> id.subrange(0, 16) == other.subrange(0, 16)
        }),
{
    let p = session_plaintext(config, timestamp);
    let q = session_plaintext(config, other_timestamp);
    let other = session_id_under(config, key, random, other_hello, other_timestamp);
    session_plaintext_fields(config, timestamp);
    session_plaintext_fields(config, other_timestamp);
    assert(other == sealed_under(key, random, other_hello, q));
    assert(same_keystream(id, p, other, q));
    assert forall|i: int| 0 <= i < 4 implies id[4 + i] ^ other[4 + i] == #[trigger] be32(
        timestamp,
    )[i] ^ be32(other_timestamp)[i] by {
        assert(p[4 + i] == be32(timestamp)[i]);
        assert(q[4 + i] == be32(other_timestamp)[i]);
    }
    assert forall|j: int| 0 <= j < 4 || 8 <= j < 16 implies #[trigger] id[j] == other[j] by {
        assert(p[j] == q[j]);
        lemma_xor_is_zero(p[j], q[j]);
        lemma_xor_is_zero(id[j], other[j]);
    }
    if timestamp == other_timestamp {
        assert forall|j: int| 0 <= j < 16 implies #[trigger] id[j] == other[j] by {
            lemma_xor_is_zero(p[j], q[j]);
            lemma_xor_is_zero(id[j], other[j]);
        }
        assert(id.subrange(0, 16) =~= other.subrange(0, 16));
    } else if id == other {
        assert forall|i: int| 0 <= i < 4 implies #[trigger] be32(timestamp)[i] == be32(
            other_timestamp,
        )[i] by {
            lemma_xor_is_zero(id[4 + i], other[4 + i]);
            lemma_xor_is_zero(be32(timestamp)[i], be32(other_timestamp)[i]);
        }
        assert(be32(timestamp) =~= be32(other_timestamp));
        be32_round_trip(timestamp);
        be32_round_trip(other_timestamp);
    }
}

/// A group that keys can be exchanged in.
#[derive(Clone, Copy, Debug, PartialEq, Eq, Structural)]
pub enum NamedGroup {
    /// Curve25519.
    X25519,
    /// Any other group, by its code point.
    Unknown(u16),
}

/// The outcome of a key exchange.
pub struct SharedSecret {
    bytes: Vec<u8>,
}

impl View for SharedSecret {
    type V = Seq<u8>;

    closed spec fn view(&self) -> Seq<u8> {
        self.bytes@
    }
}

impl SharedSecret {
    /// The secret itself.
    pub fn secret_bytes(&self) -> (bytes: &[u8])
        ensures
            bytes@ == self@,
    {
        self.bytes.as_slice()
    }
}

/// The X25519 exchange under the key that the session was made with.
pub struct RealityKeyExchange {
    client_private: [u8; 32],
    client_public: [u8; 32],
}

impl RealityKeyExchange {
    /// The client's private key.
    pub closed spec fn private_key(&self) -> Seq<u8> {
        self.client_private@
    }

    /// The client's public key.
    pub closed spec fn public_key(&self) -> Seq<u8> {
        self.client_public@
    }

    #[verifier::type_invariant]
    spec fn inv(self) -> bool {
        self.client_public@ == x25519_public_key(self.client_private@)
    }

    /// Completes the exchange with the peer's public key.
    ///
    /// A peer that holds the private key to it, and is given our public key,
    /// comes to the same secret.
    pub fn complete(self, peer_pub_key: &[u8]) -> (r: Result<SharedSecret, TlsError>)
        ensures
            r is Ok <==> peer_pub_key@.len() == 32,
            r matches Ok(secret) ==> {
                &&& secret@.len() == 32
                &&& secret@ == x25519_shared(self.private_key(), peer_pub_key@)
                &&& forall|peer_private: Seq<u8>|
                    peer_private.len() == 32 && peer_pub_key@ == (#[trigger] x25519_public_key(
                        peer_private,
                    )) ==> secret@ == x25519_shared(peer_private, self.public_key())
            },
            r matches Err(e) ==> is_general(e, "invalid peer public key length"@),
    {
        proof {
            use_type_invariant(&self);
        }
        if peer_pub_key.len() != 32 {
            return Err(general("invalid peer public key length"));
        }
        let mut peer_public = [0u8; 32];
        let mut k: usize = 0;
        while k < 32
            invariant
                k <= 32,
                peer_pub_key@.len() == 32,
                forall|m: int| 0 <= m < k ==> peer_public@[m] == peer_pub_key@[m],
            decreases 32 - k,
        {
            peer_public[k] = peer_pub_key[k];
            k = k + 1;
        }
        assert(peer_public@ =~= peer_pub_key@);
        let shared = x25519_ecdh(&self.client_private, &peer_public);
        let mut bytes: Vec<u8> = Vec::new();
        bytes.extend_from_slice(&shared);
        assert(bytes@ =~= shared@);
        Ok(SharedSecret { bytes })
    }

    /// The client's public key, as it goes into the key share.
    pub fn pub_key(&self) -> (key: &[u8])
        ensures
            key@.len() == 32,
            key@ == self.public_key(),
            key@ == x25519_public_key(self.private_key()),
    {
        proof {
            use_type_invariant(self);
        }
        &self.client_public
    }

    /// The group of the exchange.
    pub fn group(&self) -> (group: NamedGroup)
        ensures
            group == NamedGroup::X25519,
    {
        NamedGroup::X25519
    }
}

/// The keys of a session belong together: the public key is the exchange with the point
/// nine, and the secret the exchange with the server's key, both under one private key.
pub proof fn the_keys_of_a_session_belong_together(session: SessionModel, nine: Seq<u8>)
    requires
        session.well_formed(),
        nine.len() == 32,
        nine[0] == 9,
        forall|i: int| 1 <= i < 32 ==> #[trigger] nine[i] == 0,
    ensures
        session.client_public == x25519_shared(session.client_private, nine),
        session.auth_shared_secret == x25519_shared(
            session.client_private,
            session.config.server_public_key,
        ),
{
    assert(nine =~= BASE_POINT@);
}

/// The authentication key comes from the shared secret, the first twenty bytes of the
/// random value and the label "REALITY"; the other twelve bytes do not matter to it.
pub proof fn the_authentication_key_takes_twenty_bytes_of_salt<H: Hkdf>(
    hkdf: H,
    secret: Seq<u8>,
    salt: Seq<u8>,
    nonce: Seq<u8>,
)
    requires
        salt.len() == 20,
        nonce.len() == 12,
    ensures
        auth_key(hkdf, secret, salt + nonce) == hkdf.okm(
            Some(salt),
            secret,
            seq![0x52u8, 0x45u8, 0x41u8, 0x4cu8, 0x49u8, 0x54u8, 0x59u8],
            32,
        ),
{
    assert((salt + nonce).subrange(0, 20) =~= salt);
    assert(AUTH_KEY_INFO@ =~= seq![0x52u8, 0x45u8, 0x41u8, 0x4cu8, 0x49u8, 0x54u8, 0x59u8]);
}

/// The session ID is sealed under the first half of the authentication key, with the last
/// twelve bytes of the random value as nonce, over the whole hello; neither the other half
/// of the key nor the salt matters to it.
pub proof fn the_session_id_takes_half_a_key_and_twelve_bytes_of_nonce(
    config: RealityConfigModel,
    half: Seq<u8>,
    other_half: Seq<u8>,
    salt: Seq<u8>,
    nonce: Seq<u8>,
    hello_bytes: Seq<u8>,
    timestamp: u32,
)
    requires
        half.len() == 16,
        other_half.len() == 16,
        salt.len() == 20,
        nonce.len() == 12,
    ensures
        session_id_under(config, half + other_half, salt + nonce, hello_bytes, timestamp)
            == aes_128_gcm_sealed(half, nonce, hello_bytes, session_plaintext(config, timestamp)),
{
    assert((half + other_half).subrange(0, 16) =~= half);
    assert((salt + nonce).subrange(20, 32) =~= nonce);
}

/// With HKDF-SHA256 the authentication key is two HMACs: the secret under the salt, and under
/// what that gives, "REALITY" with a one behind it.
pub proof fn the_authentication_key_is_two_hmacs(secret: Seq<u8>, salt: Seq<u8>, nonce: Seq<u8>)
    requires
        salt.len() == 20,
        nonce.len() == 12,
        hmac_sha256_tag(
            hmac_sha256_tag(salt, secret),
            seq![0x52u8, 0x45u8, 0x41u8, 0x4cu8, 0x49u8, 0x54u8, 0x59u8, 0x01u8],
        ).len() == 32,
    ensures
        auth_key(HkdfSha256, secret, salt + nonce) == Some(
            hmac_sha256_tag(
                hmac_sha256_tag(salt, secret),
                seq![0x52u8, 0x45u8, 0x41u8, 0x4cu8, 0x49u8, 0x54u8, 0x59u8, 0x01u8],
            ),
        ),
{
    let label = seq![0x52u8, 0x45u8, 0x41u8, 0x4cu8, 0x49u8, 0x54u8, 0x59u8];
    let input = seq![0x52u8, 0x45u8, 0x41u8, 0x4cu8, 0x49u8, 0x54u8, 0x59u8, 0x01u8];
    let prk = hmac_sha256_tag(salt, secret);
    the_authentication_key_takes_twenty_bytes_of_salt(HkdfSha256, secret, salt, nonce);
    the_blocks_stand_in_a_row(prk, label, 0);
    each_block_hangs_on_the_one_before(prk, label, 1);
    assert(label + seq![1u8] =~= input);
    let block = hmac_sha256_tag(prk, input);
    assert(block.take(32) =~= block);
}

} // verus!
