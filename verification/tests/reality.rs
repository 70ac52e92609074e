use std::cell::Cell;
use std::collections::hash_map::DefaultHasher;
use std::hash::{Hash, Hasher};
use std::sync::Arc;

use aes_gcm::aead::{Aead, KeyInit, Payload};
use aes_gcm::{Aes128Gcm, Aes256Gcm, Nonce};
use ed25519_dalek::{Signer, SigningKey};
use hmac::{Hmac, Mac};
use sha2::{Sha256, Sha512};
use x25519_dalek::{PublicKey, StaticSecret};

use reality_tls::{
    add_ed25519, aes_128_gcm_encrypt, aes_256_gcm_encrypt, constant_time_eq, embedded_key_verdict, ends_in_tag,
    extract_ed25519_pubkey_from_reality_cert, get_hkdf_sha256_from_provider, join_sealed, provider,
    reality_vouches, verify_reality_cert, verify_with_embedded_key, AuthKeySlot, CertificateError,
    CertificateIdentity, CertificateType, CipherSuiteCommon, CryptoProvider, DigitallySignedStruct,
    GetRandomFailed, Grease, HandshakeSignatureValid, HashAlgorithm, Hkdf, HkdfExpander,
    HkdfSha256, Identity, KeyExchangeAlgorithm, NamedGroup, OutputLengthError, PeerVerified,
    Provider, Random, RealityConfig, RealityConfigError, RealityServerCertVerifier,
    RealitySessionState, SecureRandom, ServerIdentity, ServerVerifier, SignatureScheme,
    SignatureVerificationInput, SignerPublicKey, Tls13CipherSuite, TlsError,
};

fn unhex(s: &str) -> Vec<u8> {
    (0..s.len() / 2)
        .map(|i| u8::from_str_radix(&s[2 * i..2 * i + 2], 16).unwrap())
        .collect()
}

fn key32(s: &str) -> [u8; 32] {
    unhex(s).try_into().unwrap()
}

fn hmac256(key: &[u8], data: &[u8]) -> Vec<u8> {
    let mut mac = <Hmac<Sha256> as Mac>::new_from_slice(key).unwrap();
    mac.update(data);
    mac.finalize().into_bytes().to_vec()
}

fn hmac512(key: &[u8], data: &[u8]) -> Vec<u8> {
    let mut mac = <Hmac<Sha512> as Mac>::new_from_slice(key).unwrap();
    mac.update(data);
    mac.finalize().into_bytes().to_vec()
}

fn general_text(e: TlsError) -> String {
    match e {
        TlsError::General(text) => text,
        other => panic!("unexpected error {other:?}"),
    }
}

/// A certificate as Reality servers make it: a key behind its OID, a tag at the end.
fn certificate(pubkey: &[u8], auth_key: &[u8]) -> Vec<u8> {
    let mut der = vec![0x30, 0x82, 0x01, 0x00];
    der.extend([0x06, 0x03, 0x2b, 0x65, 0x70, 0x03, 0x21, 0x00]);
    der.extend(pubkey);
    der.extend([0xa5; 20]);
    der.extend(hmac512(auth_key, pubkey));
    der
}

#[test]
fn test_reality_config_creation() {
    let config = RealityConfig::new([1u8; 32], vec![0x12, 0x34]).unwrap();
    assert_eq!(config.short_id().len(), 2);
    assert_eq!(*config.client_version(), [0, 0, 0]);
}

#[test]
fn test_short_id_too_long() {
    assert!(matches!(
        RealityConfig::new([1u8; 32], vec![0u8; 9]),
        Err(RealityConfigError::ShortIdTooLong)
    ));
}

#[test]
fn test_with_client_version() {
    let config = RealityConfig::new([1u8; 32], vec![0x12])
        .unwrap()
        .with_client_version([1, 2, 3]);
    assert_eq!(*config.client_version(), [1, 2, 3]);
}

#[test]
fn short_ids_of_up_to_eight_bytes_are_taken() {
    for len in 0..12usize {
        let r = RealityConfig::new([7u8; 32], vec![0xee; len]);
        assert_eq!(r.is_ok(), len <= 8);
    }
    let config = RealityConfig::new([7u8; 32], vec![0xee; 8]).unwrap();
    let copy = config.clone().with_client_version([9, 9, 9]);
    assert_eq!(*copy.server_public_key(), [7u8; 32]);
    assert_eq!(copy.short_id(), [0xee; 8]);
    assert_eq!(*config.client_version(), [0, 0, 0]);
}

#[test]
fn configuration_errors_say_what_went_wrong() {
    assert_eq!(
        RealityConfigError::ShortIdTooLong.message(),
        "Reality short_id must be at most 8 bytes"
    );
    assert_eq!(
        RealityConfigError::CryptoError("no entropy".to_string()).message(),
        "Reality crypto error: no entropy"
    );
}

#[test]
fn the_session_plaintext_has_its_fields_in_place() {
    let config = RealityConfig::new([1u8; 32], vec![0x12, 0x34, 0x56])
        .unwrap()
        .with_client_version([1, 8, 2]);
    assert_eq!(
        config.session_plaintext(0x6543_2101),
        [1, 8, 2, 0, 0x65, 0x43, 0x21, 0x01, 0x12, 0x34, 0x56, 0, 0, 0, 0, 0]
    );
    let full = RealityConfig::new([1u8; 32], vec![1, 2, 3, 4, 5, 6, 7, 8]).unwrap();
    assert_eq!(
        full.session_plaintext(u32::MAX),
        [0, 0, 0, 0, 255, 255, 255, 255, 1, 2, 3, 4, 5, 6, 7, 8]
    );
}

#[test]
fn the_key_exchange_gives_the_published_values() {
    // RFC 7748, section 5.2.
    let peer = key32("e6db6867583030db3594c1a424b15f7c726624ec26b3353b10a903a6d0ab1c4c");
    let private = key32("a546e36bf0527c9d3b16154b82465edd62144c0ac1fc5a18506a2244ba449ac4");
    let config = Arc::new(RealityConfig::new(peer, vec![]).unwrap());
    let kx = RealitySessionState::from_private_key(config.clone(), private).into_key_exchange();
    assert_eq!(kx.group(), NamedGroup::X25519);
    let secret = kx.complete(&peer).unwrap();
    assert_eq!(
        secret.secret_bytes(),
        unhex("c3da55379de9c6908e94ea4df28d084f32eccf03491c71f754b4075577a28552")
    );

    let mut nine = [0u8; 32];
    nine[0] = 9;
    let kx = RealitySessionState::from_private_key(config, nine).into_key_exchange();
    assert_eq!(
        kx.pub_key(),
        unhex("422c8e7a6227d7bca1350b3e2bb7279f7897b87bb6854b783c60e80311ae3079")
    );
}

#[test]
fn a_peer_key_of_the_wrong_length_is_refused() {
    for len in [0usize, 31, 33, 64] {
        let config = Arc::new(RealityConfig::new([1u8; 32], vec![]).unwrap());
        let kx = RealitySessionState::from_private_key(config, [5u8; 32]).into_key_exchange();
        match kx.complete(&vec![9u8; len]) {
            Ok(_) => panic!("accepted"),
            Err(e) => assert_eq!(general_text(e), "invalid peer public key length"),
        }
    }
}

#[test]
fn both_sides_of_the_exchange_agree() {
    for seed in 1..20u8 {
        let server_private = [seed; 32];
        let server_public = PublicKey::from(&StaticSecret::from(server_private)).to_bytes();
        let config = Arc::new(RealityConfig::new(server_public, vec![]).unwrap());
        let kx = RealitySessionState::from_private_key(config, [seed ^ 0x5a; 32]).into_key_exchange();
        let client_public: [u8; 32] = kx.pub_key().try_into().unwrap();
        let server_side = StaticSecret::from(server_private)
            .diffie_hellman(&PublicKey::from(client_public))
            .to_bytes();
        let client_side = kx.complete(&server_public).unwrap();
        assert_eq!(client_side.secret_bytes(), server_side);
    }
}

#[test]
fn hkdf_gives_the_published_key_material() {
    // RFC 5869, test case 1.
    let salt = unhex("000102030405060708090a0b0c");
    let expander = HkdfSha256.extract_from_secret(Some(&salt), &[0x0b; 22]);
    let mut okm = [0u8; 42];
    expander
        .expand_slice(&unhex("f0f1f2f3f4f5f6f7f8f9"), &mut okm)
        .unwrap();
    assert_eq!(
        okm.to_vec(),
        unhex("3cb25f25faacd57a90434f64d0362f2a2d2d0a90cf1a5a4c5db02d56ecc4c5bf34007208d5b887185865")
    );

    // RFC 5869, test case 3: no salt, no info.
    let expander = HkdfSha256.extract_from_secret(None, &[0x0b; 22]);
    let mut okm = [0u8; 42];
    expander.expand_slice(&[], &mut okm).unwrap();
    assert_eq!(
        okm.to_vec(),
        unhex("8da4e775a563c18f715f802a063c5a31b8a11f5c5ee1879ec3454e5f3c738d2d9d201395faa4b61a96c8")
    );
}

#[test]
fn hkdf_refuses_more_than_it_has() {
    let expander = HkdfSha256.extract_from_secret(None, b"secret");
    let mut most = vec![0u8; 8160];
    assert!(expander.expand_slice(b"info", &mut most).is_ok());
    let mut short = vec![0u8; 33];
    assert!(expander.expand_slice(b"info", &mut short).is_ok());
    assert_eq!(short, most[..33]);

    let mut too_much = vec![7u8; 8161];
    assert!(matches!(
        expander.expand_slice(b"info", &mut too_much),
        Err(OutputLengthError)
    ));
    assert!(too_much.iter().all(|b| *b == 7));
    assert!(expander.expand_slice(b"info", &mut []).is_ok());
}

#[test]
fn sealing_is_undone_by_opening() {
    let key = [0x42; 32];
    let nonce = [0x24; 12];
    let plaintext = *b"sixteen bytes!!!";
    let sealed = aes_256_gcm_encrypt(&key, &nonce, b"bound to this", &plaintext).unwrap();
    let opened = Aes256Gcm::new(&key.into())
        .decrypt(
            Nonce::from_slice(&nonce),
            Payload {
                msg: &sealed,
                aad: b"bound to this",
            },
        )
        .unwrap();
    assert_eq!(opened, plaintext);

    let key = [0x42; 16];
    let sealed = aes_128_gcm_encrypt(&key, &nonce, b"bound to this", &plaintext).unwrap();
    let opened = Aes128Gcm::new(&key.into())
        .decrypt(
            Nonce::from_slice(&nonce),
            Payload {
                msg: &sealed,
                aad: b"bound to this",
            },
        )
        .unwrap();
    assert_eq!(opened, plaintext);
}

#[test]
fn sealing_gives_the_published_ciphertext() {
    // The GCM paper, test cases 2 and 14: all zeros.
    let sealed = aes_128_gcm_encrypt(&[0; 16], &[0; 12], &[], &[0; 16]).unwrap();
    assert_eq!(
        sealed.to_vec(),
        unhex("0388dace60b6a392f328c2b971b2fe78ab6e47d42cec13bdf53a67b21257bddf")
    );
    let sealed = aes_256_gcm_encrypt(&[0; 32], &[0; 12], &[], &[0; 16]).unwrap();
    assert_eq!(
        sealed.to_vec(),
        unhex("cea7403d4d606b6e074ec5d3baf39d18d0d1c8a799996bf0265b98b5d48ab919")
    );
}

#[test]
fn the_tag_goes_behind_the_ciphertext() {
    let joined = join_sealed(&[1; 16], &[2; 16]);
    assert_eq!(joined[..16], [1; 16]);
    assert_eq!(joined[16..], [2; 16]);
}

#[test]
fn the_server_can_read_the_session_id() {
    let server_private = StaticSecret::from([0x77; 32]);
    let server_public = PublicKey::from(&server_private).to_bytes();
    let config = Arc::new(
        RealityConfig::new(server_public, vec![0x1b, 0xc2, 0xc1, 0xef, 0x1c])
            .unwrap()
            .with_client_version([1, 8, 0]),
    );
    let expected = config.session_plaintext(1_700_000_000);
    let p = provider();
    let hkdf = get_hkdf_sha256_from_provider(&p).unwrap();

    let state = RealitySessionState::new(config, &p).unwrap();
    let mut random = [0u8; 32];
    for (i, byte) in random.iter_mut().enumerate() {
        *byte = i as u8;
    }
    let hello = b"a hello with zeros for its session id".to_vec();
    let mut slot = AuthKeySlot::new();
    assert!(slot.get().is_none());
    let session_id = state
        .compute_session_id(&mut slot, &Random(random), &hello, hkdf, 1_700_000_000)
        .unwrap();
    assert_ne!(session_id, [0u8; 32]);

    // The server's side: its private key and the public key from the key share.
    let client_public: [u8; 32] = state.clone().into_key_exchange().pub_key().try_into().unwrap();
    let shared = server_private
        .diffie_hellman(&PublicKey::from(client_public))
        .to_bytes();
    let prk = hmac256(&random[..20], &shared);
    let auth_key = hmac256(&prk, b"REALITY\x01");
    assert_eq!(slot.get().unwrap().to_vec(), auth_key);

    let cipher = Aes128Gcm::new_from_slice(&auth_key[..16]).unwrap();
    let opened = cipher
        .decrypt(
            Nonce::from_slice(&random[20..]),
            Payload {
                msg: &session_id,
                aad: &hello,
            },
        )
        .unwrap();
    assert_eq!(opened, expected);

    // Bound to the hello.
    assert!(cipher
        .decrypt(
            Nonce::from_slice(&random[20..]),
            Payload {
                msg: &session_id,
                aad: b"another hello",
            },
        )
        .is_err());

    // The same key again gives the same session ID.
    let again = state
        .seal_session_id(&slot.get().unwrap(), &Random(random), &hello, 1_700_000_000)
        .unwrap();
    assert_eq!(again, session_id);
}

#[test]
fn what_is_sealed_can_be_told_apart() {
    let key = [0x42; 32];
    let random = Random([3; 32]);
    let id = |version: [u8; 3], short_id: Vec<u8>, timestamp: u32| {
        let config = RealityConfig::new([9u8; 32], short_id)
            .unwrap()
            .with_client_version(version);
        RealitySessionState::from_private_key(Arc::new(config), [5u8; 32])
            .seal_session_id(&key, &random, b"hello", timestamp)
            .unwrap()
    };
    let base = id([1, 2, 3], vec![7, 8], 100);
    assert_eq!(id([1, 2, 3], vec![7, 8], 100), base);
    assert_ne!(id([1, 2, 4], vec![7, 8], 100), base);
    assert_ne!(id([1, 2, 3], vec![7, 9], 100), base);
    assert_ne!(id([1, 2, 3], vec![7, 8], 101), base);
    // Zeros at the end of a short ID are not seen.
    assert_eq!(id([1, 2, 3], vec![7, 8, 0], 100), base);
}

#[test]
fn session_ids_differ_by_their_times() {
    let config = RealityConfig::new([9u8; 32], vec![7, 8]).unwrap();
    let state = RealitySessionState::from_private_key(Arc::new(config), [5u8; 32]);
    let id = |hello: &[u8], timestamp: u32| {
        let mut slot = AuthKeySlot::new();
        state
            .compute_session_id(&mut slot, &Random([3; 32]), hello, &HkdfSha256, timestamp)
            .unwrap()
    };
    let (t, u) = (0x6543_2101u32, 0x0012_3456u32);
    let (a, b) = (id(b"one hello", t), id(b"another", u));
    for i in 0..4 {
        assert_eq!(a[4 + i] ^ b[4 + i], t.to_be_bytes()[i] ^ u.to_be_bytes()[i]);
    }
    assert_eq!(a[..4], b[..4]);
    assert_eq!(a[8..16], b[8..16]);
    // The hello touches the tag only.
    let c = id(b"another", t);
    assert_eq!(a[..16], c[..16]);
    assert_ne!(a[16..], c[16..]);
}

#[test]
fn public_keys_come_from_the_base_point() {
    let mut base = [0u8; 32];
    base[0] = 9;
    let exchange = |private: [u8; 32]| {
        let config = Arc::new(RealityConfig::new([1u8; 32], vec![]).unwrap());
        RealitySessionState::from_private_key(config, private).into_key_exchange()
    };
    let (a, b) = ([0x11; 32], [0xf2; 32]);
    let pa = exchange(a).complete(&base).unwrap();
    let pb = exchange(b).complete(&base).unwrap();
    assert_eq!(pa.secret_bytes(), exchange(a).pub_key());
    assert_eq!(pa.secret_bytes().len(), 32);
    let one = exchange(a).complete(pb.secret_bytes()).unwrap();
    let other = exchange(b).complete(pa.secret_bytes()).unwrap();
    assert_eq!(one.secret_bytes(), other.secret_bytes());
}

#[test]
fn every_session_has_a_key_of_its_own() {
    let config = Arc::new(RealityConfig::new([1u8; 32], vec![]).unwrap());
    let p = provider();
    let a = RealitySessionState::new(config.clone(), &p).unwrap();
    let b = RealitySessionState::new(config, &p).unwrap();
    assert_ne!(
        a.into_key_exchange().pub_key(),
        b.into_key_exchange().pub_key()
    );
}

/// A random source that writes what it was given, or fails.
struct Scripted(Option<u8>);

impl SecureRandom for Scripted {
    fn fill(&self, bytes: &mut [u8]) -> Result<(), GetRandomFailed> {
        match self.0 {
            Some(value) => {
                bytes.fill(value);
                Ok(())
            }
            None => Err(GetRandomFailed),
        }
    }
}

fn scripted_provider(random: Scripted) -> CryptoProvider<Scripted, HkdfSha256> {
    CryptoProvider {
        tls12_cipher_suites: vec![],
        tls13_cipher_suites: vec![],
        secure_random: random,
    }
}

#[test]
fn the_session_key_is_what_the_random_source_gave() {
    let config = Arc::new(RealityConfig::new([1u8; 32], vec![]).unwrap());
    let state =
        RealitySessionState::new(config.clone(), &scripted_provider(Scripted(Some(0x31)))).unwrap();
    assert_eq!(
        state.into_key_exchange().pub_key(),
        PublicKey::from(&StaticSecret::from([0x31; 32])).to_bytes()
    );
    assert!(matches!(
        RealitySessionState::new(config, &scripted_provider(Scripted(None))),
        Err(TlsError::FailedToGetRandomBytes)
    ));
    assert_eq!(Grease::new(&Scripted(Some(3))).unwrap().version, 0x3a3a);
    assert!(matches!(
        Grease::new(&Scripted(None)),
        Err(TlsError::FailedToGetRandomBytes)
    ));
}

#[test]
fn the_system_generator_fills_the_buffer() {
    let mut a = [0u8; 64];
    let mut b = [0u8; 64];
    Provider.fill(&mut a).unwrap();
    Provider.fill(&mut b).unwrap();
    assert_ne!(a, [0u8; 64]);
    assert_ne!(a, b);
}

#[test]
fn a_later_handshake_replaces_the_key() {
    let config = Arc::new(RealityConfig::new([9u8; 32], vec![]).unwrap());
    let state = RealitySessionState::from_private_key(config, [5u8; 32]);
    let mut slot = AuthKeySlot::new();
    slot.store([0xaa; 32]);
    let id = |slot: &mut AuthKeySlot, random: u8| {
        state
            .compute_session_id(slot, &Random([random; 32]), b"hello", &HkdfSha256, 0)
            .unwrap()
    };
    let first = id(&mut slot, 1);
    let first_key = slot.get().unwrap();
    assert_ne!(first_key, [0xaa; 32]);
    let second = id(&mut slot, 2);
    assert_ne!(slot.get().unwrap(), first_key);
    assert_ne!(first, second);
    assert_eq!(id(&mut slot, 1), first);
    assert_eq!(slot.get(), Some(first_key));
}

#[test]
fn the_provider_offers_its_two_suites() {
    let p = provider();
    assert_eq!(p.tls13_cipher_suites.len(), 1);
    assert_eq!(p.tls13_cipher_suites[0].common.suite, 0x1303);
    assert_eq!(
        p.tls13_cipher_suites[0].common.hash_provider,
        HashAlgorithm::SHA256
    );
    assert_eq!(p.tls12_cipher_suites.len(), 1);
    assert_eq!(p.tls12_cipher_suites[0].common.suite, 0xcca8);
    assert_eq!(p.tls12_cipher_suites[0].common.confidentiality_limit, u64::MAX);
    assert_eq!(p.tls12_cipher_suites[0].kx, KeyExchangeAlgorithm::ECDHE);
    assert_eq!(
        p.tls12_cipher_suites[0].sign,
        vec![SignatureScheme::RSA_PSS_SHA256, SignatureScheme::RSA_PKCS1_SHA256]
    );
}

fn suite(hash_provider: HashAlgorithm, hkdf_provider: u32) -> Tls13CipherSuite<u32> {
    Tls13CipherSuite {
        common: CipherSuiteCommon {
            suite: 0,
            hash_provider,
            confidentiality_limit: 0,
        },
        hkdf_provider,
    }
}

#[test]
fn the_first_sha256_suite_lends_its_hkdf() {
    let mut p = CryptoProvider {
        tls12_cipher_suites: vec![],
        tls13_cipher_suites: vec![
            suite(HashAlgorithm::SHA384, 1),
            suite(HashAlgorithm::SHA256, 2),
            suite(HashAlgorithm::SHA256, 3),
        ],
        secure_random: Provider,
    };
    assert_eq!(*get_hkdf_sha256_from_provider(&p).unwrap(), 2);
    p.tls13_cipher_suites = vec![suite(HashAlgorithm::SHA384, 1), suite(HashAlgorithm::SHA512, 2)];
    assert_eq!(
        general_text(get_hkdf_sha256_from_provider(&p).unwrap_err()),
        "Reality requires a TLS1.3 SHA-256 cipher suite"
    );
}

#[test]
fn the_documented_suite_goes_first() {
    let coded = |code: u16, hash: HashAlgorithm, hkdf: u32| {
        let mut made = suite(hash, hkdf);
        made.common.suite = code;
        made
    };
    let mut p = CryptoProvider {
        tls12_cipher_suites: vec![],
        tls13_cipher_suites: vec![
            coded(0x1303, HashAlgorithm::SHA256, 1),
            coded(0x1301, HashAlgorithm::SHA256, 2),
            coded(0x1301, HashAlgorithm::SHA256, 3),
        ],
        secure_random: Provider,
    };
    assert_eq!(*get_hkdf_sha256_from_provider(&p).unwrap(), 2);
    // Its code alone is not enough.
    p.tls13_cipher_suites = vec![
        coded(0x1301, HashAlgorithm::SHA384, 1),
        coded(0x1303, HashAlgorithm::SHA256, 2),
    ];
    assert_eq!(*get_hkdf_sha256_from_provider(&p).unwrap(), 2);
}

#[test]
fn comparison_looks_at_every_byte() {
    assert!(constant_time_eq(&[], &[]));
    assert!(constant_time_eq(b"same", b"same"));
    assert!(!constant_time_eq(b"same", b"sane"));
    assert!(!constant_time_eq(b"same", b"same "));
    let a: Vec<u8> = (0..=255).collect();
    for i in 0..a.len() {
        let mut b = a.clone();
        b[i] ^= 0x80;
        assert!(!constant_time_eq(&a, &b));
    }
}

#[test]
fn the_key_is_found_behind_its_oid() {
    let pubkey: Vec<u8> = (100..132).collect();
    for gap in 0..24usize {
        let mut der = vec![0x30; 7];
        der.extend([0x06, 0x03, 0x2b, 0x65, 0x70]);
        der.extend(vec![0xff; gap]);
        der.extend([0x03, 0x21, 0x00]);
        der.extend(&pubkey);
        let found = extract_ed25519_pubkey_from_reality_cert(&der);
        if gap <= 16 {
            assert_eq!(found.unwrap().to_vec(), pubkey);
            // Whatever is appended, the key stays.
            let mut longer = der.clone();
            longer.extend([0x06, 0x03, 0x2b, 0x65, 0x70, 0x03, 0x21, 0x00]);
            longer.extend([0x77; 40]);
            assert_eq!(extract_ed25519_pubkey_from_reality_cert(&longer), found);
        } else {
            assert_eq!(found, None);
        }
        // One byte short of a whole key.
        der.pop();
        assert_eq!(extract_ed25519_pubkey_from_reality_cert(&der), None);
    }
}

#[test]
fn the_first_whole_key_counts() {
    let oid = [0x06, 0x03, 0x2b, 0x65, 0x70];
    let header = [0x03, 0x21, 0x00];
    // An OID with nothing behind it, then one with two headers in reach.
    let mut der = oid.to_vec();
    der.extend([0u8; 30]);
    der.extend(oid);
    der.extend(header);
    der.extend(header);
    der.extend([0x11; 40]);
    let key = extract_ed25519_pubkey_from_reality_cert(&der).unwrap();
    assert_eq!(key[..3], header);
    assert_eq!(key[3..], [0x11; 29]);

    assert_eq!(extract_ed25519_pubkey_from_reality_cert(&[]), None);
    assert_eq!(extract_ed25519_pubkey_from_reality_cert(&[0x06; 100]), None);
    // A header in front of the OID does not count.
    let mut backwards = header.to_vec();
    backwards.extend([0x11; 32]);
    backwards.extend(oid);
    assert_eq!(extract_ed25519_pubkey_from_reality_cert(&backwards), None);
}

#[test]
fn a_tagged_certificate_is_recognised() {
    let auth_key = [0x3c; 32];
    let der = certificate(&[0x99; 32], &auth_key);
    assert_eq!(verify_reality_cert(&der, &auth_key), Some(true));
    assert_eq!(verify_reality_cert(&der, &[0x3d; 32]), Some(false));

    let mut broken = der.clone();
    let last = broken.len() - 1;
    broken[last] ^= 1;
    assert_eq!(verify_reality_cert(&broken, &auth_key), Some(false));

    // Too short for a tag, or without a key: not a Reality certificate at all.
    assert_eq!(verify_reality_cert(&der[..63], &auth_key), None);
    assert_eq!(verify_reality_cert(&[0x30; 200], &auth_key), None);
    assert!(verify_reality_cert(&der[..64], &auth_key).is_some());

    // Which of these it is does not depend on the key.
    for n in 0..der.len() {
        assert_eq!(
            verify_reality_cert(&der[..n], &auth_key).is_none(),
            verify_reality_cert(&der[..n], &[0; 32]).is_none()
        );
    }
}

#[test]
fn a_tag_is_looked_for_at_the_end() {
    let mut cert = vec![1u8; 10];
    cert.extend([2u8; 64]);
    assert!(ends_in_tag(&cert, &[2u8; 64]));
    assert!(!ends_in_tag(&cert, &[1u8; 64]));
    assert!(ends_in_tag(&[2u8; 64], &[2u8; 64]));
}

fn chain(end_entity: Vec<u8>) -> Identity {
    Identity::X509(CertificateIdentity {
        end_entity,
        intermediates: vec![],
    })
}

fn server(identity: Identity) -> ServerIdentity {
    ServerIdentity {
        identity,
        server_name: "localhost".to_string(),
        ocsp_response: vec![],
        now: 0,
    }
}

#[test]
fn only_the_stored_key_vouches() {
    let auth_key = [0x3c; 32];
    let der = certificate(&[0x99; 32], &auth_key);
    let mut slot = AuthKeySlot::new();
    assert!(!reality_vouches(&slot, &chain(der.clone())));
    slot.store(auth_key);
    assert!(reality_vouches(&slot, &chain(der.clone())));
    assert!(!reality_vouches(&slot, &chain(vec![0x30; 200])));
    assert!(!reality_vouches(&slot, &Identity::RawPublicKey(der.clone())));
    slot.store([0; 32]);
    assert!(!reality_vouches(&slot, &chain(der)));
}

/// A verifier that counts its calls and answers as it was told.
struct Stub {
    accepts: bool,
    schemes: Vec<SignatureScheme>,
    calls: Cell<usize>,
}

impl Stub {
    fn new(accepts: bool) -> Self {
        Stub {
            accepts,
            schemes: vec![],
            calls: Cell::new(0),
        }
    }

    fn answer(&self) -> Result<HandshakeSignatureValid, TlsError> {
        self.calls.set(self.calls.get() + 1);
        if self.accepts {
            Ok(HandshakeSignatureValid::assertion())
        } else {
            Err(TlsError::General("stub".to_string()))
        }
    }
}

impl ServerVerifier for &Stub {
    fn verify_identity(&self, _identity: &ServerIdentity) -> Result<PeerVerified, TlsError> {
        self.calls.set(self.calls.get() + 1);
        if self.accepts {
            Ok(PeerVerified::assertion())
        } else {
            Err(TlsError::InvalidCertificate(CertificateError::UnknownIssuer))
        }
    }

    fn verify_tls12_signature(
        &self,
        _input: &SignatureVerificationInput,
    ) -> Result<HandshakeSignatureValid, TlsError> {
        self.answer()
    }

    fn verify_tls13_signature(
        &self,
        _input: &SignatureVerificationInput,
    ) -> Result<HandshakeSignatureValid, TlsError> {
        self.answer()
    }

    fn supported_verify_schemes(&self) -> Vec<SignatureScheme> {
        self.schemes.clone()
    }

    fn request_ocsp_response(&self) -> bool {
        self.accepts
    }

    fn supported_certificate_types(&self) -> Vec<CertificateType> {
        vec![CertificateType::RawPublicKey]
    }

    fn root_hint_subjects(&self) -> Option<Vec<Vec<u8>>> {
        Some(vec![b"hello".to_vec()])
    }

    fn hash_config(&self, mut h: DefaultHasher) -> DefaultHasher {
        42u8.hash(&mut h);
        h
    }
}

#[test]
fn identities_that_are_not_vouched_for_go_to_the_other_verifier() {
    let auth_key = [0x3c; 32];
    let der = certificate(&[0x99; 32], &auth_key);
    let mut slot = AuthKeySlot::new();
    slot.store(auth_key);

    for accepts in [false, true] {
        let stub = Stub::new(accepts);
        let verifier = RealityServerCertVerifier::new(&slot, &stub);
        assert!(verifier.verify_identity(&server(chain(der.clone()))).is_ok());
        assert_eq!(stub.calls.get(), 0);

        let r = verifier.verify_identity(&server(chain(vec![0x30; 200])));
        assert_eq!(stub.calls.get(), 1);
        assert_eq!(r.is_ok(), accepts);
        if let Err(e) = r {
            assert!(matches!(
                e,
                TlsError::InvalidCertificate(CertificateError::UnknownIssuer)
            ));
        }

        // A Reality certificate under another key is the other verifier's to judge.
        let foreign = certificate(&[0x99; 32], &[0; 32]);
        assert_eq!(verifier.verify_identity(&server(chain(foreign))).is_ok(), accepts);
        assert_eq!(stub.calls.get(), 2);
    }

    let empty = AuthKeySlot::new();
    let stub = Stub::new(false);
    let verifier = RealityServerCertVerifier::new(&empty, &stub);
    assert!(verifier.verify_identity(&server(chain(der))).is_err());
    assert_eq!(stub.calls.get(), 1);
}

fn signed(signing: &SigningKey, message: &[u8], scheme: SignatureScheme) -> SignatureVerificationInput {
    SignatureVerificationInput {
        message: message.to_vec(),
        signer: SignerPublicKey::X509(certificate(
            signing.verifying_key().as_bytes(),
            &[0x3c; 32],
        )),
        signature: DigitallySignedStruct {
            scheme,
            sig: signing.sign(message).to_bytes().to_vec(),
        },
    }
}

#[test]
fn the_embedded_key_checks_signatures() {
    let signing = SigningKey::from_bytes(&[0x61; 32]);
    let good = signed(&signing, b"transcript", SignatureScheme::ED25519);
    assert!(verify_with_embedded_key(&good));

    let other_scheme = signed(&signing, b"transcript", SignatureScheme::RSA_PSS_SHA256);
    assert!(!verify_with_embedded_key(&other_scheme));

    let mut other_message = signed(&signing, b"transcript", SignatureScheme::ED25519);
    other_message.message.push(0);
    assert!(!verify_with_embedded_key(&other_message));

    let mut cut = signed(&signing, b"transcript", SignatureScheme::ED25519);
    cut.signature.sig.pop();
    assert!(!verify_with_embedded_key(&cut));

    let mut raw = signed(&signing, b"transcript", SignatureScheme::ED25519);
    raw.signer = SignerPublicKey::RawPublicKey(signing.verifying_key().to_bytes().to_vec());
    assert!(!verify_with_embedded_key(&raw));

    let mut keyless = signed(&signing, b"transcript", SignatureScheme::ED25519);
    keyless.signer = SignerPublicKey::X509(vec![0x30; 200]);
    assert!(!verify_with_embedded_key(&keyless));
}

#[test]
fn a_published_signature_is_accepted() {
    // RFC 8032, section 7.1, test 1.
    let pubkey = unhex("d75a980182b10ab7d54bfed3c964073a0ee172f3daa62325af021a68f707511a");
    let input = SignatureVerificationInput {
        message: vec![],
        signer: SignerPublicKey::X509(certificate(&pubkey, &[0; 32])),
        signature: DigitallySignedStruct {
            scheme: SignatureScheme::ED25519,
            sig: unhex(
                "e5564300c360ac729086e2cc806e828a84877f1eb8e5d974d873e065224901555fb8821590a33bacc61e39701cf9b46bd25bf5f0595bbe24655141438e7a100b",
            ),
        },
    };
    assert!(verify_with_embedded_key(&input));
}

#[test]
fn tls13_signatures_have_two_chances() {
    let slot = AuthKeySlot::new();
    let signing = SigningKey::from_bytes(&[0x61; 32]);
    let good = signed(&signing, b"transcript", SignatureScheme::ED25519);
    let bad = signed(&signing, b"transcript", SignatureScheme::RSA_PKCS1_SHA256);

    let willing = Stub::new(true);
    let verifier = RealityServerCertVerifier::new(&slot, &willing);
    assert!(verifier.verify_tls13_signature(&bad).is_ok());

    let strict = Stub::new(false);
    let verifier = RealityServerCertVerifier::new(&slot, &strict);
    assert!(verifier.verify_tls13_signature(&good).is_ok());
    assert!(matches!(
        verifier.verify_tls13_signature(&bad),
        Err(TlsError::InvalidCertificate(CertificateError::BadSignature))
    ));

    // TLS 1.2 has only one, whatever the certificate holds.
    assert_eq!(
        general_text(verifier.verify_tls12_signature(&good).unwrap_err()),
        "stub"
    );

    assert!(embedded_key_verdict(true).is_ok());
    assert!(matches!(
        embedded_key_verdict(false),
        Err(TlsError::InvalidCertificate(CertificateError::BadSignature))
    ));
}

#[test]
fn ed25519_is_always_supported() {
    let rsa = SignatureScheme::RSA_PSS_SHA256;
    let ed = SignatureScheme::ED25519;
    assert_eq!(add_ed25519(vec![]), vec![ed]);
    assert_eq!(add_ed25519(vec![rsa]), vec![rsa, ed]);
    assert_eq!(add_ed25519(vec![ed, rsa]), vec![ed, rsa]);

    let slot = AuthKeySlot::new();
    let mut stub = Stub::new(false);
    stub.schemes = vec![rsa];
    let verifier = RealityServerCertVerifier::new(&slot, &stub);
    assert_eq!(verifier.supported_verify_schemes(), vec![rsa, ed]);
}

#[test]
fn everything_else_is_the_other_verifiers_answer() {
    let slot = AuthKeySlot::new();
    for accepts in [false, true] {
        let stub = Stub::new(accepts);
        let verifier = RealityServerCertVerifier::new(&slot, &stub);
        assert_eq!(verifier.request_ocsp_response(), accepts);
        assert_eq!(
            verifier.supported_certificate_types(),
            vec![CertificateType::RawPublicKey]
        );
        assert_eq!(verifier.root_hint_subjects(), Some(vec![b"hello".to_vec()]));
        let mut direct = DefaultHasher::new();
        42u8.hash(&mut direct);
        assert_eq!(
            verifier.hash_config(DefaultHasher::new()).finish(),
            direct.finish()
        );
    }
}
