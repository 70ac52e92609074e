use std::sync::Arc;

use aes_gcm::aead::{Aead, KeyInit, Payload};
use aes_gcm::{Aes128Gcm, Nonce};

use reality_tls::{
    get_hkdf_sha256_from_provider, is_grease, provider, AuthKeySlot, ClientHelloProfile, Grease,
    HelloOffer, HkdfSha256, Padding, RawExtension, RealityConfig, RealitySessionState, ShapedHello,
    WireClientHello,
};

fn offer(session_id: Vec<u8>) -> HelloOffer {
    HelloOffer {
        random: [0x5a; 32],
        session_id,
        cipher_suites: provider().cipher_suites(),
        tls12: false,
        named_groups: vec![0x001d, 0x0017],
        versions: vec![0x0304],
        key_shares: vec![RawExtension {
            typ: 0x0017,
            payload: vec![0x04; 65],
        }],
        extensions: vec![RawExtension::empty(23)],
        trailing: vec![],
    }
}

fn session_id(hello: &ShapedHello) -> [u8; 32] {
    hello.message()[39..71].try_into().unwrap()
}

#[test]
fn test_reality_session_id_not_overwritten_by_session_id_generator() {
    let server_pk = [1u8; 32];
    let short_id = vec![0x12, 0x34];
    let reality = Arc::new(RealityConfig::new(server_pk, short_id).unwrap());

    let p = provider();
    let hkdf = get_hkdf_sha256_from_provider(&p).unwrap();
    let hello_sent = |offer: HelloOffer| {
        let mut slot = AuthKeySlot::new();
        let session = RealitySessionState::new(reality.clone(), &p).unwrap();
        let grease = Grease::new(&p.secure_random).unwrap();
        session
            .reality_hello(&mut slot, &Default::default(), &grease, offer, hkdf, 1_700_000_000)
            .unwrap()
            .unwrap()
    };

    // A hello with Reality only, and one for which a generator produced all 0xFF.
    let ch_reality_only = hello_sent(offer(vec![]));
    let ch_reality_with_generator = hello_sent(offer(vec![0xFF; 32]));

    // Reality session_id should NOT be all zeros (it's encrypted data)
    assert_ne!(session_id(&ch_reality_only), [0u8; 32]);

    // With both Reality and session_id_generator, the session_id should come from
    // Reality (not the generator's all-0xFF value)
    assert_ne!(
        session_id(&ch_reality_with_generator),
        [0xFF; 32],
        "session_id_generator should not overwrite Reality's session_id"
    );

    // The session_id should still be non-zero (Reality-computed)
    assert_ne!(session_id(&ch_reality_with_generator), [0u8; 32]);
}

#[test]
fn the_server_reads_the_hello_that_was_sent() {
    let config = Arc::new(
        RealityConfig::new([9u8; 32], vec![7, 8, 9])
            .unwrap()
            .with_client_version([1, 8, 0]),
    );
    let expected = config.session_plaintext(1234);
    let session = RealitySessionState::from_private_key(config, [5u8; 32]);
    let profile = ClientHelloProfile {
        grease: true,
        padding: Some(Padding {
            only_above: 0,
            up_to: 517,
        }),
        ..Default::default()
    };
    let grease = Grease::from_seed(&[0, 1, 2, 3, 4]);
    let mut slot = AuthKeySlot::new();
    let build = |slot: &mut AuthKeySlot, id: Vec<u8>| {
        session
            .reality_hello(slot, &profile, &grease, offer(id), &HkdfSha256, 1234)
            .unwrap()
            .unwrap()
    };
    let hello = build(&mut slot, vec![0xff; 5]);
    assert_eq!(hello.body().len(), 517);

    // The key share is the session's, behind GREASE, and the only one.
    let wire = WireClientHello::parse(&hello.records());
    let shares = wire.key_shares();
    assert_eq!(shares.len(), 2);
    assert!(is_grease(shares[0].0));
    assert_eq!(shares[1].0, 0x001d);
    assert_eq!(
        shares[1].1,
        session.clone().into_key_exchange().pub_key().to_vec()
    );
    assert_eq!(session.key_share().payload, shares[1].1);

    // The server blanks the session ID and opens it over what is left.
    let message = hello.message();
    let mut blank = message.clone();
    blank[39..71].fill(0);
    let key = slot.get().unwrap();
    let opened = Aes128Gcm::new_from_slice(&key[..16])
        .unwrap()
        .decrypt(
            Nonce::from_slice(&[0x5a; 12]),
            Payload {
                msg: &message[39..71],
                aad: &blank,
            },
        )
        .unwrap();
    assert_eq!(opened, expected);

    // What the offer said for a session ID did not matter.
    assert_eq!(build(&mut slot, vec![]).message(), message);

    // And another session ID changes nothing else.
    let mut other = message.clone();
    other[39..71].fill(0xab);
    assert_eq!(hello.with_session_id(&[0xab; 32]).message(), other);
}

#[test]
fn a_hello_that_cannot_be_written_leaves_the_slot_alone() {
    let config = Arc::new(RealityConfig::new([9u8; 32], vec![]).unwrap());
    let session = RealitySessionState::from_private_key(config, [5u8; 32]);
    let profile = ClientHelloProfile {
        cipher_suites: Some(vec![0x1301; 40000]),
        ..Default::default()
    };
    let grease = Grease::from_seed(&[0; 5]);
    let mut slot = AuthKeySlot::new();
    slot.store([0xaa; 32]);
    let built = session
        .reality_hello(&mut slot, &profile, &grease, offer(vec![]), &HkdfSha256, 0)
        .unwrap();
    assert!(built.is_none());
    assert_eq!(slot.get(), Some([0xaa; 32]));
}

#[test]
fn tls13_suites_are_offered_first() {
    let mut p = provider();
    assert_eq!(p.cipher_suites(), vec![0x1303, 0xcca8]);
    p.tls13_cipher_suites.clear();
    assert_eq!(p.cipher_suites(), vec![0xcca8]);
    p.tls12_cipher_suites.clear();
    assert_eq!(p.cipher_suites(), Vec::<u16>::new());
}
