use reality_tls::{
    is_grease, provider, EchGreaseConfig, Grease, HpkeAead, HpkeKdf, HpkeKem, HpkeSuite,
    HpkeSymmetricCipherSuite, Padding, TlsError, GREASE_VALUES,
};

#[test]
fn padding_follows_the_boringssl_rule() {
    let padding = Padding::default();

    // Below the window: left alone.
    assert_eq!(padding.body_len(0xff), None);
    // At the bottom edge: padded up to the target, header included.
    assert_eq!(padding.body_len(0x100), Some(0x200 - 0x100 - 4));
    // Room for a body.
    assert_eq!(padding.body_len(0x1f0), Some(0x200 - 0x1f0 - 4));
    // Too close to the target for the four byte header to fit: an empty
    // extension goes out anyway, overshooting by those four bytes. That is
    // what BoringSSL does, and matching it is the point.
    assert_eq!(padding.body_len(0x1ff), Some(0));
    // At and above the target: nothing to do.
    assert_eq!(padding.body_len(0x200), None);
    assert_eq!(padding.body_len(0x400), None);
}

#[test]
fn padding_never_asks_for_a_negative_body() {
    // Four bytes short of the target there is no room for a body, but the
    // extension is still sent - an absent extension and an empty one look
    // different on the wire.
    let padding = Padding {
        only_above: 0,
        up_to: 10,
    };
    assert_eq!(padding.body_len(8), Some(0));
    assert_eq!(padding.body_len(7), Some(0));
    assert_eq!(padding.body_len(6), Some(0));
    assert_eq!(padding.body_len(5), Some(1));
}

#[test]
fn padding_is_done_once() {
    let padding = Padding::default();
    for len in 0..0x300usize {
        if let Some(body) = padding.body_len(len) {
            assert_eq!(padding.body_len(len + 4 + body), None);
        }
    }
}

#[test]
fn padding_with_an_empty_window_never_pads() {
    let padding = Padding {
        only_above: 100,
        up_to: 50,
    };
    for len in 0..200usize {
        assert_eq!(padding.body_len(len), None);
    }
    let huge = Padding {
        only_above: 0,
        up_to: usize::MAX,
    };
    assert_eq!(huge.body_len(0), Some(usize::MAX - 4));
    assert_eq!(huge.body_len(usize::MAX), None);
}

#[test]
fn grease_values_are_the_reserved_ones() {
    // Every value is 0xNaNa, which is what makes them recognisable.
    for value in GREASE_VALUES {
        let [high, low] = value.to_be_bytes();
        assert_eq!(high, low);
        assert_eq!(low & 0x0f, 0x0a);
    }
}

#[test]
fn is_grease_knows_the_listed_values_and_no_others() {
    let mut count = 0;
    for value in 0..=u16::MAX {
        assert_eq!(is_grease(value), GREASE_VALUES.contains(&value));
        if is_grease(value) {
            count += 1;
        }
    }
    assert_eq!(count, 16);
}

#[test]
fn grease_is_picked_by_the_low_digit_of_each_byte() {
    let grease = Grease::from_seed(&[0x00, 0xf1, 0x52, 0x33, 0x04]);
    assert_eq!(grease.cipher_suite, 0x0a0a);
    assert_eq!(grease.named_group, 0x1a1a);
    assert_eq!(grease.version, 0x2a2a);
    assert_eq!(grease.first_extension, 0x3a3a);
    assert_eq!(grease.last_extension, 0x4a4a);
}

#[test]
fn grease_extensions_never_collide() {
    // The same digit twice: the second moves on by one.
    let grease = Grease::from_seed(&[0, 0, 0, 0x07, 0xa7]);
    assert_eq!(grease.first_extension, 0x7a7a);
    assert_eq!(grease.last_extension, 0x8a8a);
    // And past the end it wraps.
    let grease = Grease::from_seed(&[0, 0, 0, 0xff, 0xff]);
    assert_eq!(grease.first_extension, 0xfafa);
    assert_eq!(grease.last_extension, 0x0a0a);
    for a in 0..=255u8 {
        for b in 0..=255u8 {
            let grease = Grease::from_seed(&[a, b, a, a, b]);
            assert_ne!(grease.first_extension, grease.last_extension);
            assert!(is_grease(grease.first_extension));
            assert!(is_grease(grease.last_extension));
        }
    }
}

#[test]
fn random_grease_varies_and_is_reserved() {
    let p = provider();
    let mut seen: Vec<u16> = Vec::new();
    for _ in 0..200 {
        let grease = Grease::new(&p.secure_random).unwrap();
        assert!(is_grease(grease.cipher_suite));
        assert!(is_grease(grease.named_group));
        assert!(is_grease(grease.version));
        assert!(is_grease(grease.first_extension));
        assert!(is_grease(grease.last_extension));
        assert_ne!(grease.first_extension, grease.last_extension);
        if !seen.contains(&grease.cipher_suite) {
            seen.push(grease.cipher_suite);
        }
    }
    // A source that left the seed as it was would always pick the same value.
    assert!(seen.len() > 4);
}

#[test]
fn grease_ech_refuses_a_kem_it_cannot_size() {
    // Guessing a length would produce an encapsulated key of the wrong size,
    // which is worse than declining: it looks like a client that does not know
    // its own KEM.
    let suite = HpkeSuite {
        kem: HpkeKem::Unknown(0x1234),
        sym: HpkeSymmetricCipherSuite {
            kdf_id: HpkeKdf::HKDF_SHA256,
            aead_id: HpkeAead::AES_128_GCM,
        },
    };
    assert!(EchGreaseConfig::without_provider(suite).is_err());
    assert!(matches!(
        EchGreaseConfig::without_provider(suite),
        Err(TlsError::General(_))
    ));
}

#[test]
fn grease_ech_sizes_the_kems_it_knows() {
    let sym = HpkeSymmetricCipherSuite {
        kdf_id: HpkeKdf::HKDF_SHA256,
        aead_id: HpkeAead::AES_128_GCM,
    };
    for (kem, enc_len) in [
        (HpkeKem::DHKEM_X25519_HKDF_SHA256, 32),
        (HpkeKem::DHKEM_P256_HKDF_SHA256, 65),
    ] {
        let config = EchGreaseConfig::without_provider(HpkeSuite { kem, sym }).unwrap();
        assert_eq!(config.enc_len(), enc_len);
        assert_eq!(config.suite().kem, kem);
    }
}
