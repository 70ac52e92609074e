use reality_tls::{
    is_grease, ClientHelloProfile, Grease, HelloOffer, Padding, Provider, RawExtension,
    WireClientHello,
};

fn offer() -> HelloOffer {
    HelloOffer {
        random: [0x5a; 32],
        session_id: vec![0x11; 32],
        cipher_suites: vec![0x1302, 0x1301, 0x1303, 0xc02c, 0xc02b],
        tls12: true,
        named_groups: vec![0x001d, 0x0017, 0x0018],
        versions: vec![0x0304, 0x0303],
        key_shares: vec![RawExtension {
            typ: 0x001d,
            payload: vec![0xcd; 32],
        }],
        extensions: vec![
            RawExtension {
                typ: 0,
                payload: b"\x00\x0c\x00\x00\x09localhost".to_vec(),
            },
            RawExtension::empty(23),
        ],
        trailing: vec![],
    }
}

fn capture_offer(profile: ClientHelloProfile, offer: HelloOffer) -> WireClientHello {
    let grease = Grease::new(&Provider).unwrap();
    let hello = profile.shape(&grease, &offer).unwrap();
    let record = hello.records();
    let wire = WireClientHello::try_parse(&record).unwrap();
    assert_eq!(wire.body, hello.body());
    WireClientHello::parse(&record)
}

fn capture(profile: ClientHelloProfile) -> WireClientHello {
    capture_offer(profile, offer())
}

#[test]
fn default_profile_changes_nothing() {
    let hello = capture(Default::default());

    assert!(
        !hello.cipher_suites.iter().copied().any(is_grease),
        "cipher suites: {:04x?}",
        hello.cipher_suites
    );
    assert!(
        !hello.extension_types().into_iter().any(is_grease),
        "extensions: {:04x?}",
        hello.extension_types()
    );
    assert!(!hello.named_groups().into_iter().any(is_grease));
    assert!(hello.extension(21).is_none(), "unasked-for padding");

    assert_eq!(hello.extension_types(), vec![10, 43, 51, 0, 23]);
    assert_eq!(hello.named_groups(), vec![0x001d, 0x0017, 0x0018]);
    assert_eq!(hello.versions(), vec![0x0304, 0x0303]);
    assert_eq!(hello.key_shares(), vec![(0x001d, vec![0xcd; 32])]);
}

#[test]
fn grease_reaches_every_list_that_browsers_grease() {
    let hello = capture(ClientHelloProfile {
        grease: true,
        ..Default::default()
    });

    // Always first in its list: a peer that reads the list in order and gives
    // up on the first value it does not know is caught by the next connection
    // rather than years later.
    assert!(
        is_grease(hello.cipher_suites[0]),
        "cipher suites: {:04x?}",
        hello.cipher_suites
    );
    assert!(
        is_grease(hello.named_groups()[0]),
        "groups: {:04x?}",
        hello.named_groups()
    );
    assert!(
        is_grease(hello.versions()[0]),
        "versions: {:04x?}",
        hello.versions()
    );

    let key_shares = hello.key_shares();
    assert!(is_grease(key_shares[0].0));
    assert_eq!(
        key_shares[0].1,
        vec![0x00],
        "the GREASE key share is one zero byte, as BoringSSL sends it"
    );

    // And what was meant to be sent is still behind it.
    assert!(hello.cipher_suites[1..]
        .iter()
        .copied()
        .any(|suite| !is_grease(suite)));
    assert!(key_shares.len() > 1, "GREASE displaced the real key share");
}

#[test]
fn grease_extensions_bracket_the_list() {
    let hello = capture(ClientHelloProfile {
        grease: true,
        ..Default::default()
    });

    let types = hello.extension_types();
    let grease: Vec<u16> = types
        .iter()
        .copied()
        .filter(|typ| is_grease(*typ))
        .collect();

    assert_eq!(grease.len(), 2, "extensions: {types:04x?}");
    assert_ne!(
        grease[0], grease[1],
        "two extensions of one type is a protocol error"
    );
    assert!(is_grease(types[0]), "first extension: {:04x}", types[0]);
    assert!(
        is_grease(*types.last().unwrap()),
        "last extension: {:04x}",
        types.last().unwrap()
    );

    assert_eq!(hello.extension(grease[0]), Some(&[][..]));
    assert_eq!(hello.extension(grease[1]), Some(&[0x00][..]));
}

#[test]
fn verbatim_extensions_go_where_they_were_put() {
    // signed_certificate_timestamp and ALPS: two extensions that the stack has no
    // reason to model, and two no browser omits.
    let hello = capture(ClientHelloProfile {
        prepend_extensions: vec![RawExtension::empty(0x0012)],
        append_extensions: vec![RawExtension {
            typ: 0x4469,
            payload: b"\x00\x03\x02h2".to_vec(),
        }],
        ..Default::default()
    });

    let types = hello.extension_types();
    assert_eq!(types[0], 0x0012, "extensions: {types:04x?}");
    assert_eq!(*types.last().unwrap(), 0x4469);

    assert_eq!(hello.extension(0x0012), Some(&[][..]));
    assert_eq!(hello.extension(0x4469), Some(&b"\x00\x03\x02h2"[..]));
}

#[test]
fn padding_brings_the_hello_to_the_target_length() {
    // A window wide enough that the hello lands inside it whatever is offered.
    // The rule itself is tested elsewhere; what matters here is that the
    // arithmetic agrees with the bytes.
    let hello = capture(ClientHelloProfile {
        padding: Some(Padding {
            only_above: 0,
            up_to: 1024,
        }),
        ..Default::default()
    });

    assert_eq!(hello.body.len(), 1024);
    assert_eq!(*hello.extension_types().last().unwrap(), 21);
    assert!(hello
        .extension(21)
        .unwrap()
        .iter()
        .all(|byte| *byte == 0));
}

#[test]
fn padding_stays_out_of_a_hello_already_long_enough() {
    let hello = capture(ClientHelloProfile {
        padding: Some(Padding {
            only_above: 0,
            up_to: 16,
        }),
        ..Default::default()
    });

    assert!(hello.body.len() > 16);
    assert!(hello.extension(21).is_none());
}

#[test]
fn padding_counts_the_grease_and_verbatim_extensions_too() {
    // Padding is measured last, so everything else has to be in place by then.
    // Get that order wrong and the hello comes out short by the size of the
    // other extensions - which is the length signal padding exists to erase.
    let hello = capture(ClientHelloProfile {
        grease: true,
        append_extensions: vec![RawExtension {
            typ: 0x4469,
            payload: vec![0xab; 64],
        }],
        padding: Some(Padding {
            only_above: 0,
            up_to: 1024,
        }),
        ..Default::default()
    });

    assert_eq!(hello.body.len(), 1024);
}

#[test]
fn the_cipher_suite_list_can_be_dictated() {
    // Chrome's list, GREASE aside. The last four are static RSA key exchange,
    // which will never be negotiated - they are here to be counted by whoever is
    // looking, and for no other reason.
    let chrome = vec![
        0x1301, 0x1302, 0x1303, 0xc02b, 0xc02f, 0xc02c, 0xc030, 0xcca9, 0xcca8, 0x009c, 0x009d,
        0x002f, 0x0035,
    ];

    let hello = capture(ClientHelloProfile {
        cipher_suites: Some(chrome.clone()),
        ..Default::default()
    });

    assert_eq!(hello.cipher_suites, chrome);
}

#[test]
fn a_dictated_list_touches_nothing_else() {
    let grease = Grease::from_seed(&[0, 1, 2, 3, 4]);
    let shaped = |cipher_suites: Option<Vec<u16>>| {
        let profile = ClientHelloProfile {
            grease: true,
            append_extensions: vec![RawExtension::empty(0x4469)],
            cipher_suites,
            ..Default::default()
        };
        WireClientHello::parse(&profile.shape(&grease, &offer()).unwrap().records())
    };
    let own = shaped(None);
    let dictated = shaped(Some(vec![0x1301]));
    assert_eq!(dictated.extensions, own.extensions);
    assert_eq!(dictated.cipher_suites, vec![0x0a0a, 0x1301]);
    assert_ne!(dictated.cipher_suites, own.cipher_suites);
}

#[test]
fn a_dictated_cipher_list_does_not_get_the_scsv_appended() {
    // "No renegotiation" is signalled with the SCSV; browsers use the
    // renegotiation_info extension instead. An extra pseudo-suite in the list
    // is as visible as any real one, so the caller's list has to be final.
    let hello = capture(ClientHelloProfile {
        cipher_suites: Some(vec![0x1301, 0x1302, 0x1303]),
        ..Default::default()
    });

    assert_eq!(hello.cipher_suites, vec![0x1301, 0x1302, 0x1303]);
    assert!(
        !hello.cipher_suites.contains(&0x00ff),
        "TLS_EMPTY_RENEGOTIATION_INFO_SCSV added behind the caller's back"
    );
}

#[test]
fn the_default_cipher_list_still_carries_the_scsv() {
    // The flip side of the test above: leaving the profile alone must not
    // quietly change what has always been sent.
    let hello = capture(Default::default());

    assert!(
        hello.cipher_suites.contains(&0x00ff),
        "suites: {:04x?}",
        hello.cipher_suites
    );
}

#[test]
fn test_no_renegotiation_scsv_on_tls_1_3() {
    let mut only13 = offer();
    only13.tls12 = false;
    only13.versions = vec![0x0304];
    let hello = capture_offer(Default::default(), only13);
    assert!(!hello.cipher_suites.contains(&0x00ff));
    assert_eq!(hello.cipher_suites, offer().cipher_suites);
}

#[test]
fn grease_goes_in_front_of_a_dictated_cipher_list_too() {
    let hello = capture(ClientHelloProfile {
        grease: true,
        cipher_suites: Some(vec![0x1301, 0x1302]),
        ..Default::default()
    });

    assert!(is_grease(hello.cipher_suites[0]));
    assert_eq!(hello.cipher_suites[1..], [0x1301, 0x1302]);
}

#[test]
fn pinned_extensions_stay_last() {
    let mut pinned = offer();
    pinned.trailing = vec![RawExtension {
        typ: 41,
        payload: vec![1, 2, 3],
    }];
    let hello = capture_offer(
        ClientHelloProfile {
            grease: true,
            prepend_extensions: vec![RawExtension::empty(0x0012)],
            append_extensions: vec![RawExtension::empty(0x4469)],
            padding: Some(Padding {
                only_above: 0,
                up_to: 600,
            }),
            ..Default::default()
        },
        pinned,
    );
    let types = hello.extension_types();
    assert!(is_grease(types[0]));
    assert_eq!(types[1..8], [0x0012, 10, 43, 51, 0, 23, 0x4469]);
    assert!(is_grease(types[8]));
    assert_eq!(types[9..], [21, 41]);
    assert_eq!(hello.body.len(), 600);
}

#[test]
fn padding_overshoots_when_the_header_does_not_fit() {
    let plain = capture(Default::default()).body.len();
    let hello = capture(ClientHelloProfile {
        padding: Some(Padding {
            only_above: 0,
            up_to: plain + 1,
        }),
        ..Default::default()
    });
    assert_eq!(hello.body.len(), plain + 4);
    assert_eq!(hello.extension(21), Some(&[][..]));
}

#[test]
fn a_list_that_is_too_long_is_refused() {
    let grease = Grease::from_seed(&[0, 1, 2, 3, 4]);
    let plain: usize = capture(Default::default())
        .extensions
        .iter()
        .map(|(_, body)| 4 + body.len())
        .sum();

    // Exactly the longest extension list, and one byte more.
    for (extra, fits) in [(0xffff - plain - 4, true), (0xffff - plain - 3, false)] {
        let profile = ClientHelloProfile {
            append_extensions: vec![RawExtension {
                typ: 0x4469,
                payload: vec![0; extra],
            }],
            ..Default::default()
        };
        assert_eq!(profile.shape(&grease, &offer()).is_some(), fits);
    }

    // The same for the cipher suites.
    for (count, fits) in [(32767usize, true), (32768, false)] {
        let profile = ClientHelloProfile {
            cipher_suites: Some(vec![0x1301; count]),
            ..Default::default()
        };
        assert_eq!(profile.shape(&grease, &offer()).is_some(), fits);
    }

    let too_far = ClientHelloProfile {
        padding: Some(Padding {
            only_above: 0,
            up_to: usize::MAX,
        }),
        ..Default::default()
    };
    assert!(too_far.shape(&grease, &offer()).is_none());

    let mut long_id = offer();
    long_id.session_id = vec![0; 33];
    assert!(ClientHelloProfile::default().shape(&grease, &long_id).is_none());

    let mut many_versions = offer();
    many_versions.versions = vec![0x0304; 128];
    assert!(ClientHelloProfile::default().shape(&grease, &many_versions).is_none());
    many_versions.versions = vec![0x0304; 127];
    assert!(ClientHelloProfile::default().shape(&grease, &many_versions).is_some());
}

#[test]
fn a_hello_can_take_more_than_one_record() {
    let grease = Grease::from_seed(&[0, 1, 2, 3, 4]);
    let padded = |up_to: usize| {
        ClientHelloProfile {
            padding: Some(Padding {
                only_above: 0,
                up_to,
            }),
            ..Default::default()
        }
        .shape(&grease, &offer())
        .unwrap()
    };

    let long = padded(20000);
    assert_eq!(long.body().len(), 20000);
    let message = long.message();
    assert_eq!(message[..4], [0x01, 0x00, 0x4e, 0x20]);
    assert_eq!(message[4..], long.body());
    let stream = long.records();
    assert_eq!(stream[..5], [0x16, 0x03, 0x01, 0x40, 0x00]);
    assert_eq!(stream[5..16389], message[..16384]);
    assert_eq!(stream[16389..16394], [0x16, 0x03, 0x01, 0x0e, 0x24]);
    assert_eq!(stream[16394..], message[16384..]);

    // The longest hello for one record, and one byte more.
    let one = padded(16380).records();
    assert_eq!(one.len(), 5 + 16384);
    assert_eq!(WireClientHello::try_parse(&one).unwrap().body.len(), 16380);
    let two = padded(16381).records();
    assert_eq!(two.len(), 5 + 16384 + 5 + 1);
    assert!(WireClientHello::try_parse(&two).is_none());
}

#[test]
fn hellos_of_other_writers_are_read_back() {
    // Another record version, TLS 1.0 as legacy version, a long session ID, two
    // compression methods, and bytes behind the record.
    let mut body = vec![0x03, 0x01];
    body.extend([5u8; 32]);
    body.push(200);
    body.extend([6u8; 200]);
    body.extend([0, 4, 0x13, 0x02, 0x00, 0x2f]);
    body.extend([2, 1, 0]);
    body.extend([0, 9, 0x00, 0x2b, 0, 1, 7, 0xff, 0x01, 0, 0]);
    let mut record = vec![0x16, 0x03, 0x03];
    record.extend(((body.len() + 4) as u16).to_be_bytes());
    record.extend([1, 0]);
    record.extend((body.len() as u16).to_be_bytes());
    record.extend(&body);
    record.extend([0xee; 7]);
    let hello = WireClientHello::try_parse(&record).unwrap();
    assert_eq!(hello.body, body);
    assert_eq!(hello.cipher_suites, vec![0x1302, 0x002f]);
    assert_eq!(hello.extensions, vec![(0x2b, vec![7]), (0xff01, vec![])]);
}

#[test]
fn the_exact_bytes_of_a_small_hello() {
    let small = HelloOffer {
        random: [7; 32],
        session_id: vec![9],
        cipher_suites: vec![0x1301],
        tls12: false,
        named_groups: vec![0x001d],
        versions: vec![0x0304],
        key_shares: vec![],
        extensions: vec![],
        trailing: vec![],
    };
    let hello = ClientHelloProfile::default()
        .shape(&Grease::from_seed(&[0; 5]), &small)
        .unwrap();
    let mut expected = vec![0x16, 0x03, 0x01, 0x00, 69, 0x01, 0x00, 0x00, 65, 0x03, 0x03];
    expected.extend([7u8; 32]);
    expected.extend([1, 9, 0, 2, 0x13, 0x01, 1, 0, 0, 21]);
    expected.extend([0, 10, 0, 4, 0, 2, 0, 0x1d]);
    expected.extend([0, 43, 0, 3, 2, 3, 4]);
    expected.extend([0, 51, 0, 2, 0, 0]);
    assert_eq!(hello.records(), expected);
}

#[test]
fn records_that_are_no_hello_are_refused() {
    let grease = Grease::from_seed(&[0, 1, 2, 3, 4]);
    let record = ClientHelloProfile::default()
        .shape(&grease, &offer())
        .unwrap()
        .records();
    assert!(WireClientHello::try_parse(&record).is_some());

    // Cut short anywhere, it is no whole record.
    for n in 0..record.len() {
        assert!(WireClientHello::try_parse(&record[..n]).is_none());
    }
    // What follows the record does not matter.
    let mut longer = record.clone();
    longer.extend([1, 2, 3]);
    assert!(WireClientHello::try_parse(&longer).is_some());
    // Another handshake message.
    let mut other = record.clone();
    other[5] = 0x02;
    assert!(WireClientHello::try_parse(&other).is_none());
    // An extension list that claims a byte more, or less, than there is.
    let at = record.len() - hello_extensions_len(&record) - 1;
    let mut wrong = record.clone();
    wrong[at] = wrong[at].wrapping_add(1);
    assert!(WireClientHello::try_parse(&wrong).is_none());
    wrong[at] = wrong[at].wrapping_sub(2);
    assert!(WireClientHello::try_parse(&wrong).is_none());
}

fn hello_extensions_len(record: &[u8]) -> usize {
    WireClientHello::parse(record)
        .extensions
        .iter()
        .map(|(_, body)| 4 + body.len())
        .sum()
}

#[test]
fn the_first_extension_of_a_type_is_found() {
    let hello = capture(ClientHelloProfile {
        append_extensions: vec![
            RawExtension {
                typ: 0x4469,
                payload: vec![1],
            },
            RawExtension {
                typ: 0x4469,
                payload: vec![2],
            },
        ],
        ..Default::default()
    });
    assert_eq!(hello.extension(0x4469), Some(&[1][..]));
    assert_eq!(hello.extension(0x4470), None);
}

#[test]
fn profiles_can_be_copied() {
    let profile = ClientHelloProfile {
        grease: true,
        prepend_extensions: vec![RawExtension {
            typ: 1,
            payload: vec![2, 3],
        }],
        padding: Some(Padding::default()),
        cipher_suites: Some(vec![4]),
        ..Default::default()
    };
    let copy = profile.clone();
    assert!(copy.grease);
    assert_eq!(copy.prepend_extensions[0].payload, vec![2, 3]);
    assert_eq!(copy.cipher_suites, Some(vec![4]));
    assert_eq!(copy.padding.unwrap().up_to, 0x200);
}
