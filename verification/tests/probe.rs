use reality_tls::{
    base64_to_bytes, bytes_to_hex, cuts_a_character, format_uuid, hex_to_bytes, http_get,
    http_get_uncompressed, parse_public_key, parse_short_id, parse_uuid, probe_frame,
    public_key_from_bytes, take_chunk, uuid_cuts_a_character, verdict, vless_request, TextError, Verdict,
};

const UUID: &str = "5415d8e0-df92-3655-afa4-b79de66413f5";

#[test]
fn hex_is_read_and_written() {
    assert_eq!(hex_to_bytes(""), Ok(vec![]));
    assert_eq!(hex_to_bytes("1bc2c1ef1c"), Ok(vec![0x1b, 0xc2, 0xc1, 0xef, 0x1c]));
    assert_eq!(hex_to_bytes("DEADbeef"), Ok(vec![0xde, 0xad, 0xbe, 0xef]));
    // A number may have a sign.
    assert_eq!(hex_to_bytes("+a10"), Ok(vec![0x0a, 0x10]));
    assert_eq!(hex_to_bytes("abc"), Err(TextError::OddLength));
    for bad in ["zz", "a+", "++", "-1", " 1", "0g", "G0", "0x", "0:", "@0", "`0"] {
        assert_eq!(hex_to_bytes(bad), Err(TextError::InvalidHexCharacter), "{bad}");
    }
    let all: Vec<u8> = (0..=255).collect();
    let text = bytes_to_hex(&all);
    assert!(text.starts_with("000102030405060708090a0b0c0d0e0f10"));
    assert!(text.ends_with("f9fafbfcfdfeff"));
    assert_eq!(hex_to_bytes(&text), Ok(all));
}

#[test]
fn pairs_agree_with_the_standard_library() {
    for a in 0..128u8 {
        for b in 0..128u8 {
            let text = String::from_utf8(vec![a, b]).unwrap();
            assert_eq!(
                hex_to_bytes(&text).ok(),
                u8::from_str_radix(&text, 16).ok().map(|byte| vec![byte])
            );
        }
    }
}

#[test]
fn characters_are_not_cut_unnoticed() {
    // Two bytes, one character: no cut, no hex either.
    assert!(!cuts_a_character("\u{e9}"));
    assert_eq!(hex_to_bytes("\u{e9}"), Err(TextError::InvalidHexCharacter));
    assert!(cuts_a_character("a\u{e9}b"));
    assert!(cuts_a_character("00a\u{e9}b"));
    // The mistake in front is found first.
    assert!(!cuts_a_character("zza\u{e9}b"));
    // An odd length is found before anything else.
    assert!(!cuts_a_character("a\u{e9}"));
    assert!(!cuts_a_character("1bc2"));
}

#[test]
fn uuids_are_read_with_and_without_hyphens() {
    let uuid = parse_uuid(UUID).unwrap();
    assert_eq!(uuid[..4], [0x54, 0x15, 0xd8, 0xe0]);
    assert_eq!(uuid[15], 0xf5);
    assert_eq!(parse_uuid("5415d8e0df923655afa4b79de66413f5"), Ok(uuid));
    assert_eq!(parse_uuid("-5-415d8e0df923655afa4b79de66413f5--"), Ok(uuid));
    assert_eq!(format_uuid(&uuid), UUID);
    assert_eq!(parse_uuid(&format_uuid(&[0xab; 16])), Ok([0xab; 16]));

    assert_eq!(parse_uuid(""), Err(TextError::UuidLength(0)));
    assert_eq!(parse_uuid(&UUID[1..]), Err(TextError::UuidLength(31)));
    assert_eq!(
        parse_uuid("5415d8e0-df92-3655-afa4-b79de66413fg"),
        Err(TextError::InvalidHexCharacter)
    );
    assert!(!uuid_cuts_a_character(UUID));
    assert!(!uuid_cuts_a_character("a\u{e9}b"));
    assert!(uuid_cuts_a_character("a\u{e9}-15d8e0-df92-3655-afa4-b79de66413f"));
}

#[test]
fn keys_are_read_in_either_alphabet() {
    // The example of the documentation, in the URL-safe alphabet.
    let key = parse_public_key("Vc8ycAgKqfRvtXjvGP0ry_U91o5wgrQlqOhHq72HYRs").unwrap();
    assert_eq!(
        bytes_to_hex(&key),
        "55cf3270080aa9f46fb578ef18fd2bcbf53dd68e7082b425a8e847abbd87611b"
    );
    // The same key in the standard one.
    assert_eq!(
        parse_public_key("Vc8ycAgKqfRvtXjvGP0ry/U91o5wgrQlqOhHq72HYRs="),
        Ok(key)
    );

    assert_eq!(base64_to_bytes("aGVsbG8gd29ybGR+Cg=="), Ok(b"hello world~\n".to_vec()));
    assert_eq!(base64_to_bytes("aGVsbG8gaW50ZXJuZXR-Cg"), Ok(b"hello internet~\n".to_vec()));
    // The reason is what the URL-safe alphabet lacks.
    let reason = TextError::InvalidBase64("Invalid symbol 32, offset 3.".to_string());
    assert_eq!(base64_to_bytes("not base64!").unwrap_err(), reason);
    assert_eq!(parse_public_key("not base64!").unwrap_err(), reason);
    assert_eq!(parse_public_key("aGVsbG8="), Err(TextError::KeyLength(5)));
    assert_eq!(public_key_from_bytes(&[7; 32]), Ok([7; 32]));
    assert_eq!(public_key_from_bytes(&[7; 33]), Err(TextError::KeyLength(33)));
}

#[test]
fn short_ids_are_read_from_hex() {
    assert_eq!(parse_short_id("1bc2c1ef1c").unwrap().len(), 5);
    assert_eq!(parse_short_id("0011223344556677").unwrap().len(), 8);
    assert_eq!(parse_short_id("001122334455667788"), Err(TextError::ShortIdTooLong));
    assert_eq!(parse_short_id("001"), Err(TextError::OddLength));
    assert_eq!(parse_short_id("0x"), Err(TextError::InvalidHexCharacter));
}

#[test]
fn a_request_is_laid_out_field_by_field() {
    let frame = vless_request(&[0xee; 16], 443, "localhost", b"payload");
    let mut expected = vec![0x00];
    expected.extend([0xee; 16]);
    expected.extend([0x00, 0x01, 0x01, 0xbb, 0x02, 9]);
    expected.extend(b"localhost");
    expected.extend(b"payload");
    assert_eq!(frame, expected);
}

#[test]
fn a_probe_asks_for_a_front_page() {
    let uuid = parse_uuid(UUID).unwrap();
    let frame = probe_frame(&uuid);
    assert_eq!(frame[1..17], uuid);
    assert_eq!(frame[17..23], [0, 1, 0, 80, 2, 11]);
    assert_eq!(frame[23..34], *b"example.com");
    assert_eq!(
        frame[34..],
        *b"GET / HTTP/1.1\r\nHost: example.com\r\nConnection: close\r\n\r\n"
    );
    assert_eq!(http_get("a"), b"GET / HTTP/1.1\r\nHost: a\r\nConnection: close\r\n\r\n");
    assert_eq!(
        http_get_uncompressed("a"),
        b"GET / HTTP/1.1\r\nHost: a\r\nConnection: close\r\nAccept-Encoding: identity\r\n\r\n"
    );
}

#[test]
fn reading_stops_at_the_end_or_when_there_is_enough() {
    let mut response = Vec::new();
    assert!(take_chunk(&mut response, &[1; 4000]));
    assert!(take_chunk(&mut response, &[2; 96]));
    assert_eq!(response.len(), 4096);
    assert!(!take_chunk(&mut response, &[]));
    assert!(!take_chunk(&mut response, &[3]));
    assert_eq!(response.len(), 4097);
    assert_eq!(response[4096], 3);
}

#[test]
fn answers_are_told_apart() {
    assert_eq!(verdict(b""), Verdict::NoData);
    for text in ["example.com", "IANA", "illustrative examples", "Example Domain"] {
        assert_eq!(verdict(text.as_bytes()), Verdict::Proxied);
        let mut around = vec![0xff, 0x00];
        around.extend(text.as_bytes());
        around.push(0xc3);
        assert_eq!(verdict(&around), Verdict::Proxied);
        assert_eq!(verdict(&text.as_bytes()[1..]), Verdict::Inconclusive);
    }
    for text in ["microsoft", "Microsoft", "AkamaiNetStorage", "AkamaiGHost", "Akamai", "mscom"] {
        assert_eq!(verdict(text.as_bytes()), Verdict::FellBack);
    }
    assert_eq!(verdict(b"Microsoft on example.com"), Verdict::Proxied);
    assert_eq!(verdict(b"MICROSOFT"), Verdict::Inconclusive);
    assert_eq!(verdict(b"\0"), Verdict::Inconclusive);
    // What is broken apart by a stray byte is not there.
    assert_eq!(verdict(b"micro\xffsoft"), Verdict::Inconclusive);
}
