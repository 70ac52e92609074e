//! Keys, short IDs and UUIDs as people write them.

use base64::engine::general_purpose::{STANDARD, URL_SAFE_NO_PAD};
use base64::Engine;
use vstd::prelude::*;
use vstd::slice::slice_subrange;
use vstd::utf8::{
    encode_utf8, is_ascii_chars, is_ascii_chars_encode_utf8, is_continuation_byte,
};

use crate::config::SHORT_ID_MAX;

verus! {

/// A hyphen.
pub const DASH: u8 = 0x2d;

/// The length of a UUID.
pub const UUID_LEN: usize = 16;

/// Why a text could not be read.
#[derive(Debug, PartialEq, Eq)]
pub enum TextError {
    /// Hex digits come in pairs.
    OddLength,
    /// Something that is no hex digit.
    InvalidHexCharacter,
    /// A UUID has 32 hex digits; this many characters were there.
    UuidLength(usize),
    /// Neither alphabet of Base64 fits; this is what the URL-safe one lacks.
    InvalidBase64(String),
    /// A public key has 32 bytes; this many were there.
    KeyLength(usize),
    /// A short ID has at most eight bytes.
    ShortIdTooLong,
}

/// The value of a hex digit.
pub open spec fn digit_value(c: u8) -> Option<int> {
    if 0x30 <= c <= 0x39 {
        Some(c - 0x30)
    } else if 0x41 <= c <= 0x46 {
        Some(c - 0x37)
    } else if 0x61 <= c <= 0x66 {
        Some(c - 0x57)
    } else {
        None
    }
}

/// The value of two characters read as one hex number. A plus sign may stand in
/// place of the first digit.
pub open spec fn pair_value(a: u8, b: u8) -> Option<int> {
    match (digit_value(a), digit_value(b)) {
        (Some(high), Some(low)) => Some(16 * high + low),
        (None, Some(low)) => if a == 0x2b {
            Some(low)
        } else {
            None
        },
        _ => None,
    }
}

/// The `k`th pair of characters is a hex number.
pub open spec fn good_pair(text: Seq<u8>, k: int) -> bool {
    pair_value(text[2 * k], text[2 * k + 1]) is Some
}

/// The bytes that pairs of hex digits stand for.
pub open spec fn hex_bytes(text: Seq<u8>) -> Option<Seq<u8>> {
    if text.len() % 2 == 0 && forall|k: int|
        0 <= k < text.len() / 2 ==> #[trigger] good_pair(text, k) {
        Some(
            Seq::new(
                text.len() / 2,
                |k: int| pair_value(text[2 * k], text[2 * k + 1])->0 as u8,
            ),
        )
    } else {
        None
    }
}

/// The first pair that is no hex number ends in the middle of a character.
pub open spec fn cuts_at(text: Seq<u8>, k: int) -> bool {
    &&& 0 <= k
    &&& 2 * k + 2 < text.len()
    &&& forall|m: int| 0 <= m < k ==> #[trigger] good_pair(text, m)
    &&& !good_pair(text, k)
    &&& is_continuation_byte(text[2 * k + 2])
}

/// The text has an even number of bytes, but reading it in pairs cuts a character
/// in two before the first mistake is found.
pub open spec fn cuts(text: Seq<u8>) -> bool {
    text.len() % 2 == 0 && exists|k: int| cuts_at(text, k)
}

/// A hex digit.
pub open spec fn hex_digit(n: int) -> char {
    if n < 10 {
        (0x30 + n) as char
    } else {
        (0x57 + n) as char
    }
}

/// Bytes, written as two lower-case hex digits each.
pub open spec fn hex_text(bytes: Seq<u8>) -> Seq<char> {
    Seq::new(
        2 * bytes.len(),
        |k: int|
            hex_digit(
                if k % 2 == 0 {
                    bytes[k / 2] as int / 16
                } else {
                    bytes[k / 2] as int % 16
                },
            ),
    )
}

/// A text without its hyphens.
pub open spec fn dashless(text: Seq<u8>) -> Seq<u8> {
    text.filter(|b: u8| b != DASH)
}

/// A UUID in its usual form: five groups of hex digits with hyphens between them.
pub open spec fn uuid_text(uuid: Seq<u8>) -> Seq<char> {
    hex_text(uuid.subrange(0, 4)) + seq!['-'] + hex_text(uuid.subrange(4, 6)) + seq!['-']
        + hex_text(uuid.subrange(6, 8)) + seq!['-'] + hex_text(uuid.subrange(8, 10)) + seq!['-']
        + hex_text(uuid.subrange(10, 16))
}

/// Reads one hex digit.
fn digit(c: u8) -> (value: Option<u8>)
    ensures
        match value {
            Some(v) => digit_value(c) == Some(v as int) && v < 16,
            None => digit_value(c) is None,
        },
{
    if 0x30 <= c && c <= 0x39 {
        Some(c - 0x30)
    } else if 0x41 <= c && c <= 0x46 {
        Some(c - 0x37)
    } else if 0x61 <= c && c <= 0x66 {
        Some(c - 0x57)
    } else {
        None
    }
}

/// Reads two characters as one hex number.
fn pair(a: u8, b: u8) -> (value: Option<u8>)
    ensures
        match value {
            Some(v) => pair_value(a, b) == Some(v as int),
            None => pair_value(a, b) is None,
        },
{
    match (digit(a), digit(b)) {
        (Some(high), Some(low)) => Some(16 * high + low),
        (None, Some(low)) => if a == 0x2b {
            Some(low)
        } else {
            None
        },
        _ => None,
    }
}

/// Reads pairs of hex digits.
fn decode_pairs(text: &[u8]) -> (r: Result<Vec<u8>, TextError>)
    ensures
        match r {
            Ok(bytes) => hex_bytes(text@) == Some(bytes@),
            Err(TextError::OddLength) => text@.len() % 2 != 0,
            Err(TextError::InvalidHexCharacter) => text@.len() % 2 == 0 && hex_bytes(text@) is None,
            Err(_) => false,
        },
{
    let n: usize = text.len();
    if n % 2 != 0 {
        return Err(TextError::OddLength);
    }
    let mut bytes: Vec<u8> = Vec::new();
    let mut k: usize = 0;
    while k < n / 2
        invariant
            n == text@.len(),
            n % 2 == 0,
            k <= n / 2,
            bytes@.len() == k,
            forall|m: int| 0 <= m < k ==> #[trigger] good_pair(text@, m),
            forall|m: int|
                0 <= m < k ==> pair_value(text@[2 * m], text@[2 * m + 1]) == Some(
                    #[trigger] bytes@[m] as int,
                ),
        decreases n / 2 - k,
    {
        match pair(text[2 * k], text[2 * k + 1]) {
            Some(byte) => {
                assert(good_pair(text@, k as int));
                bytes.push(byte);
            },
            None => {
                assert(!good_pair(text@, k as int));
                return Err(TextError::InvalidHexCharacter);
            },
        }
        k = k + 1;
    }
    assert(bytes@ =~= hex_bytes(text@)->0);
    Ok(bytes)
}

/// Does reading these bytes in pairs cut a character in two?
fn pairs_cut(text: &[u8]) -> (yes: bool)
    ensures
        yes == cuts(text@),
{
    let n: usize = text.len();
    if n % 2 != 0 {
        return false;
    }
    let mut k: usize = 0;
    while k < n / 2
        invariant
            n == text@.len(),
            n % 2 == 0,
            k <= n / 2,
            forall|m: int| 0 <= m < k ==> #[trigger] good_pair(text@, m),
        decreases n / 2 - k,
    {
        if pair(text[2 * k], text[2 * k + 1]).is_none() {
            assert(!good_pair(text@, k as int));
            let yes = 2 * k + 2 < n && 0x80 <= text[2 * k + 2] && text[2 * k + 2] <= 0xbf;
            if yes {
                assert(cuts_at(text@, k as int));
            } else {
                assert forall|m: int| !#[trigger] cuts_at(text@, m) by {
                    if m > k {
                        assert(!good_pair(text@, k as int));
                    } else if m < k {
                        assert(0 <= m ==> good_pair(text@, m));
                    }
                }
            }
            return yes;
        }
        assert(good_pair(text@, k as int));
        k = k + 1;
    }
    assert forall|m: int| !#[trigger] cuts_at(text@, m) by {
        assert(0 <= m < n / 2 ==> good_pair(text@, m));
    }
    false
}

/// Does reading this text in pairs cut a character in two?
pub fn cuts_a_character(hex: &str) -> (yes: bool)
    ensures
        yes == cuts(encode_utf8(hex@)),
{
    pairs_cut(hex.as_bytes())
}

/// Reads a hex text.
pub fn hex_to_bytes(hex: &str) -> (r: Result<Vec<u8>, TextError>)
    requires
        !cuts(encode_utf8(hex@)),
    ensures
        match r {
            Ok(bytes) => hex_bytes(encode_utf8(hex@)) == Some(bytes@),
            Err(TextError::OddLength) => encode_utf8(hex@).len() % 2 != 0,
            Err(TextError::InvalidHexCharacter) => encode_utf8(hex@).len() % 2 == 0 && hex_bytes(
                encode_utf8(hex@),
            ) is None,
            Err(_) => false,
        },
{
    decode_pairs(hex.as_bytes())
}

/// A hex digit, as a text of one character.
fn digit_text(n: u8) -> (text: &'static str)
    requires
        n < 16,
    ensures
        text@ == seq![hex_digit(n as int)],
{
    proof {
        reveal_strlit("0");
        reveal_strlit("1");
        reveal_strlit("2");
        reveal_strlit("3");
        reveal_strlit("4");
        reveal_strlit("5");
        reveal_strlit("6");
        reveal_strlit("7");
        reveal_strlit("8");
        reveal_strlit("9");
        reveal_strlit("a");
        reveal_strlit("b");
        reveal_strlit("c");
        reveal_strlit("d");
        reveal_strlit("e");
        reveal_strlit("f");
    }
    let text = match n {
        0 => "0",
        1 => "1",
        2 => "2",
        3 => "3",
        4 => "4",
        5 => "5",
        6 => "6",
        7 => "7",
        8 => "8",
        9 => "9",
        10 => "a",
        11 => "b",
        12 => "c",
        13 => "d",
        14 => "e",
        _ => "f",
    };
    assert(text@ =~= seq![hex_digit(n as int)]);
    text
}

/// Writes bytes as lower-case hex digits.
pub fn bytes_to_hex(bytes: &[u8]) -> (text: String)
    ensures
        text@ == hex_text(bytes@),
{
    let mut text = String::new();
    let mut k: usize = 0;
    while k < bytes.len()
        invariant
            k <= bytes@.len(),
            text@ == hex_text(bytes@.take(k as int)),
        decreases bytes@.len() - k,
    {
        let ghost before = text@;
        text.append(digit_text(bytes[k] / 16));
        text.append(digit_text(bytes[k] % 16));
        proof {
            let byte = bytes@[k as int] as int;
            assert(text@ =~= before + seq![hex_digit(byte / 16), hex_digit(byte % 16)]);
            assert(text@ =~= hex_text(bytes@.take(k + 1)));
        }
        k = k + 1;
    }
    assert(bytes@.take(k as int) =~= bytes@);
    text
}

/// Drops the hyphens from a text.
fn without_dashes(text: &[u8]) -> (kept: Vec<u8>)
    ensures
        kept@ == dashless(text@),
{
    let mut kept: Vec<u8> = Vec::new();
    let mut k: usize = 0;
    assert(dashless(text@.take(0)) =~= Seq::empty());
    while k < text.len()
        invariant
            k <= text@.len(),
            kept@ == dashless(text@.take(k as int)),
        decreases text@.len() - k,
    {
        proof {
            reveal(Seq::filter);
            assert(text@.take(k + 1).drop_last() =~= text@.take(k as int));
        }
        if text[k] != DASH {
            kept.push(text[k]);
        }
        k = k + 1;
    }
    assert(text@.take(k as int) =~= text@);
    kept
}

/// Without its hyphens the text has the length of a UUID, but reading it in pairs
/// cuts a character in two.
pub open spec fn uuid_cuts(text: Seq<u8>) -> bool {
    dashless(text).len() == 2 * UUID_LEN && cuts(dashless(text))
}

/// Does reading this text as a UUID cut a character in two?
pub fn uuid_cuts_a_character(s: &str) -> (yes: bool)
    ensures
        yes == uuid_cuts(encode_utf8(s@)),
{
    let kept = without_dashes(s.as_bytes());
    kept.len() == 2 * UUID_LEN && pairs_cut(kept.as_slice())
}

/// Reads a UUID, with hyphens anywhere or nowhere.
pub fn parse_uuid(s: &str) -> (r: Result<[u8; 16], TextError>)
    requires
        !uuid_cuts(encode_utf8(s@)),
    ensures
        match r {
            Ok(uuid) => hex_bytes(dashless(encode_utf8(s@))) == Some(uuid@),
            Err(TextError::UuidLength(n)) => n == dashless(encode_utf8(s@)).len() && n != 2
                * UUID_LEN,
            Err(TextError::InvalidHexCharacter) => dashless(encode_utf8(s@)).len() == 2 * UUID_LEN
                && hex_bytes(dashless(encode_utf8(s@))) is None,
            Err(_) => false,
        },
{
    let kept = without_dashes(s.as_bytes());
    if kept.len() != 2 * UUID_LEN {
        return Err(TextError::UuidLength(kept.len()));
    }
    let bytes = match decode_pairs(kept.as_slice()) {
        Ok(bytes) => bytes,
        Err(e) => {
            return Err(e);
        },
    };
    let mut uuid = [0u8; 16];
    let mut k: usize = 0;
    while k < 16
        invariant
            k <= 16,
            bytes@.len() == 16,
            forall|m: int| 0 <= m < k ==> uuid@[m] == bytes@[m],
        decreases 16 - k,
    {
        uuid[k] = bytes[k];
        k = k + 1;
    }
    assert(uuid@ =~= bytes@);
    Ok(uuid)
}

/// Writes a UUID in its usual form.
pub fn format_uuid(b: &[u8; 16]) -> (text: String)
    ensures
        text@ == uuid_text(b@),
{
    proof {
        reveal_strlit("-");
    }
    let all = b.as_slice();
    let mut text = bytes_to_hex(slice_subrange(all, 0, 4));
    text.append("-");
    text.append(bytes_to_hex(slice_subrange(all, 4, 6)).as_str());
    text.append("-");
    text.append(bytes_to_hex(slice_subrange(all, 6, 8)).as_str());
    text.append("-");
    text.append(bytes_to_hex(slice_subrange(all, 8, 10)).as_str());
    text.append("-");
    text.append(bytes_to_hex(slice_subrange(all, 10, 16)).as_str());
    assert("-"@ =~= seq!['-']);
    text
}

/// `base64::DecodeError`: why a text is no Base64.
#[verifier::external_type_specification]
#[verifier::external_body]
pub struct ExDecodeError(base64::DecodeError);

/// What a text stands for in standard Base64, padding required.
pub uninterp spec fn base64_standard(text: Seq<char>) -> Option<Seq<u8>>;

/// What a text stands for in URL-safe Base64, padding forbidden, or in words why it
/// stands for nothing.
pub uninterp spec fn base64_url_safe(text: Seq<char>) -> Result<Seq<u8>, Seq<char>>;

/// Calls `base64::Engine::decode` of `base64::engine::general_purpose::STANDARD`.
///
/// Claims that success and the bytes are a function of the text.
#[verifier::external_body]
fn decode_standard(s: &str) -> (r: Result<Vec<u8>, base64::DecodeError>)
    ensures
        match r {
            Ok(bytes) => base64_standard(s@) == Some(bytes@),
            Err(_) => base64_standard(s@) is None,
        },
{
    STANDARD.decode(s)
}

/// Calls `base64::Engine::decode` of `base64::engine::general_purpose::URL_SAFE_NO_PAD`
/// and puts the error, if there is one, into words with its `Display`.
///
/// Claims that success, the bytes and the words are a function of the text.
#[verifier::external_body]
fn decode_url_safe(s: &str) -> (r: Result<Vec<u8>, String>)
    ensures
        match r {
            Ok(bytes) => base64_url_safe(s@) == Ok::<Seq<u8>, Seq<char>>(bytes@),
            Err(reason) => base64_url_safe(s@) == Err::<Seq<u8>, Seq<char>>(reason@),
        },
{
    match URL_SAFE_NO_PAD.decode(s) {
        Ok(bytes) => Ok(bytes),
        Err(e) => Err(format!("{}", e)),
    }
}

/// The bytes that a Base64 text stands for: read as standard Base64, or else as
/// the URL-safe kind.
pub open spec fn base64_bytes(text: Seq<char>) -> Result<Seq<u8>, Seq<char>> {
    match base64_standard(text) {
        Some(bytes) => Ok(bytes),
        None => base64_url_safe(text),
    }
}

/// `e` says that a text is no Base64, and why.
pub open spec fn is_invalid_base64(e: TextError, reason: Seq<char>) -> bool {
    e matches TextError::InvalidBase64(words) && words@ == reason
}

/// Reads Base64 in either alphabet.
pub fn base64_to_bytes(s: &str) -> (r: Result<Vec<u8>, TextError>)
    ensures
        match r {
            Ok(bytes) => base64_bytes(s@) == Ok::<Seq<u8>, Seq<char>>(bytes@),
            Err(e) => base64_bytes(s@) matches Err(reason) && is_invalid_base64(e, reason),
        },
{
    match decode_standard(s) {
        Ok(bytes) => Ok(bytes),
        Err(_) => match decode_url_safe(s) {
            Ok(bytes) => Ok(bytes),
            Err(reason) => Err(TextError::InvalidBase64(reason)),
        },
    }
}

/// Takes bytes for a public key if there are 32 of them.
pub fn public_key_from_bytes(bytes: &[u8]) -> (r: Result<[u8; 32], TextError>)
    ensures
        match r {
            Ok(key) => key@ == bytes@,
            Err(e) => e matches TextError::KeyLength(n) && n == bytes@.len() && n != 32,
        },
{
    if bytes.len() != 32 {
        return Err(TextError::KeyLength(bytes.len()));
    }
    let mut key = [0u8; 32];
    let mut k: usize = 0;
    while k < 32
        invariant
            k <= 32,
            bytes@.len() == 32,
            forall|m: int| 0 <= m < k ==> key@[m] == bytes@[m],
        decreases 32 - k,
    {
        key[k] = bytes[k];
        k = k + 1;
    }
    assert(key@ =~= bytes@);
    Ok(key)
}

/// Reads a server's public key from Base64.
pub fn parse_public_key(s: &str) -> (r: Result<[u8; 32], TextError>)
    ensures
        match r {
            Ok(key) => base64_bytes(s@) == Ok::<Seq<u8>, Seq<char>>(key@),
            Err(TextError::InvalidBase64(reason)) => base64_bytes(s@) == Err::<
                Seq<u8>,
                Seq<char>,
            >(reason@),
            Err(TextError::KeyLength(n)) => base64_bytes(s@) matches Ok(bytes) && bytes.len() == n
                && n != 32,
            Err(_) => false,
        },
{
    match base64_to_bytes(s) {
        Ok(bytes) => public_key_from_bytes(bytes.as_slice()),
        Err(e) => Err(e),
    }
}

/// Reads a short ID from hex.
pub fn parse_short_id(s: &str) -> (r: Result<Vec<u8>, TextError>)
    requires
        !cuts(encode_utf8(s@)),
    ensures
        match r {
            Ok(id) => hex_bytes(encode_utf8(s@)) == Some(id@) && id@.len() <= SHORT_ID_MAX,
            Err(TextError::OddLength) => encode_utf8(s@).len() % 2 != 0,
            Err(TextError::InvalidHexCharacter) => encode_utf8(s@).len() % 2 == 0 && hex_bytes(
                encode_utf8(s@),
            ) is None,
            Err(TextError::ShortIdTooLong) => hex_bytes(encode_utf8(s@)) matches Some(id)
                && id.len() > SHORT_ID_MAX,
            Err(_) => false,
        },
{
    match hex_to_bytes(s) {
        Ok(id) => if id.len() > SHORT_ID_MAX {
            Err(TextError::ShortIdTooLong)
        } else {
            Ok(id)
        },
        Err(e) => Err(e),
    }
}

proof fn lemma_hex_text_is_ascii(bytes: Seq<u8>)
    ensures
        is_ascii_chars(hex_text(bytes)),
        encode_utf8(hex_text(bytes)).len() == 2 * bytes.len(),
        forall|k: int|
            0 <= k < 2 * bytes.len() ==> #[trigger] encode_utf8(hex_text(bytes))[k] == hex_text(
                bytes,
            )[k] as u8,
{
    is_ascii_chars_encode_utf8(hex_text(bytes));
}

/// Reading back what was written: hex digits give the bytes they were made from,
/// and nothing is cut.
pub proof fn hex_round_trip(bytes: Seq<u8>)
    ensures
        !cuts(encode_utf8(hex_text(bytes))),
        hex_bytes(encode_utf8(hex_text(bytes))) == Some(bytes),
{
    let chars = hex_text(bytes);
    let text = encode_utf8(chars);
    lemma_hex_text_is_ascii(bytes);
    assert forall|k: int| 0 <= k < bytes.len() implies #[trigger] good_pair(text, k) && pair_value(
        text[2 * k],
        text[2 * k + 1],
    ) == Some(bytes[k] as int) by {
        let high = bytes[k] as int / 16;
        let low = bytes[k] as int % 16;
        assert(chars[2 * k] == hex_digit(high));
        assert(chars[2 * k + 1] == hex_digit(low));
        assert(digit_value(text[2 * k]) == Some(high));
        assert(digit_value(text[2 * k + 1]) == Some(low));
    }
    assert(hex_bytes(text)->0 =~= bytes);
    assert forall|k: int| !#[trigger] cuts_at(text, k) by {
        assert(0 <= k < bytes.len() ==> good_pair(text, k));
    }
}

proof fn lemma_hex_has_no_dashes(bytes: Seq<u8>)
    ensures
        dashless(encode_utf8(hex_text(bytes))) == encode_utf8(hex_text(bytes)),
{
    lemma_hex_text_is_ascii(bytes);
    let text = encode_utf8(hex_text(bytes));
    assert forall|k: int| 0 <= k < text.len() implies #[trigger] text[k] != DASH by {
        assert(text[k] == hex_text(bytes)[k] as u8);
    }
    lemma_nothing_dropped(text);
}

proof fn lemma_nothing_dropped(text: Seq<u8>)
    requires
        forall|k: int| 0 <= k < text.len() ==> #[trigger] text[k] != DASH,
    ensures
        dashless(text) == text,
    decreases text.len(),
{
    reveal(Seq::filter);
    if text.len() > 0 {
        lemma_nothing_dropped(text.drop_last());
        assert(dashless(text) =~= text.drop_last().push(text.last()));
    }
}

proof fn lemma_dashless_add(a: Seq<u8>, b: Seq<u8>)
    ensures
        dashless(a + b) == dashless(a) + dashless(b),
    decreases b.len(),
{
    reveal(Seq::filter);
    if b.len() == 0 {
        assert(a + b =~= a);
        assert(dashless(a) + dashless(b) =~= dashless(a));
    } else {
        lemma_dashless_add(a, b.drop_last());
        assert((a + b).drop_last() =~= a + b.drop_last());
        assert((a + b).last() == b.last());
        assert(dashless(a + b) =~= dashless(a) + dashless(b));
    }
}

/// Nothing is left of a lone hyphen.
proof fn lemma_lone_dash()
    ensures
        dashless(seq![DASH]) == Seq::<u8>::empty(),
{
    reveal(Seq::filter);
    assert(seq![DASH].drop_last() =~= Seq::empty());
    assert(dashless(Seq::empty()) =~= Seq::empty());
    assert(dashless(seq![DASH]) =~= Seq::empty());
}

/// The bytes of a piece of a UUID's text and a hyphen behind it, without the hyphen.
proof fn lemma_group(bytes: Seq<u8>)
    ensures
        is_ascii_chars(hex_text(bytes) + seq!['-']),
        dashless(encode_utf8(hex_text(bytes) + seq!['-'])) == encode_utf8(hex_text(bytes)),
{
    let text = encode_utf8(hex_text(bytes));
    let dash = seq!['-'];
    assert(is_ascii_chars(hex_text(bytes))) by {
        lemma_hex_text_is_ascii(bytes);
    }
    assert(is_ascii_chars(dash));
    assert(encode_utf8(dash) =~= seq![DASH]) by {
        is_ascii_chars_encode_utf8(dash);
    }
    lemma_ascii_add(hex_text(bytes), dash);
    lemma_dashless_add(text, seq![DASH]);
    lemma_lone_dash();
    lemma_hex_has_no_dashes(bytes);
    assert(text + Seq::<u8>::empty() =~= text);
}

/// Appending ASCII texts appends their bytes.
proof fn lemma_ascii_add(a: Seq<char>, b: Seq<char>)
    requires
        is_ascii_chars(a),
        is_ascii_chars(b),
    ensures
        is_ascii_chars(a + b),
        encode_utf8(a + b) == encode_utf8(a) + encode_utf8(b),
{
    assert(is_ascii_chars(a + b));
    is_ascii_chars_encode_utf8(a);
    is_ascii_chars_encode_utf8(b);
    is_ascii_chars_encode_utf8(a + b);
    assert forall|k: int| 0 <= k < (a + b).len() implies #[trigger] encode_utf8(a + b)[k] == (
    encode_utf8(a) + encode_utf8(b))[k] by {
        assert(encode_utf8(a + b)[k] == (a + b)[k] as u8);
        if k < a.len() {
            assert(encode_utf8(a)[k] == a[k] as u8);
        } else {
            assert(encode_utf8(b)[k - a.len()] == b[k - a.len()] as u8);
        }
    }
    assert(encode_utf8(a + b) =~= encode_utf8(a) + encode_utf8(b));
}

/// Puts one more group in front of what has been dealt with.
proof fn lemma_group_in_front(bytes: Seq<u8>, rest: Seq<char>, rest_bytes: Seq<u8>)
    requires
        is_ascii_chars(rest),
        dashless(encode_utf8(rest)) == encode_utf8(hex_text(rest_bytes)),
    ensures
        is_ascii_chars(hex_text(bytes) + seq!['-'] + rest),
        dashless(encode_utf8(hex_text(bytes) + seq!['-'] + rest)) == encode_utf8(
            hex_text(bytes + rest_bytes),
        ),
{
    let front = hex_text(bytes) + seq!['-'];
    lemma_group(bytes);
    lemma_ascii_add(front, rest);
    lemma_dashless_add(encode_utf8(front), encode_utf8(rest));
    lemma_hex_text_is_ascii(bytes);
    lemma_hex_text_is_ascii(rest_bytes);
    lemma_ascii_add(hex_text(bytes), hex_text(rest_bytes));
    assert(hex_text(bytes) + hex_text(rest_bytes) =~= hex_text(bytes + rest_bytes));
}

/// Reading back what was written: the usual form of a UUID gives the UUID, and
/// nothing is cut.
pub proof fn uuid_round_trip(uuid: Seq<u8>)
    requires
        uuid.len() == UUID_LEN,
    ensures
        !uuid_cuts(encode_utf8(uuid_text(uuid))),
        hex_bytes(dashless(encode_utf8(uuid_text(uuid)))) == Some(uuid),
{
    let a = uuid.subrange(0, 4);
    let b = uuid.subrange(4, 6);
    let c = uuid.subrange(6, 8);
    let d = uuid.subrange(8, 10);
    let e = uuid.subrange(10, 16);
    let dash = seq!['-'];
    lemma_hex_text_is_ascii(e);
    lemma_hex_has_no_dashes(e);
    let from_d = hex_text(d) + dash + hex_text(e);
    lemma_group_in_front(d, hex_text(e), e);
    let from_c = hex_text(c) + dash + from_d;
    lemma_group_in_front(c, from_d, d + e);
    let from_b = hex_text(b) + dash + from_c;
    lemma_group_in_front(b, from_c, c + (d + e));
    let from_a = hex_text(a) + dash + from_b;
    lemma_group_in_front(a, from_b, b + (c + (d + e)));
    assert(from_a =~= uuid_text(uuid));
    assert(a + (b + (c + (d + e))) =~= uuid);
    hex_round_trip(uuid);
}

/// Hyphens do not matter: two texts that differ in nothing else are the same UUID.
pub proof fn hyphens_do_not_matter(before: Seq<u8>, after: Seq<u8>)
    ensures
        dashless(before + seq![DASH] + after) == dashless(before + after),
{
    lemma_dashless_add(before + seq![DASH], after);
    lemma_dashless_add(before, seq![DASH]);
    lemma_dashless_add(before, after);
    lemma_lone_dash();
    assert(dashless(before) + Seq::empty() =~= dashless(before));
}

/// Two characters are read as one hex number, whether its letters are small or capital: the
/// first counts sixteen times, and may be a plus sign that counts nothing.
pub proof fn two_characters_are_one_hex_number(a: u8, b: u8, high: int, low: int)
    requires
        0 <= high < 16,
        0 <= low < 16,
    ensures
        ({
            let spells = |c: u8, n: int|
                c == 0x30 + n && n < 10 || c == 0x57 + n && n >= 10 || c == 0x37 + n && n >= 10;
            &&& spells(a, high) && spells(b, low) ==> pair_value(a, b) == Some(16 * high + low)
            &&& a == 0x2b && spells(b, low) ==> pair_value(a, b) == Some(low)
            &&& pair_value(a, b) == Some(16 * high + low) && a != 0x2b ==> spells(a, high)
                && spells(b, low)
            &&& pair_value(a, b) matches Some(n) ==> 0 <= n < 256
        }),
{
}

/// A hex text is read pair by pair, from the first to the last: as many bytes as there are
/// pairs, each the number that its pair spells. It is read just where its length is even and
/// every pair spells a number.
pub proof fn a_hex_text_is_read_pair_by_pair(text: Seq<u8>, k: int)
    requires
        0 <= k,
        2 * k + 1 < text.len(),
    ensures
        hex_bytes(text) matches Some(bytes) ==> {
            &&& 2 * bytes.len() == text.len()
            &&& pair_value(text[2 * k], text[2 * k + 1]) == Some(bytes[k] as int)
        },
        text.len() % 2 != 0 ==> hex_bytes(text) is None,
        pair_value(text[2 * k], text[2 * k + 1]) is None ==> hex_bytes(text) is None,
        hex_bytes(text) is None ==> text.len() % 2 != 0 || exists|m: int|
            #![trigger text[2 * m]]
            0 <= m && 2 * m + 1 < text.len() && pair_value(text[2 * m], text[2 * m + 1]) is None,
{
    if hex_bytes(text) is Some {
        assert(good_pair(text, k));
        two_characters_are_one_hex_number(text[2 * k], text[2 * k + 1], 0, 0);
    }
    if pair_value(text[2 * k], text[2 * k + 1]) is None {
        assert(!good_pair(text, k));
    }
    if hex_bytes(text) is None && text.len() % 2 == 0 {
        let m = choose|m: int| 0 <= m < text.len() as int / 2 && !#[trigger] good_pair(text, m);
        assert(pair_value(text[2 * m], text[2 * m + 1]) is None);
    }
}

/// Bytes are written two digits each, the more significant one first, in small letters.
pub proof fn bytes_are_written_two_digits_each(bytes: Seq<u8>, k: int)
    requires
        0 <= k < bytes.len(),
    ensures
        hex_text(bytes).len() == 2 * bytes.len(),
        hex_text(bytes)[2 * k] == "0123456789abcdef"@[bytes[k] as int / 16],
        hex_text(bytes)[2 * k + 1] == "0123456789abcdef"@[bytes[k] as int % 16],
{
    reveal_strlit("0123456789abcdef");
    assert((2 * k) % 2 == 0 && (2 * k) / 2 == k);
    assert((2 * k + 1) % 2 == 1 && (2 * k + 1) / 2 == k);
    lemma_digits(bytes[k] as int / 16);
    lemma_digits(bytes[k] as int % 16);
}

proof fn lemma_digits(n: int)
    requires
        0 <= n < 16,
    ensures
        hex_digit(n) == "0123456789abcdef"@[n],
{
    reveal_strlit("0123456789abcdef");
}

/// The usual form of a UUID has 36 characters: four hyphens, at 8, 13, 18 and 23, and around
/// them the digits of the bytes in order.
pub proof fn a_uuid_is_written_in_five_groups(uuid: Seq<u8>)
    requires
        uuid.len() == 16,
    ensures
        ({
            let text = uuid_text(uuid);
            let digits = hex_text(uuid);
            &&& text.len() == 36
            &&& text[8] == '-' && text[13] == '-' && text[18] == '-' && text[23] == '-'
            &&& text.subrange(0, 8) == digits.subrange(0, 8)
            &&& text.subrange(9, 13) == digits.subrange(8, 12)
            &&& text.subrange(14, 18) == digits.subrange(12, 16)
            &&& text.subrange(19, 23) == digits.subrange(16, 20)
            &&& text.subrange(24, 36) == digits.subrange(20, 32)
        }),
{
    let text = uuid_text(uuid);
    let digits = hex_text(uuid);
    assert(text.subrange(0, 8) =~= digits.subrange(0, 8));
    assert(text.subrange(9, 13) =~= digits.subrange(8, 12));
    assert(text.subrange(14, 18) =~= digits.subrange(12, 16));
    assert(text.subrange(19, 23) =~= digits.subrange(16, 20));
    assert(text.subrange(24, 36) =~= digits.subrange(20, 32));
}

/// Nothing but hyphens is dropped from a text: where there are none, all of it is kept.
pub proof fn a_text_without_hyphens_is_kept_whole(text: Seq<u8>)
    requires
        forall|k: int| 0 <= k < text.len() ==> #[trigger] text[k] != 0x2d,
    ensures
        dashless(text) == text,
{
    lemma_nothing_dropped(text);
}

/// A text of single-byte characters is never cut.
pub proof fn single_byte_characters_are_never_cut(text: Seq<u8>)
    requires
        forall|k: int| 0 <= k < text.len() ==> #[trigger] text[k] < 0x80,
    ensures
        !cuts(text),
        !uuid_cuts(text),
{
    assert forall|k: int| !#[trigger] cuts_at(text, k) by {}
    let kept = dashless(text);
    assert forall|k: int| 0 <= k < kept.len() implies #[trigger] kept[k] < 0x80 by {
        assert(kept.contains(kept[k]));
        text.lemma_filter_contains_rev(|b: u8| b != DASH, kept[k]);
    }
    assert forall|k: int| !#[trigger] cuts_at(kept, k) by {}
}

/// What would be cut is no hex text: the cut comes with the first pair that spells no number,
/// in a text of even length, and directly behind that pair stands the rest of a character.
pub proof fn a_cut_comes_with_the_first_mistake(text: Seq<u8>)
    requires
        cuts(text),
    ensures
        text.len() % 2 == 0,
        hex_bytes(text) is None,
        exists|k: int|
            #![trigger text[2 * k]]
            {
                &&& 0 <= k && 2 * k + 2 < text.len()
                &&& pair_value(text[2 * k], text[2 * k + 1]) is None
                &&& 0x80 <= text[2 * k + 2] <= 0xbf
            },
{
    let k = choose|k: int| cuts_at(text, k);
    assert(!good_pair(text, k));
    assert(pair_value(text[2 * k], text[2 * k + 1]) is None);
}

/// Standard Base64 goes first, and the URL-safe kind counts only where that fails.
pub proof fn standard_base64_goes_first(text: Seq<char>)
    ensures
        base64_standard(text) matches Some(bytes) ==> base64_bytes(text) == Ok::<
            Seq<u8>,
            Seq<char>,
        >(bytes),
        base64_standard(text) is None ==> base64_bytes(text) == base64_url_safe(text),
{
}

/// The decoder's reason is handed on whole.
pub proof fn the_reason_is_handed_on_whole(e: TextError, reason: Seq<char>)
    ensures
        is_invalid_base64(e, reason) <==> (e matches TextError::InvalidBase64(words) && words@
            == reason),
{
}

} // verus!
