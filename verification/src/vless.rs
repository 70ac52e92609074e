//! VLESS: the request that goes through a Reality connection, and what the answer
//! to a probe tells.

use vstd::prelude::*;
use vstd::utf8::{encode_utf8, is_ascii_chars, is_ascii_chars_encode_utf8};

use crate::bytes::{be16, be16_round_trip, push_be16, read16};
use crate::cert::{matches_at, occurs_at};

verus! {

/// The version of the protocol.
pub const VERSION: u8 = 0x00;

/// The command that opens a TCP connection.
pub const COMMAND_TCP: u8 = 0x01;

/// The address type of a domain name.
pub const ADDRESS_DOMAIN: u8 = 0x02;

/// The longest domain name, in bytes.
pub const MAX_HOST: usize = 255;

/// The port that a probe asks the proxy to reach: plain HTTP, so that the
/// response is readable.
pub const PROBE_PORT: u16 = 80;

/// The header of a request: version, UUID, no addons, the TCP command, the port,
/// and a domain name with its length.
pub open spec fn request_header(uuid: Seq<u8>, port: u16, host: Seq<u8>) -> Seq<u8> {
    seq![VERSION] + uuid + seq![0x00u8, COMMAND_TCP] + be16(port) + seq![
        ADDRESS_DOMAIN,
        host.len() as u8,
    ] + host
}

/// Lays out a request: the header, and directly behind it what is to be sent to
/// the host.
pub fn vless_request(uuid: &[u8; 16], port: u16, host: &str, payload: &[u8]) -> (frame: Vec<u8>)
    requires
        encode_utf8(host@).len() <= MAX_HOST,
    ensures
        frame@ == request_header(uuid@, port, encode_utf8(host@)) + payload@,
{
    let name = host.as_bytes();
    let mut frame: Vec<u8> = Vec::new();
    frame.push(VERSION);
    frame.extend_from_slice(uuid);
    frame.push(0x00);
    frame.push(COMMAND_TCP);
    push_be16(&mut frame, port);
    frame.push(ADDRESS_DOMAIN);
    frame.push(name.len() as u8);
    frame.extend_from_slice(name);
    assert(frame@ =~= request_header(uuid@, port, encode_utf8(host@)));
    frame.extend_from_slice(payload);
    frame
}

/// The proxy reads the request back: every field of the header stands at its
/// place, and what follows the host is the payload.
pub proof fn request_is_read_back(uuid: Seq<u8>, port: u16, host: Seq<u8>, payload: Seq<u8>)
    requires
        uuid.len() == 16,
        host.len() <= MAX_HOST,
    ensures
        ({
            let frame = request_header(uuid, port, host) + payload;
            let end = 23 + frame[22] as int;
            &&& frame[0] == VERSION
            &&& frame.subrange(1, 17) == uuid
            &&& frame[17] == 0
            &&& frame[18] == COMMAND_TCP
            &&& read16(frame, 19) == port
            &&& frame[21] == ADDRESS_DOMAIN
            &&& frame.subrange(23, end) == host
            &&& frame.skip(end) == payload
        }),
{
    let frame = request_header(uuid, port, host) + payload;
    be16_round_trip(port);
    assert(frame.subrange(1, 17) =~= uuid);
    assert(frame[19] == be16(port)[0] && frame[20] == be16(port)[1]);
    assert(frame[22] == host.len());
    assert(frame.subrange(23, 23 + host.len() as int) =~= host);
    assert(frame.skip(23 + host.len() as int) =~= payload);
}

/// The HTTP request that asks a host for its front page.
pub open spec fn front_page_request(host: Seq<u8>) -> Seq<u8> {
    encode_utf8("GET / HTTP/1.1\r\nHost: "@) + host + encode_utf8(
        "\r\nConnection: close\r\n\r\n"@,
    )
}

/// Asks a host for its front page, once.
pub fn http_get(host: &str) -> (request: Vec<u8>)
    ensures
        request@ == front_page_request(encode_utf8(host@)),
{
    let mut request: Vec<u8> = Vec::new();
    request.extend_from_slice("GET / HTTP/1.1\r\nHost: ".as_bytes());
    request.extend_from_slice(host.as_bytes());
    request.extend_from_slice("\r\nConnection: close\r\n\r\n".as_bytes());
    assert(request@ =~= front_page_request(encode_utf8(host@)));
    request
}

/// The HTTP request that asks a host for its front page, uncompressed.
pub open spec fn plain_page_request(host: Seq<u8>) -> Seq<u8> {
    encode_utf8("GET / HTTP/1.1\r\nHost: "@) + host + encode_utf8(
        "\r\nConnection: close\r\nAccept-Encoding: identity\r\n\r\n"@,
    )
}

/// Asks a host for its front page, once and uncompressed.
pub fn http_get_uncompressed(host: &str) -> (request: Vec<u8>)
    ensures
        request@ == plain_page_request(encode_utf8(host@)),
{
    let mut request: Vec<u8> = Vec::new();
    request.extend_from_slice("GET / HTTP/1.1\r\nHost: ".as_bytes());
    request.extend_from_slice(host.as_bytes());
    request.extend_from_slice(
        "\r\nConnection: close\r\nAccept-Encoding: identity\r\n\r\n".as_bytes(),
    );
    assert(request@ =~= plain_page_request(encode_utf8(host@)));
    request
}

/// The frame that a probe sends: a request for the front page of example.com.
pub fn probe_frame(uuid: &[u8; 16]) -> (frame: Vec<u8>)
    ensures
        frame@ == request_header(uuid@, PROBE_PORT, encode_utf8("example.com"@))
            + front_page_request(encode_utf8("example.com"@)),
{
    proof {
        reveal_strlit("example.com");
        assert(is_ascii_chars("example.com"@));
        is_ascii_chars_encode_utf8("example.com"@);
    }
    let payload = http_get("example.com");
    vless_request(uuid, PROBE_PORT, "example.com", payload.as_slice())
}

/// What the answer to a probe tells.
#[derive(Clone, Copy, Debug, PartialEq, Eq, Structural)]
pub enum Verdict {
    /// Nothing came back: the server took us for a VLESS client, and refused
    /// something.
    NoData,
    /// The answer is from the host that the proxy was asked to reach.
    Proxied,
    /// The answer is from the host that the server hides behind.
    FellBack,
    /// The answer could be from anywhere.
    Inconclusive,
}

/// An answer longer than this is long enough to be judged.
pub const ENOUGH: usize = 4096;

/// Adds what was read to the answer, and says whether to read on: not at the end of
/// the stream, where nothing was read, and not when the answer is long enough.
pub fn take_chunk(response: &mut Vec<u8>, chunk: &[u8]) -> (more: bool)
    ensures
        final(response)@ == old(response)@ + chunk@,
        more <==> chunk@.len() > 0 && final(response)@.len() <= ENOUGH,
{
    response.extend_from_slice(chunk);
    chunk.len() > 0 && response.len() <= ENOUGH
}

/// `text` stands somewhere in `data`.
pub open spec fn holds_text(data: Seq<u8>, text: Seq<char>) -> bool {
    exists|at: int| occurs_at(data, encode_utf8(text), at)
}

/// Something that only example.com says.
pub open spec fn names_the_target(response: Seq<u8>) -> bool {
    ||| holds_text(response, "example.com"@)
    ||| holds_text(response, "IANA"@)
    ||| holds_text(response, "illustrative examples"@)
    ||| holds_text(response, "Example Domain"@)
}

/// Something that the host behind which such servers hide says.
pub open spec fn names_the_disguise(response: Seq<u8>) -> bool {
    ||| holds_text(response, "microsoft"@)
    ||| holds_text(response, "Microsoft"@)
    ||| holds_text(response, "AkamaiNetStorage"@)
    ||| holds_text(response, "AkamaiGHost"@)
    ||| holds_text(response, "Akamai"@)
    ||| holds_text(response, "mscom"@)
}

/// What an answer tells.
pub open spec fn probe_verdict(response: Seq<u8>) -> Verdict {
    if response.len() == 0 {
        Verdict::NoData
    } else if names_the_target(response) {
        Verdict::Proxied
    } else if names_the_disguise(response) {
        Verdict::FellBack
    } else {
        Verdict::Inconclusive
    }
}

/// Does `text` stand somewhere in `data`?
fn has_text(data: &[u8], text: &str) -> (found: bool)
    ensures
        found == holds_text(data@, text@),
{
    let pattern = text.as_bytes();
    let n: usize = data.len();
    let m: usize = pattern.len();
    if m > n {
        return false;
    }
    let mut at: usize = 0;
    while at <= n - m
        invariant
            n == data@.len(),
            m == pattern@.len(),
            m <= n,
            at <= n - m + 1,
            pattern@ == encode_utf8(text@),
            forall|k: int| 0 <= k < at ==> !#[trigger] occurs_at(data@, pattern@, k),
        decreases n - m + 1 - at,
    {
        if matches_at(data, pattern, at) {
            return true;
        }
        if at == n - m {
            assert forall|k: int| !#[trigger] occurs_at(data@, pattern@, k) by {}
            return false;
        }
        at = at + 1;
    }
    false
}

/// Tells what an answer to a probe means.
pub fn verdict(response: &[u8]) -> (v: Verdict)
    ensures
        v == probe_verdict(response@),
{
    if response.len() == 0 {
        Verdict::NoData
    } else if has_text(response, "example.com") || has_text(response, "IANA") || has_text(
        response,
        "illustrative examples",
    ) || has_text(response, "Example Domain") {
        Verdict::Proxied
    } else if has_text(response, "microsoft") || has_text(response, "Microsoft") || has_text(
        response,
        "AkamaiNetStorage",
    ) || has_text(response, "AkamaiGHost") || has_text(response, "Akamai") || has_text(
        response,
        "mscom",
    ) {
        Verdict::FellBack
    } else {
        Verdict::Inconclusive
    }
}

/// The header byte by byte: 00, the UUID, 00, 01, the port with its more significant byte
/// first, 02, the length of the host, the host, and then the payload.
pub proof fn a_request_is_laid_out_byte_by_byte(
    uuid: Seq<u8>,
    port: u16,
    host: Seq<u8>,
    payload: Seq<u8>,
)
    requires
        uuid.len() == 16,
        host.len() <= 255,
    ensures
        ({
            let frame = request_header(uuid, port, host) + payload;
            &&& frame.len() == 23 + host.len() + payload.len()
            &&& frame[0] == 0
            &&& frame.subrange(1, 17) == uuid
            &&& frame[17] == 0 && frame[18] == 1
            &&& 256 * frame[19] + frame[20] == port
            &&& frame[21] == 2
            &&& frame[22] == host.len()
            &&& frame.subrange(23, 23 + host.len() as int) == host
            &&& frame.skip(23 + host.len() as int) == payload
        }),
{
    let frame = request_header(uuid, port, host) + payload;
    assert(frame.subrange(1, 17) =~= uuid);
    assert(frame[19] == be16(port)[0] && frame[20] == be16(port)[1]);
    assert(frame.subrange(23, 23 + host.len() as int) =~= host);
    assert(frame.skip(23 + host.len() as int) =~= payload);
}

/// Two requests for a front page differ in the host alone: the lines in front of it and
/// behind it are the same, whatever the host is.
pub proof fn a_front_page_request_names_the_host(host: Seq<u8>, other: Seq<u8>)
    ensures
        ({
            let first = encode_utf8("GET / HTTP/1.1\r\nHost: "@).len() as int;
            let a = front_page_request(host);
            let b = front_page_request(other);
            &&& a.take(first) == encode_utf8("GET / HTTP/1.1\r\nHost: "@)
            &&& a.subrange(first, first + host.len()) == host
            &&& a.skip(first + host.len()) == encode_utf8("\r\nConnection: close\r\n\r\n"@)
            &&& a.take(first) == b.take(first)
            &&& a.skip(first + host.len()) == b.skip(first + other.len())
        }),
        ({
            let first = encode_utf8("GET / HTTP/1.1\r\nHost: "@).len() as int;
            let a = plain_page_request(host);
            &&& a.take(first) == encode_utf8("GET / HTTP/1.1\r\nHost: "@)
            &&& a.subrange(first, first + host.len()) == host
            &&& a.skip(first + host.len()) == encode_utf8(
                "\r\nConnection: close\r\nAccept-Encoding: identity\r\n\r\n"@,
            )
        }),
{
    let front = encode_utf8("GET / HTTP/1.1\r\nHost: "@);
    lemma_in_the_middle(front, host, encode_utf8("\r\nConnection: close\r\n\r\n"@));
    lemma_in_the_middle(front, other, encode_utf8("\r\nConnection: close\r\n\r\n"@));
    lemma_in_the_middle(
        front,
        host,
        encode_utf8("\r\nConnection: close\r\nAccept-Encoding: identity\r\n\r\n"@),
    );
}

proof fn lemma_in_the_middle(a: Seq<u8>, b: Seq<u8>, c: Seq<u8>)
    ensures
        (a + b + c).take(a.len() as int) == a,
        (a + b + c).subrange(a.len() as int, a.len() + b.len() as int) == b,
        (a + b + c).skip(a.len() + b.len() as int) == c,
{
    assert((a + b + c).take(a.len() as int) =~= a);
    assert((a + b + c).subrange(a.len() as int, a.len() + b.len() as int) =~= b);
    assert((a + b + c).skip(a.len() + b.len() as int) =~= c);
}

/// A text is found wherever it stands, whatever is around it, and found only where it stands.
pub proof fn a_text_is_found_wherever_it_stands(
    before: Seq<u8>,
    text: Seq<char>,
    after: Seq<u8>,
    data: Seq<u8>,
)
    ensures
        holds_text(before + encode_utf8(text) + after, text),
        holds_text(data, text) ==> exists|a: Seq<u8>, b: Seq<u8>|
            data == #[trigger] (a + encode_utf8(text) + b),
{
    let bytes = encode_utf8(text);
    lemma_in_the_middle(before, bytes, after);
    assert(occurs_at(before + bytes + after, bytes, before.len() as int));
    if holds_text(data, text) {
        let at = choose|at: int| occurs_at(data, bytes, at);
        let a = data.take(at);
        let b = data.skip(at + bytes.len());
        assert(data =~= a + bytes + b);
    }
}

/// What an answer tells, over all answers: nothing came back; something that only the target
/// says came back; else something that only the disguise says; else nothing can be told.
pub proof fn an_answer_is_told_by_what_it_holds(response: Seq<u8>)
    ensures
        ({
            let target = holds_text(response, "example.com"@) || holds_text(response, "IANA"@)
                || holds_text(response, "illustrative examples"@) || holds_text(
                response,
                "Example Domain"@,
            );
            let disguise = holds_text(response, "microsoft"@) || holds_text(response, "Microsoft"@)
                || holds_text(response, "AkamaiNetStorage"@) || holds_text(
                response,
                "AkamaiGHost"@,
            ) || holds_text(response, "Akamai"@) || holds_text(response, "mscom"@);
            &&& probe_verdict(response) == Verdict::NoData <==> response.len() == 0
            &&& probe_verdict(response) == Verdict::Proxied <==> response.len() > 0 && target
            &&& probe_verdict(response) == Verdict::FellBack <==> response.len() > 0 && !target
                && disguise
            &&& probe_verdict(response) == Verdict::Inconclusive <==> response.len() > 0 && !target
                && !disguise
        }),
{
}

} // verus!
