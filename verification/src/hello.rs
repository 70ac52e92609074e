//! Writing a `ClientHello`, in the shape that a profile asks for.

use vstd::prelude::*;
use vstd::slice::slice_subrange;

use crate::bytes::{be16, be24, push_be16, read16};
use crate::grease::Grease;
use crate::profile::{
    extend_extensions, extension_views, padded_len, padding_body, ClientHelloProfile, Padding,
    ProfileModel, RawExtension,
};
use crate::wire::{
    entries, extensions_at, hello_body, laid_out, payloads, suites_at, suites_end, u16s,
    wire_hello, WireModel, CLIENT_HELLO, KEY_SHARE, SUPPORTED_GROUPS, SUPPORTED_VERSIONS,
};

verus! {

/// Extension type of padding.
pub const PADDING: u16 = 21;

/// Says that the client does not renegotiate, to a server that may speak TLS 1.2.
pub const EMPTY_RENEGOTIATION_INFO_SCSV: u16 = 0x00ff;

/// The longest list that a 16-bit length can announce, in bytes.
pub const MAX_LIST: usize = 0xffff;

/// The most that one record can carry.
pub const MAX_FRAGMENT: usize = 16384;

/// The longest hello body that one record can carry.
pub const MAX_BODY: usize = 16380;

/// The longest session ID.
pub const MAX_SESSION_ID: usize = 32;

/// The most versions that an 8-bit length can announce.
pub const MAX_VERSIONS: usize = 127;

/// What the client has to offer, before any shaping.
#[derive(Debug)]
pub struct HelloOffer {
    /// The random value.
    pub random: [u8; 32],
    /// The session ID.
    pub session_id: Vec<u8>,
    /// The cipher suites of the provider, the preferred one first.
    pub cipher_suites: Vec<u16>,
    /// Whether TLS 1.2 is among the versions.
    pub tls12: bool,
    /// The groups for key exchange, the preferred one first.
    pub named_groups: Vec<u16>,
    /// The protocol versions, the preferred one first.
    pub versions: Vec<u16>,
    /// The key shares: group and public key.
    pub key_shares: Vec<RawExtension>,
    /// The other extensions that the stack generates.
    pub extensions: Vec<RawExtension>,
    /// The extensions that the standard pins to the end.
    pub trailing: Vec<RawExtension>,
}

/// What a [`HelloOffer`] holds.
pub struct OfferModel {
    /// The random value.
    pub random: Seq<u8>,
    /// The session ID.
    pub session_id: Seq<u8>,
    /// The cipher suites of the provider.
    pub cipher_suites: Seq<u16>,
    /// Whether TLS 1.2 is among the versions.
    pub tls12: bool,
    /// The groups.
    pub named_groups: Seq<u16>,
    /// The versions.
    pub versions: Seq<u16>,
    /// The key shares.
    pub key_shares: Seq<(u16, Seq<u8>)>,
    /// The other extensions.
    pub extensions: Seq<(u16, Seq<u8>)>,
    /// The extensions pinned to the end.
    pub trailing: Seq<(u16, Seq<u8>)>,
}

impl View for HelloOffer {
    type V = OfferModel;

    open spec fn view(&self) -> OfferModel {
        OfferModel {
            random: self.random@,
            session_id: self.session_id@,
            cipher_suites: self.cipher_suites@,
            tls12: self.tls12,
            named_groups: self.named_groups@,
            versions: self.versions@,
            key_shares: extension_views(self.key_shares@),
            extensions: extension_views(self.extensions@),
            trailing: extension_views(self.trailing@),
        }
    }
}

/// What a hello says.
pub struct HelloModel {
    /// The random value.
    pub random: Seq<u8>,
    /// The session ID.
    pub session_id: Seq<u8>,
    /// The cipher suites.
    pub cipher_suites: Seq<u16>,
    /// The extensions.
    pub extensions: Seq<(u16, Seq<u8>)>,
}

/// The bytes of a list of 16-bit numbers.
pub open spec fn u16_bytes(list: Seq<u16>) -> Seq<u8> {
    Seq::new(
        2 * list.len(),
        |k: int|
            if k % 2 == 0 {
                (list[k / 2] / 256) as u8
            } else {
                (list[k / 2] % 256) as u8
            },
    )
}

/// The bytes of one entry: a number, a length, a body.
pub open spec fn entry_bytes(entry: (u16, Seq<u8>)) -> Seq<u8> {
    be16(entry.0) + be16(entry.1.len() as u16) + entry.1
}

/// The bytes of a list of entries.
pub open spec fn entries_bytes(list: Seq<(u16, Seq<u8>)>) -> Seq<u8>
    decreases list.len(),
{
    if list.len() == 0 {
        Seq::empty()
    } else {
        entry_bytes(list[0]) + entries_bytes(list.drop_first())
    }
}

/// A `ClientHello` body, field by field.
pub struct HelloFields {
    /// The legacy version: two bytes.
    pub legacy_version: Seq<u8>,
    /// The random value: thirty-two bytes.
    pub random: Seq<u8>,
    /// The session ID.
    pub session_id: Seq<u8>,
    /// The cipher suites.
    pub cipher_suites: Seq<u16>,
    /// The compression methods.
    pub compression_methods: Seq<u8>,
    /// The extensions.
    pub extensions: Seq<(u16, Seq<u8>)>,
}

impl HelloFields {
    /// Version, random value and session ID.
    pub open spec fn opening(self) -> Seq<u8> {
        self.legacy_version + self.random + seq![self.session_id.len() as u8] + self.session_id
    }

    /// The cipher suites and the compression methods.
    pub open spec fn suites_field(self) -> Seq<u8> {
        be16((2 * self.cipher_suites.len()) as u16) + u16_bytes(self.cipher_suites) + (seq![
            self.compression_methods.len() as u8,
        ] + self.compression_methods)
    }

    /// The extensions.
    pub open spec fn extensions_field(self) -> Seq<u8> {
        be16(entries_bytes(self.extensions).len() as u16) + entries_bytes(self.extensions)
    }

    /// The body.
    pub open spec fn body(self) -> Seq<u8> {
        self.opening() + self.suites_field() + self.extensions_field()
    }

    /// Every length can be announced.
    pub open spec fn encodable(self) -> bool {
        &&& self.legacy_version.len() == 2
        &&& self.random.len() == 32
        &&& self.session_id.len() <= 0xff
        &&& 2 * self.cipher_suites.len() <= MAX_LIST
        &&& self.compression_methods.len() <= 0xff
        &&& entries_bytes(self.extensions).len() <= MAX_LIST
    }
}

/// A handshake message: type, length, body.
pub open spec fn handshake_message(body: Seq<u8>) -> Seq<u8> {
    seq![CLIENT_HELLO] + be24(body.len()) + body
}

/// The header of a record with `len` bytes in it.
pub open spec fn record_header(len: nat) -> Seq<u8> {
    seq![0x16u8, 0x03u8, 0x01u8] + be16(len as u16)
}

/// A message cut into records, each as full as it can be.
pub open spec fn fragmented(message: Seq<u8>) -> Seq<u8>
    decreases message.len(),
{
    if message.len() == 0 {
        Seq::empty()
    } else if message.len() <= MAX_FRAGMENT {
        record_header(message.len()) + message
    } else {
        record_header(MAX_FRAGMENT as nat) + message.take(MAX_FRAGMENT as int) + fragmented(
            message.skip(MAX_FRAGMENT as int),
        )
    }
}

impl HelloModel {
    /// The fields of the body: TLS 1.2 as legacy version, and null as the only
    /// compression method.
    pub open spec fn fields(self) -> HelloFields {
        HelloFields {
            legacy_version: seq![0x03u8, 0x03u8],
            random: self.random,
            session_id: self.session_id,
            cipher_suites: self.cipher_suites,
            compression_methods: seq![0x00u8],
            extensions: self.extensions,
        }
    }

    /// The handshake message body.
    pub open spec fn body(self) -> Seq<u8> {
        self.fields().body()
    }

    /// The length of the body.
    pub open spec fn body_len(self) -> nat {
        (41 + self.session_id.len() + 2 * self.cipher_suites.len() + entries_bytes(
            self.extensions,
        ).len()) as nat
    }

    /// The handshake message.
    pub open spec fn message(self) -> Seq<u8> {
        handshake_message(self.body())
    }

    /// The records that carry the hello.
    pub open spec fn records(self) -> Seq<u8> {
        fragmented(self.message())
    }

    /// The hello can be written: every length can be announced, and the session ID
    /// is no longer than it may be.
    pub open spec fn fits(self) -> bool {
        &&& self.random.len() == 32
        &&& self.session_id.len() <= MAX_SESSION_ID
        &&& 2 * self.cipher_suites.len() <= MAX_LIST
        &&& entries_bytes(self.extensions).len() <= MAX_LIST
    }
}

/// A list with a value put in front, if that is wanted.
pub open spec fn led_by<T>(wanted: bool, value: T, list: Seq<T>) -> Seq<T> {
    if wanted {
        seq![value] + list
    } else {
        list
    }
}

/// The cipher suites without GREASE: the dictated list as it is, or the provider's,
/// with the renegotiation signal behind it where TLS 1.2 is offered.
pub open spec fn own_suites(profile: ProfileModel, offer: OfferModel) -> Seq<u16> {
    match profile.cipher_suites {
        Some(list) => list,
        None => if offer.tls12 {
            offer.cipher_suites.push(EMPTY_RENEGOTIATION_INFO_SCSV)
        } else {
            offer.cipher_suites
        },
    }
}

/// The cipher suites on the wire.
pub open spec fn shaped_suites(profile: ProfileModel, grease: Grease, offer: OfferModel) -> Seq<
    u16,
> {
    led_by(profile.grease, grease.cipher_suite, own_suites(profile, offer))
}

/// The groups on the wire.
pub open spec fn shaped_groups(profile: ProfileModel, grease: Grease, offer: OfferModel) -> Seq<
    u16,
> {
    led_by(profile.grease, grease.named_group, offer.named_groups)
}

/// The versions on the wire.
pub open spec fn shaped_versions(profile: ProfileModel, grease: Grease, offer: OfferModel) -> Seq<
    u16,
> {
    led_by(profile.grease, grease.version, offer.versions)
}

/// The key shares on the wire.
pub open spec fn shaped_shares(profile: ProfileModel, grease: Grease, offer: OfferModel) -> Seq<
    (u16, Seq<u8>),
> {
    led_by(profile.grease, (grease.named_group, Grease::KEY_SHARE_PAYLOAD@), offer.key_shares)
}

/// The supported_groups extension.
pub open spec fn groups_extension(groups: Seq<u16>) -> (u16, Seq<u8>) {
    (SUPPORTED_GROUPS, be16((2 * groups.len()) as u16) + u16_bytes(groups))
}

/// The supported_versions extension.
pub open spec fn versions_extension(versions: Seq<u16>) -> (u16, Seq<u8>) {
    (SUPPORTED_VERSIONS, seq![(2 * versions.len()) as u8] + u16_bytes(versions))
}

/// The key_share extension.
pub open spec fn shares_extension(shares: Seq<(u16, Seq<u8>)>) -> (u16, Seq<u8>) {
    (KEY_SHARE, be16(entries_bytes(shares).len() as u16) + entries_bytes(shares))
}

/// Everything that the stack generates, apart from what is pinned to the end.
pub open spec fn generated(profile: ProfileModel, grease: Grease, offer: OfferModel) -> Seq<
    (u16, Seq<u8>),
> {
    seq![
        groups_extension(shaped_groups(profile, grease, offer)),
        versions_extension(shaped_versions(profile, grease, offer)),
        shares_extension(shaped_shares(profile, grease, offer)),
    ] + offer.extensions
}

/// The extensions up to the padding.
pub open spec fn leading(profile: ProfileModel, grease: Grease, offer: OfferModel) -> Seq<
    (u16, Seq<u8>),
> {
    let middle = profile.prepend_extensions + generated(profile, grease, offer)
        + profile.append_extensions;
    if profile.grease {
        seq![(grease.first_extension, Seq::<u8>::empty())] + middle + seq![
            (grease.last_extension, Grease::LAST_EXTENSION_PAYLOAD@),
        ]
    } else {
        middle
    }
}

/// The hello before it is padded.
pub open spec fn unpadded(profile: ProfileModel, grease: Grease, offer: OfferModel) -> HelloModel {
    HelloModel {
        random: offer.random,
        session_id: offer.session_id,
        cipher_suites: shaped_suites(profile, grease, offer),
        extensions: leading(profile, grease, offer) + offer.trailing,
    }
}

/// The padding extension, if there is to be one.
pub open spec fn padding_extensions(padding: Option<Padding>, hello_len: nat) -> Seq<
    (u16, Seq<u8>),
> {
    match padding {
        Some(rule) => match padding_body(rule, hello_len) {
            Some(body) => seq![(PADDING, Seq::new(body, |i: int| 0u8))],
            None => Seq::empty(),
        },
        None => Seq::empty(),
    }
}

/// The hello on the wire: the leading extensions, the padding, and what is pinned
/// to the end.
pub open spec fn shaped(profile: ProfileModel, grease: Grease, offer: OfferModel) -> HelloModel {
    let plain = unpadded(profile, grease, offer);
    HelloModel {
        extensions: leading(profile, grease, offer) + padding_extensions(
            profile.padding,
            plain.body_len(),
        ) + offer.trailing,
        ..plain
    }
}

/// The shaped hello can be written: it fits, and its versions can be counted.
pub open spec fn writable(profile: ProfileModel, grease: Grease, offer: OfferModel) -> bool {
    &&& shaped(profile, grease, offer).fits()
    &&& shaped_versions(profile, grease, offer).len() <= MAX_VERSIONS
}

proof fn lemma_entries_bytes_push(list: Seq<(u16, Seq<u8>)>, last: (u16, Seq<u8>))
    ensures
        entries_bytes(list.push(last)) == entries_bytes(list) + entry_bytes(last),
    decreases list.len(),
{
    reveal_with_fuel(entries_bytes, 2);
    if list.len() == 0 {
        assert(list.push(last).drop_first() =~= Seq::empty());
        assert(entries_bytes(list.push(last)) =~= entry_bytes(last) + Seq::empty());
        assert(entry_bytes(last) + Seq::empty() =~= Seq::<u8>::empty() + entry_bytes(last));
    } else {
        assert(list.push(last).drop_first() =~= list.drop_first().push(last));
        lemma_entries_bytes_push(list.drop_first(), last);
        assert(entries_bytes(list.push(last)) =~= entries_bytes(list) + entry_bytes(last));
    }
}

proof fn lemma_entries_bytes_add(a: Seq<(u16, Seq<u8>)>, b: Seq<(u16, Seq<u8>)>)
    ensures
        entries_bytes(a + b) == entries_bytes(a) + entries_bytes(b),
    decreases b.len(),
{
    if b.len() == 0 {
        assert(a + b =~= a);
        assert(entries_bytes(a) + Seq::empty() =~= entries_bytes(a));
    } else {
        lemma_entries_bytes_add(a, b.drop_last());
        assert(a + b =~= (a + b.drop_last()).push(b.last()));
        lemma_entries_bytes_push(a + b.drop_last(), b.last());
        lemma_entries_bytes_push(b.drop_last(), b.last());
        assert(b =~= b.drop_last().push(b.last()));
        assert(entries_bytes(a + b) =~= entries_bytes(a) + entries_bytes(b));
    }
}

/// A list of entries takes at least as many bytes as any one of its bodies.
pub(crate) proof fn lemma_entry_within(list: Seq<(u16, Seq<u8>)>, i: int)
    requires
        0 <= i < list.len(),
    ensures
        4 + list[i].1.len() <= entries_bytes(list).len(),
    decreases list.len(),
{
    if i > 0 {
        lemma_entry_within(list.drop_first(), i - 1);
    }
}

/// Reading a written list of 16-bit numbers gives the list.
pub proof fn u16s_round_trip(list: Seq<u16>)
    ensures
        u16s(u16_bytes(list)) == list,
{
    let bytes = u16_bytes(list);
    assert forall|i: int| 0 <= i < list.len() implies #[trigger] u16s(bytes)[i] == list[i] by {
        assert((2 * i) % 2 == 0 && (2 * i) / 2 == i);
        assert((2 * i + 1) % 2 == 1 && (2 * i + 1) / 2 == i);
    }
    assert(u16s(bytes) =~= list);
}

/// Reading a written list of entries gives the list.
pub proof fn entries_round_trip(list: Seq<(u16, Seq<u8>)>)
    requires
        forall|i: int| 0 <= i < list.len() ==> (#[trigger] list[i]).1.len() <= 0xffff,
    ensures
        entries(entries_bytes(list)) == Some(list),
    decreases list.len(),
{
    let bytes = entries_bytes(list);
    if list.len() == 0 {
        assert(list =~= Seq::empty());
    } else {
        let rest = list.drop_first();
        assert forall|i: int| 0 <= i < rest.len() implies (#[trigger] rest[i]).1.len()
            <= 0xffff by {
            assert(rest[i] == list[i + 1]);
        }
        entries_round_trip(rest);
        let end = 4 + list[0].1.len();
        assert(bytes.subrange(0, 2) =~= be16(list[0].0));
        assert(bytes.subrange(2, 4) =~= be16(list[0].1.len() as u16));
        assert(bytes[0] == bytes.subrange(0, 2)[0] && bytes[1] == bytes.subrange(0, 2)[1]);
        assert(bytes[2] == bytes.subrange(2, 4)[0] && bytes[3] == bytes.subrange(2, 4)[1]);
        assert(bytes.subrange(4, end as int) =~= list[0].1);
        assert(bytes.skip(end as int) =~= entries_bytes(rest));
        assert(seq![list[0]] + rest =~= list);
    }
}

/// What stands behind a prefix stands there, whatever follows.
proof fn lemma_part(before: Seq<u8>, part: Seq<u8>, after: Seq<u8>)
    ensures
        (before + part + after).subrange(before.len() as int, (before + part).len() as int) == part,
        forall|k: int|
            0 <= k < part.len() ==> (before + part + after)[before.len() + k] == #[trigger] part[k],
        (before + part + after).skip((before + part).len() as int) == after,
{
    let whole = before + part + after;
    assert(whole.subrange(before.len() as int, (before + part).len() as int) =~= part);
    assert(whole.skip((before + part).len() as int) =~= after);
}

/// The fields of a body stand where the length fields say.
#[verifier::rlimit(30)]
#[verifier::spinoff_prover]
proof fn lemma_body_is_laid_out(hello: HelloFields)
    requires
        hello.encodable(),
    ensures
        laid_out(hello.body()),
        hello.body().subrange(suites_at(hello.body()) + 2, suites_end(hello.body())) == u16_bytes(
            hello.cipher_suites,
        ),
        hello.body().skip(extensions_at(hello.body()) + 2) == entries_bytes(hello.extensions),
{
    let body = hello.body();
    let opening = hello.opening();
    let middle = hello.suites_field();
    let closing = hello.extensions_field();
    let suites = u16_bytes(hello.cipher_suites);
    let methods = seq![hello.compression_methods.len() as u8] + hello.compression_methods;
    let list = entries_bytes(hello.extensions);

    assert(opening[34] == hello.session_id.len());
    assert(opening.len() == 35 + hello.session_id.len());
    assert(body[34] == opening[34]);
    let at = opening.len() as int;
    assert(suites_at(body) == at);

    lemma_part(opening, middle, closing);
    let suites_len = be16((2 * hello.cipher_suites.len()) as u16);
    lemma_part(Seq::empty(), suites_len, suites + methods);
    assert(middle[0] == suites_len[0] && middle[1] == suites_len[1]);
    assert(middle.len() == 2 + suites.len() + methods.len());
    lemma_part(suites_len, suites, methods);
    assert(middle.subrange(2, 2 + suites.len() as int) =~= suites);
    assert(middle[2 + suites.len() as int] == methods[0]);
    assert(body[at] == middle[0] && body[at + 1] == middle[1]);
    let stop = at + 2 + suites.len();
    assert(suites_end(body) == stop);
    assert(body[stop] == middle[2 + suites.len() as int]);
    assert(body.subrange(at + 2, stop) =~= middle.subrange(2, 2 + suites.len() as int));

    let exts = stop + methods.len();
    assert(exts == (opening + middle).len());
    assert(extensions_at(body) == exts);
    assert(body[exts] == closing[0] && body[exts + 1] == closing[1]);
    assert(closing.skip(2) =~= list);
    assert(body.skip(exts + 2) =~= closing.skip(2));
}

/// The body of a hello is as long as `body_len` says.
pub(crate) proof fn lemma_body_len(hello: HelloModel)
    requires
        hello.fits(),
    ensures
        hello.fields().encodable(),
        hello.body().len() == hello.body_len(),
{
    let fields = hello.fields();
    assert(fields.opening().len() == 35 + hello.session_id.len());
    assert(fields.suites_field().len() == 4 + 2 * hello.cipher_suites.len());
    assert(fields.extensions_field().len() == 2 + entries_bytes(hello.extensions).len());
    assert(fields.body().len() == fields.opening().len() + fields.suites_field().len()
        + fields.extensions_field().len());
}

/// A record carries the message body that was put in it.
proof fn lemma_record_carries_body(header: Seq<u8>, body: Seq<u8>, after: Seq<u8>)
    requires
        header.len() == 3,
        4 + body.len() <= 0xffff,
    ensures
        hello_body(header + be16((4 + body.len()) as u16) + handshake_message(body) + after)
            == Some(body),
{
    let n = body.len();
    let record = header + be16((4 + n) as u16) + handshake_message(body) + after;
    assert(record.subrange(3, 5) =~= be16((4 + n) as u16));
    assert(record[3] == record.subrange(3, 5)[0] && record[4] == record.subrange(3, 5)[1]);
    assert(record[5] == CLIENT_HELLO);
    assert(record.subrange(6, 9) =~= be24(n));
    assert(record[6] == record.subrange(6, 9)[0]);
    assert(record[7] == record.subrange(6, 9)[1]);
    assert(record[8] == record.subrange(6, 9)[2]);
    assert(record.subrange(9, 9 + n as int) =~= body);
}

/// Reading undoes any encoding, whoever wrote it: with any record type and version,
/// any legacy version, session ID and compression methods, and anything behind the
/// record, the reader gets the body, the cipher suites and the extensions, each in
/// the order they were written.
pub proof fn any_encoding_is_read_back(header: Seq<u8>, hello: HelloFields, after: Seq<u8>)
    requires
        header.len() == 3,
        hello.encodable(),
        4 + hello.body().len() <= 0xffff,
    ensures
        wire_hello(
            header + be16((4 + hello.body().len()) as u16) + handshake_message(hello.body())
                + after,
        ) == Some(
            WireModel {
                body: hello.body(),
                cipher_suites: hello.cipher_suites,
                extensions: hello.extensions,
            },
        ),
{
    lemma_body_is_laid_out(hello);
    lemma_record_carries_body(header, hello.body(), after);
    u16s_round_trip(hello.cipher_suites);
    assert forall|i: int| 0 <= i < hello.extensions.len() implies (
    #[trigger] hello.extensions[i]).1.len() <= 0xffff by {
        lemma_entry_within(hello.extensions, i);
    }
    entries_round_trip(hello.extensions);
}

/// Reading a written hello that one record can carry gives what was written: the
/// same body, the same cipher suites and the same extensions, each in the same order.
pub proof fn hello_round_trip(hello: HelloModel)
    requires
        hello.fits(),
        hello.body_len() <= MAX_BODY,
    ensures
        wire_hello(hello.records()) == Some(
            WireModel {
                body: hello.body(),
                cipher_suites: hello.cipher_suites,
                extensions: hello.extensions,
            },
        ),
{
    lemma_body_len(hello);
    any_encoding_is_read_back(seq![0x16u8, 0x03u8, 0x01u8], hello.fields(), Seq::empty());
    let n = hello.body_len();
    assert(hello.records() =~= seq![0x16u8, 0x03u8, 0x01u8] + be16((4 + n) as u16)
        + handshake_message(hello.body()) + Seq::empty());
}

/// Putting the records together again gives the message, however long it is.
pub proof fn records_round_trip(message: Seq<u8>)
    ensures
        payloads(fragmented(message)) == Some(message),
    decreases message.len(),
{
    let stream = fragmented(message);
    if message.len() > 0 {
        let n: int = if message.len() <= MAX_FRAGMENT {
            message.len() as int
        } else {
            MAX_FRAGMENT as int
        };
        let rest = message.skip(n);
        records_round_trip(rest);
        assert(stream =~= record_header(n as nat) + message.take(n) + fragmented(rest));
        assert(stream.subrange(3, 5) =~= be16(n as u16));
        assert(stream[3] == stream.subrange(3, 5)[0] && stream[4] == stream.subrange(3, 5)[1]);
        assert(read16(stream, 3) == n);
        assert(stream.subrange(5, 5 + n) =~= message.take(n));
        assert(stream.skip(5 + n) =~= fragmented(rest));
        assert(message.take(n) + rest =~= message);
    } else {
        assert(message =~= Seq::empty());
    }
}

/// The length of a list of entries, one list behind the other.
proof fn lemma_three_lists(
    a: Seq<(u16, Seq<u8>)>,
    b: Seq<(u16, Seq<u8>)>,
    c: Seq<(u16, Seq<u8>)>,
)
    ensures
        entries_bytes(a + b + c).len() == entries_bytes(a).len() + entries_bytes(b).len()
            + entries_bytes(c).len(),
{
    lemma_entries_bytes_add(a, b);
    lemma_entries_bytes_add(a + b, c);
}

/// A list of one entry takes its header and its body.
proof fn lemma_one_entry(entry: (u16, Seq<u8>))
    ensures
        entries_bytes(seq![entry]).len() == 4 + entry.1.len(),
{
    assert(seq![entry].drop_first() =~= Seq::empty());
    reveal_with_fuel(entries_bytes, 2);
}

/// The padded hello is as long as the padding rule says.
pub(crate) proof fn lemma_shaped_len(profile: ProfileModel, grease: Grease, offer: OfferModel)
    ensures
        shaped(profile, grease, offer).body_len() == (match profile.padding {
            Some(rule) => padded_len(rule, unpadded(profile, grease, offer).body_len()),
            None => unpadded(profile, grease, offer).body_len(),
        }),
        unpadded(profile, grease, offer).body_len() <= shaped(profile, grease, offer).body_len(),
        entries_bytes(shaped(profile, grease, offer).extensions).len() == entries_bytes(
            unpadded(profile, grease, offer).extensions,
        ).len() + entries_bytes(
            padding_extensions(profile.padding, unpadded(profile, grease, offer).body_len()),
        ).len(),
{
    let plain = unpadded(profile, grease, offer);
    let front = leading(profile, grease, offer);
    let pad = padding_extensions(profile.padding, plain.body_len());
    lemma_entries_bytes_add(front, offer.trailing);
    lemma_three_lists(front, pad, offer.trailing);
    match profile.padding {
        Some(rule) => match padding_body(rule, plain.body_len()) {
            Some(body) => {
                lemma_one_entry((PADDING, Seq::new(body, |i: int| 0u8)));
            },
            None => {},
        },
        None => {},
    }
}

/// What is generated is part of the hello.
proof fn lemma_generated_within(profile: ProfileModel, grease: Grease, offer: OfferModel)
    ensures
        forall|i: int|
            0 <= i < generated(profile, grease, offer).len() ==> 4 + (#[trigger] generated(
                profile,
                grease,
                offer,
            )[i]).1.len() <= entries_bytes(shaped(profile, grease, offer).extensions).len(),
        entries_bytes(leading(profile, grease, offer)).len() <= entries_bytes(
            shaped(profile, grease, offer).extensions,
        ).len(),
{
    let made = generated(profile, grease, offer);
    let middle = profile.prepend_extensions + made + profile.append_extensions;
    let front = leading(profile, grease, offer);
    lemma_three_lists(profile.prepend_extensions, made, profile.append_extensions);
    if profile.grease {
        lemma_three_lists(
            seq![(grease.first_extension, Seq::<u8>::empty())],
            middle,
            seq![(grease.last_extension, Grease::LAST_EXTENSION_PAYLOAD@)],
        );
    }
    lemma_entries_bytes_add(front, offer.trailing);
    lemma_shaped_len(profile, grease, offer);
    assert forall|i: int| 0 <= i < made.len() implies 4 + (#[trigger] made[i]).1.len()
        <= entries_bytes(shaped(profile, grease, offer).extensions).len() by {
        lemma_entry_within(made, i);
    }
}

/// Appends the bytes of 16-bit numbers.
fn push_u16s(out: &mut Vec<u8>, list: &Vec<u16>)
    ensures
        final(out)@ == old(out)@ + u16_bytes(list@),
{
    let mut k: usize = 0;
    assert(u16_bytes(list@).take(0) =~= Seq::empty());
    assert(out@ + Seq::empty() =~= out@);
    while k < list.len()
        invariant
            k <= list@.len(),
            out@ == old(out)@ + u16_bytes(list@).take(2 * k),
        decreases list@.len() - k,
    {
        push_be16(out, list[k]);
        proof {
            let bytes = u16_bytes(list@);
            assert((2 * k) % 2 == 0 && (2 * k) / 2 == k as int);
            assert((2 * k + 1) % 2 == 1 && (2 * k + 1) / 2 == k as int);
            assert(bytes.take(2 * (k + 1)) =~= bytes.take(2 * k) + be16(list@[k as int]));
        }
        k = k + 1;
        assert(out@ =~= old(out)@ + u16_bytes(list@).take(2 * k));
    }
    assert(u16_bytes(list@).take(2 * k) =~= u16_bytes(list@));
}

/// Appends the bytes of entries.
fn push_entries(out: &mut Vec<u8>, list: &Vec<RawExtension>)
    requires
        forall|i: int| 0 <= i < list@.len() ==> (#[trigger] list@[i]).payload@.len() <= 0xffff,
    ensures
        final(out)@ == old(out)@ + entries_bytes(extension_views(list@)),
{
    let ghost views = extension_views(list@);
    let mut k: usize = 0;
    assert(views.take(0) =~= Seq::empty());
    assert(out@ + Seq::empty() =~= out@);
    while k < list.len()
        invariant
            k <= list@.len(),
            views == extension_views(list@),
            forall|i: int| 0 <= i < list@.len() ==> (#[trigger] list@[i]).payload@.len() <= 0xffff,
            out@ == old(out)@ + entries_bytes(views.take(k as int)),
        decreases list@.len() - k,
    {
        let ghost before = out@;
        let entry = &list[k];
        push_be16(out, entry.typ);
        push_be16(out, entry.payload.len() as u16);
        out.extend_from_slice(entry.payload.as_slice());
        proof {
            assert(out@ =~= before + entry_bytes(views[k as int]));
            lemma_entries_bytes_push(views.take(k as int), views[k as int]);
            assert(views.take(k + 1) =~= views.take(k as int).push(views[k as int]));
        }
        k = k + 1;
        assert(out@ =~= old(out)@ + entries_bytes(views.take(k as int)));
    }
    assert(views.take(k as int) =~= views);
}

/// How many bytes entries take, or nothing if they cannot fit in a hello.
fn entries_len(list: &Vec<RawExtension>) -> (len: Option<usize>)
    ensures
        match len {
            Some(n) => n == entries_bytes(extension_views(list@)).len() && n <= MAX_LIST,
            None => entries_bytes(extension_views(list@)).len() > MAX_LIST,
        },
{
    let ghost views = extension_views(list@);
    let mut total: usize = 0;
    let mut k: usize = 0;
    assert(views.take(0) =~= Seq::empty());
    while k < list.len()
        invariant
            k <= list@.len(),
            views == extension_views(list@),
            total == entries_bytes(views.take(k as int)).len(),
            total <= MAX_LIST,
        decreases list@.len() - k,
    {
        let len: usize = list[k].payload.len();
        proof {
            lemma_entry_within(views, k as int);
            lemma_entries_bytes_push(views.take(k as int), views[k as int]);
            assert(views.take(k + 1) =~= views.take(k as int).push(views[k as int]));
            lemma_entries_bytes_add(views.take(k + 1), views.skip(k + 1));
            assert(views =~= views.take(k + 1) + views.skip(k + 1));
        }
        if len > MAX_LIST || total + 4 + len > MAX_LIST {
            return None;
        }
        total = total + 4 + len;
        k = k + 1;
    }
    assert(views.take(k as int) =~= views);
    Some(total)
}

/// Copies a list, with a value in front if that is wanted.
fn lead(wanted: bool, value: u16, list: &Vec<u16>) -> (out: Vec<u16>)
    ensures
        out@ == led_by(wanted, value, list@),
{
    let mut out: Vec<u16> = Vec::new();
    if wanted {
        out.push(value);
    }
    out.extend_from_slice(list.as_slice());
    assert(out@ =~= led_by(wanted, value, list@));
    out
}

/// Appends a record.
fn push_record(out: &mut Vec<u8>, fragment: &[u8])
    requires
        fragment@.len() <= MAX_FRAGMENT,
    ensures
        final(out)@ == old(out)@ + (record_header(fragment@.len()) + fragment@),
{
    out.push(0x16);
    out.push(0x03);
    out.push(0x01);
    push_be16(out, fragment.len() as u16);
    out.extend_from_slice(fragment);
    assert(out@ =~= old(out)@ + (record_header(fragment@.len()) + fragment@));
}

/// Cuts a message into records.
fn fragment(message: &[u8]) -> (stream: Vec<u8>)
    ensures
        stream@ == fragmented(message@),
{
    let n: usize = message.len();
    let mut stream: Vec<u8> = Vec::new();
    let mut at: usize = 0;
    assert(message@.skip(0) =~= message@);
    assert(stream@ + fragmented(message@) =~= fragmented(message@));
    while n - at > MAX_FRAGMENT
        invariant
            at <= n,
            n == message@.len(),
            stream@ + fragmented(message@.skip(at as int)) == fragmented(message@),
        decreases n - at,
    {
        let ghost before = stream@;
        let ghost left = message@.skip(at as int);
        let piece = slice_subrange(message, at, at + MAX_FRAGMENT);
        push_record(&mut stream, piece);
        at = at + MAX_FRAGMENT;
        proof {
            assert(piece@ =~= left.take(MAX_FRAGMENT as int));
            assert(message@.skip(at as int) =~= left.skip(MAX_FRAGMENT as int));
            assert(stream@ + fragmented(message@.skip(at as int)) =~= before + fragmented(left));
        }
    }
    if at < n {
        let piece = slice_subrange(message, at, n);
        push_record(&mut stream, piece);
        assert(piece@ =~= message@.skip(at as int));
    } else {
        assert(stream@ + fragmented(message@.skip(at as int)) =~= stream@);
    }
    stream
}

/// A hello that is ready to be sent.
#[derive(Debug)]
pub struct ShapedHello {
    random: [u8; 32],
    session_id: Vec<u8>,
    cipher_suites: Vec<u16>,
    extensions: Vec<RawExtension>,
}

impl View for ShapedHello {
    type V = HelloModel;

    closed spec fn view(&self) -> HelloModel {
        HelloModel {
            random: self.random@,
            session_id: self.session_id@,
            cipher_suites: self.cipher_suites@,
            extensions: extension_views(self.extensions@),
        }
    }
}

impl ShapedHello {
    #[verifier::type_invariant]
    spec fn inv(self) -> bool {
        self@.fits()
    }

    /// The same hello with another session ID.
    pub fn with_session_id(self, session_id: &[u8; 32]) -> (hello: Self)
        ensures
            hello@ == (HelloModel { session_id: session_id@, ..self@ }),
    {
        proof {
            use_type_invariant(&self);
        }
        let mut id: Vec<u8> = Vec::new();
        id.extend_from_slice(session_id);
        assert(id@ =~= session_id@);
        ShapedHello {
            random: self.random,
            session_id: id,
            cipher_suites: self.cipher_suites,
            extensions: self.extensions,
        }
    }

    /// Writes version, random value and session ID.
    fn opening(&self) -> (out: Vec<u8>)
        ensures
            out@ == self@.fields().opening(),
    {
        let mut out: Vec<u8> = Vec::new();
        out.push(0x03);
        out.push(0x03);
        out.extend_from_slice(&self.random);
        out.push(self.session_id.len() as u8);
        out.extend_from_slice(self.session_id.as_slice());
        assert(out@ =~= self@.fields().opening());
        out
    }

    /// Writes the cipher suites and the compression methods.
    fn suites_field(&self) -> (out: Vec<u8>)
        ensures
            out@ == self@.fields().suites_field(),
    {
        proof {
            use_type_invariant(self);
        }
        let mut out: Vec<u8> = Vec::new();
        push_be16(&mut out, (2 * self.cipher_suites.len()) as u16);
        push_u16s(&mut out, &self.cipher_suites);
        out.push(0x01);
        out.push(0x00);
        assert(out@ =~= self@.fields().suites_field());
        out
    }

    /// Writes the extensions.
    fn extensions_field(&self) -> (out: Vec<u8>)
        ensures
            out@ == self@.fields().extensions_field(),
    {
        proof {
            use_type_invariant(self);
            assert forall|i: int| 0 <= i < self.extensions@.len() implies (
            #[trigger] self.extensions@[i]).payload@.len() <= 0xffff by {
                lemma_entry_within(self@.extensions, i);
                assert(self@.extensions[i] == self.extensions@[i]@);
            }
        }
        let mut list: Vec<u8> = Vec::new();
        push_entries(&mut list, &self.extensions);
        assert(list@ =~= entries_bytes(self@.extensions));
        let mut out: Vec<u8> = Vec::new();
        push_be16(&mut out, list.len() as u16);
        out.extend_from_slice(list.as_slice());
        assert(out@ =~= self@.fields().extensions_field());
        out
    }

    /// The body of the handshake message.
    pub fn body(&self) -> (body: Vec<u8>)
        ensures
            body@ == self@.body(),
            body@.len() == self@.body_len(),
            self@.fits(),
    {
        proof {
            use_type_invariant(self);
        }
        let mut body = self.opening();
        let suites = self.suites_field();
        let extensions = self.extensions_field();
        body.extend_from_slice(suites.as_slice());
        body.extend_from_slice(extensions.as_slice());
        assert(body@ =~= self@.fields().opening() + suites@ + extensions@);
        assert(body@.len() == self@.body_len()) by {
            lemma_body_len(self@);
        }
        body
    }

    /// The handshake message.
    pub fn message(&self) -> (message: Vec<u8>)
        ensures
            message@ == self@.message(),
            message@.len() == 4 + self@.body_len(),
            self@.fits(),
    {
        let body = self.body();
        let n: usize = body.len();
        let mut message: Vec<u8> = Vec::new();
        message.push(CLIENT_HELLO);
        message.push((n / 0x1_0000) as u8);
        message.push((n / 0x100 % 0x100) as u8);
        message.push((n % 0x100) as u8);
        message.extend_from_slice(body.as_slice());
        assert(message@ =~= self@.message());
        message
    }

    /// The records that carry the hello: one, unless the hello is too long for one.
    pub fn records(&self) -> (stream: Vec<u8>)
        ensures
            stream@ == self@.records(),
            payloads(stream@) == Some(self@.message()),
            self@.body_len() <= MAX_BODY ==> wire_hello(stream@) == Some(
                WireModel {
                    body: self@.body(),
                    cipher_suites: self@.cipher_suites,
                    extensions: self@.extensions,
                },
            ),
    {
        proof {
            use_type_invariant(self);
            records_round_trip(self@.message());
            if self@.body_len() <= MAX_BODY {
                hello_round_trip(self@);
            }
        }
        fragment(self.message().as_slice())
    }
}

impl ClientHelloProfile {
    /// Shapes an offer into the hello that goes on the wire, or says that a list in
    /// it is too long for its length field.
    ///
    /// The GREASE values are used only if the profile asks for GREASE.
    #[verifier::rlimit(30)]
    #[verifier::spinoff_prover]
    pub fn shape(&self, grease: &Grease, offer: &HelloOffer) -> (r: Option<ShapedHello>)
        ensures
            r is Some <==> writable(self@, *grease, offer@),
            r matches Some(hello) ==> hello@ == shaped(self@, *grease, offer@),
    {
        proof {
            lemma_shaped_len(self@, *grease, offer@);
            lemma_generated_within(self@, *grease, offer@);
        }
        if offer.session_id.len() > MAX_SESSION_ID {
            return None;
        }
        // Cipher suites.
        let cipher_suites = match &self.cipher_suites {
            Some(list) => lead(self.grease, grease.cipher_suite, list),
            None => {
                let mut list = lead(self.grease, grease.cipher_suite, &offer.cipher_suites);
                if offer.tls12 {
                    list.push(EMPTY_RENEGOTIATION_INFO_SCSV);
                }
                list
            },
        };
        assert(cipher_suites@ =~= shaped_suites(self@, *grease, offer@));
        if cipher_suites.len() > MAX_LIST / 2 {
            return None;
        }
        // The three extensions that hold lists of their own.
        let ghost made = generated(self@, *grease, offer@);
        let groups = lead(self.grease, grease.named_group, &offer.named_groups);
        if groups.len() > MAX_LIST / 2 {
            assert(made[0].1.len() == 2 + 2 * groups@.len());
            return None;
        }
        let mut groups_body: Vec<u8> = Vec::new();
        push_be16(&mut groups_body, (2 * groups.len()) as u16);
        push_u16s(&mut groups_body, &groups);
        assert(groups_body@ =~= made[0].1);

        let versions = lead(self.grease, grease.version, &offer.versions);
        if versions.len() > MAX_VERSIONS {
            return None;
        }
        let mut versions_body: Vec<u8> = Vec::new();
        versions_body.push((2 * versions.len()) as u8);
        push_u16s(&mut versions_body, &versions);
        assert(versions_body@ =~= made[1].1);

        let mut shares: Vec<RawExtension> = Vec::new();
        if self.grease {
            let mut payload: Vec<u8> = Vec::new();
            payload.extend_from_slice(&Grease::KEY_SHARE_PAYLOAD);
            assert(payload@ =~= Grease::KEY_SHARE_PAYLOAD@);
            shares.push(RawExtension { typ: grease.named_group, payload });
        }
        extend_extensions(&mut shares, &offer.key_shares);
        assert(extension_views(shares@) =~= shaped_shares(self@, *grease, offer@));
        let shares_len: usize = match entries_len(&shares) {
            Some(n) => n,
            None => {
                assert(made[2].1.len() > MAX_LIST);
                return None;
            },
        };
        proof {
            assert forall|i: int| 0 <= i < shares@.len() implies (
            #[trigger] shares@[i]).payload@.len() <= 0xffff by {
                lemma_entry_within(extension_views(shares@), i);
                assert(extension_views(shares@)[i] == shares@[i]@);
            }
        }
        let mut shares_body: Vec<u8> = Vec::new();
        push_be16(&mut shares_body, shares_len as u16);
        push_entries(&mut shares_body, &shares);
        assert(shares_body@ =~= made[2].1);

        // The extension list, up to the padding.
        let mut extensions: Vec<RawExtension> = Vec::new();
        if self.grease {
            extensions.push(RawExtension::empty(grease.first_extension));
        }
        let ghost first = extension_views(extensions@);
        extend_extensions(&mut extensions, &self.prepend_extensions);
        let ghost prepended = extension_views(extensions@);
        extensions.push(RawExtension { typ: SUPPORTED_GROUPS, payload: groups_body });
        extensions.push(RawExtension { typ: SUPPORTED_VERSIONS, payload: versions_body });
        extensions.push(RawExtension { typ: KEY_SHARE, payload: shares_body });
        assert(extension_views(extensions@) =~= prepended + made.take(3));
        extend_extensions(&mut extensions, &offer.extensions);
        assert(made.take(3) + offer@.extensions =~= made);
        assert(extension_views(extensions@) =~= prepended + made);
        extend_extensions(&mut extensions, &self.append_extensions);
        let ghost middle = extension_views(extensions@);
        assert(middle =~= first + (self@.prepend_extensions + made + self@.append_extensions));
        if self.grease {
            let mut payload: Vec<u8> = Vec::new();
            payload.extend_from_slice(&Grease::LAST_EXTENSION_PAYLOAD);
            assert(payload@ =~= Grease::LAST_EXTENSION_PAYLOAD@);
            let ghost last = (grease.last_extension, payload@);
            extensions.push(RawExtension { typ: grease.last_extension, payload });
            assert(extension_views(extensions@) =~= middle + seq![last]);
            assert(first =~= seq![(grease.first_extension, Seq::<u8>::empty())]);
        }
        let ghost front = leading(self@, *grease, offer@);
        assert(extension_views(extensions@) =~= front);

        // Padding is measured when everything else is in place.
        let front_len: usize = match entries_len(&extensions) {
            Some(n) => n,
            None => {
                return None;
            },
        };
        let trailing_len: usize = match entries_len(&offer.trailing) {
            Some(n) => n,
            None => {
                proof {
                    lemma_entries_bytes_add(front, offer@.trailing);
                }
                return None;
            },
        };
        proof {
            lemma_entries_bytes_add(front, offer@.trailing);
        }
        let hello_len: usize = 41 + offer.session_id.len() + 2 * cipher_suites.len() + front_len
            + trailing_len;
        assert(hello_len == unpadded(self@, *grease, offer@).body_len());
        if front_len + trailing_len > MAX_LIST {
            return None;
        }
        match &self.padding {
            Some(rule) => match rule.body_len(hello_len) {
                Some(n) => {
                    proof {
                        lemma_one_entry((PADDING, Seq::new(n as nat, |i: int| 0u8)));
                    }
                    if n > MAX_LIST || front_len + trailing_len + 4 + n > MAX_LIST {
                        return None;
                    }
                    let mut payload: Vec<u8> = Vec::new();
                    payload.resize(n, 0);
                    assert(payload@ =~= Seq::new(n as nat, |i: int| 0u8));
                    extensions.push(RawExtension { typ: PADDING, payload });
                },
                None => {},
            },
            None => {},
        }
        assert(extension_views(extensions@) =~= front + padding_extensions(
            self@.padding,
            hello_len as nat,
        ));
        extend_extensions(&mut extensions, &offer.trailing);
        let mut session_id: Vec<u8> = Vec::new();
        session_id.extend_from_slice(offer.session_id.as_slice());
        assert(session_id@ =~= offer.session_id@);
        assert(extension_views(extensions@) =~= shaped(self@, *grease, offer@).extensions);
        Some(ShapedHello { random: offer.random, session_id, cipher_suites, extensions })
    }
}

/// The view of an offer leaves out nothing.
pub proof fn offers_are_seen_whole(offer: HelloOffer)
    ensures
        offer@.random == offer.random@,
        offer@.session_id == offer.session_id@,
        offer@.cipher_suites == offer.cipher_suites@,
        offer@.tls12 == offer.tls12,
        offer@.named_groups == offer.named_groups@,
        offer@.versions == offer.versions@,
        offer@.key_shares == extension_views(offer.key_shares@),
        offer@.extensions == extension_views(offer.extensions@),
        offer@.trailing == extension_views(offer.trailing@),
{
}

/// A list of 16-bit numbers is written in order, two bytes each, the more significant
/// one first.
pub proof fn numbers_are_written_in_order(list: Seq<u16>, k: int)
    requires
        0 <= k < list.len(),
    ensures
        u16_bytes(list).len() == 2 * list.len(),
        256 * u16_bytes(list)[2 * k] + u16_bytes(list)[2 * k + 1] == list[k],
{
    assert((2 * k) % 2 == 0 && (2 * k) / 2 == k);
    assert((2 * k + 1) % 2 == 1 && (2 * k + 1) / 2 == k);
}

/// A list of entries is written in order: each entry as its number, the length of its
/// body and its whole body, with nothing between two entries.
pub proof fn entries_are_written_in_order(
    before: Seq<(u16, Seq<u8>)>,
    entry: (u16, Seq<u8>),
    after: Seq<(u16, Seq<u8>)>,
)
    requires
        entry.1.len() <= 0xffff,
    ensures
        ({
            let bytes = entries_bytes(before + seq![entry] + after);
            let at = entries_bytes(before).len() as int;
            let end = at + 4 + entry.1.len();
            &&& bytes.len() == end + entries_bytes(after).len()
            &&& bytes.take(at) == entries_bytes(before)
            &&& 256 * bytes[at] + bytes[at + 1] == entry.0
            &&& 256 * bytes[at + 2] + bytes[at + 3] == entry.1.len()
            &&& bytes.subrange(at + 4, end) == entry.1
            &&& bytes.skip(end) == entries_bytes(after)
            &&& entries_bytes(Seq::empty()).len() == 0
        }),
{
    let bytes = entries_bytes(before + seq![entry] + after);
    let at = entries_bytes(before).len() as int;
    let end = at + 4 + entry.1.len();
    let one = entries_bytes(seq![entry]);
    lemma_entries_bytes_add(before, seq![entry]);
    lemma_entries_bytes_add(before + seq![entry], after);
    reveal_with_fuel(entries_bytes, 2);
    assert(seq![entry].drop_first() =~= Seq::empty());
    assert(one =~= entry_bytes(entry));
    assert(bytes =~= entries_bytes(before) + one + entries_bytes(after));
    lemma_part(entries_bytes(before), one, entries_bytes(after));
    assert(bytes[at] == one[0] && bytes[at + 1] == one[1]);
    assert(bytes[at + 2] == one[2] && bytes[at + 3] == one[3]);
    assert(bytes.take(at) =~= entries_bytes(before));
    assert(one.subrange(4, one.len() as int) =~= entry.1);
    assert(bytes.subrange(at + 4, end) =~= one.subrange(4, one.len() as int));
}

/// The body field by field: 03 03, the random value, the session ID behind its length, the
/// cipher suites behind theirs, the null compression method, and the extensions behind
/// theirs, to the end.
#[verifier::rlimit(30)]
#[verifier::spinoff_prover]
pub proof fn a_body_is_written_field_by_field(hello: HelloModel)
    requires
        hello.random.len() == 32,
        hello.session_id.len() <= 32,
        2 * hello.cipher_suites.len() <= 0xffff,
        entries_bytes(hello.extensions).len() <= 0xffff,
    ensures
        ({
            let body = hello.body();
            let suites = 35 + hello.session_id.len() as int;
            let methods = suites + 2 + 2 * hello.cipher_suites.len();
            &&& body.len() == methods + 4 + entries_bytes(hello.extensions).len()
            &&& body[0] == 0x03 && body[1] == 0x03
            &&& body.subrange(2, 34) == hello.random
            &&& body[34] == hello.session_id.len()
            &&& body.subrange(35, suites) == hello.session_id
            &&& 256 * body[suites] + body[suites + 1] == 2 * hello.cipher_suites.len()
            &&& body.subrange(suites + 2, methods) == u16_bytes(hello.cipher_suites)
            &&& body[methods] == 1 && body[methods + 1] == 0
            &&& 256 * body[methods + 2] + body[methods + 3] == entries_bytes(
                hello.extensions,
            ).len()
            &&& body.skip(methods + 4) == entries_bytes(hello.extensions)
            &&& hello.body_len() == body.len()
        }),
{
    let fields = hello.fields();
    let body = hello.body();
    let opening = fields.opening();
    let middle = fields.suites_field();
    let closing = fields.extensions_field();
    let suites = 35 + hello.session_id.len() as int;
    let methods = suites + 2 + 2 * hello.cipher_suites.len();
    let numbers = u16_bytes(hello.cipher_suites);
    lemma_body_len(hello);
    assert(opening.len() == suites);
    assert(opening.subrange(2, 34) =~= hello.random);
    assert(opening.subrange(35, suites) =~= hello.session_id);
    assert(middle.len() == 4 + numbers.len());
    assert(middle.subrange(2, 2 + numbers.len() as int) =~= numbers);
    assert(closing.skip(2) =~= entries_bytes(hello.extensions));
    lemma_part(Seq::empty(), opening, middle + closing);
    assert(body =~= Seq::empty() + opening + (middle + closing));
    assert(body.subrange(2, 34) =~= opening.subrange(2, 34));
    assert(body.subrange(35, suites) =~= opening.subrange(35, suites));
    assert(body[0] == opening[0] && body[1] == opening[1] && body[34] == opening[34]);
    lemma_part(opening, middle, closing);
    assert(body[suites] == middle[0] && body[suites + 1] == middle[1]);
    assert(body.subrange(suites + 2, methods) =~= middle.subrange(2, 2 + numbers.len() as int));
    assert(body[methods] == middle[2 + numbers.len() as int]);
    assert(body[methods + 1] == middle[3 + numbers.len() as int]);
    assert(body[methods + 2] == closing[0] && body[methods + 3] == closing[1]);
    assert(body.skip(methods + 4) =~= closing.skip(2));
}

/// A handshake message is the type of a `ClientHello`, three bytes of length, and the
/// whole body. The random value stands in it from the sixth byte on.
pub proof fn a_message_is_a_header_and_the_body(hello: HelloModel)
    requires
        hello.random.len() == 32,
        hello.session_id.len() <= 32,
        2 * hello.cipher_suites.len() <= 0xffff,
        entries_bytes(hello.extensions).len() <= 0xffff,
    ensures
        ({
            let message = hello.message();
            &&& message.len() == 4 + hello.body().len()
            &&& message[0] == 1
            &&& 0x1_0000 * message[1] + 256 * message[2] + message[3] == hello.body().len()
            &&& message.skip(4) == hello.body()
            &&& message.subrange(6, 38) == hello.random
            &&& message[38] == hello.session_id.len()
            &&& message.subrange(39, 39 + hello.session_id.len() as int) == hello.session_id
            &&& hello.records() == fragmented(message)
        }),
{
    let n = hello.session_id.len() as int;
    a_body_is_written_field_by_field(hello);
    lemma_message_of(hello.body(), n);
}

proof fn lemma_message_of(body: Seq<u8>, n: int)
    requires
        0 <= n,
        35 + n <= body.len() < 0x100_0000,
    ensures
        handshake_message(body).len() == 4 + body.len(),
        handshake_message(body)[0] == 1,
        0x1_0000 * handshake_message(body)[1] + 256 * handshake_message(body)[2]
            + handshake_message(body)[3] == body.len(),
        handshake_message(body).skip(4) == body,
        handshake_message(body).subrange(6, 38) == body.subrange(2, 34),
        handshake_message(body)[38] == body[34],
        handshake_message(body).subrange(39, 39 + n) == body.subrange(35, 35 + n),
{
    let message = handshake_message(body);
    assert(message.skip(4) =~= body);
    assert(message.subrange(6, 38) =~= body.subrange(2, 34));
    assert(message.subrange(39, 39 + n) =~= body.subrange(35, 35 + n));
}

/// A message goes out in records of up to 16384 bytes, each full but for the last, with
/// 16 03 01 and the length in front.
pub proof fn records_are_as_full_as_they_can_be(message: Seq<u8>)
    ensures
        ({
            let stream = fragmented(message);
            let n: int = if message.len() <= 16384 {
                message.len() as int
            } else {
                16384
            };
            &&& message.len() == 0 ==> stream.len() == 0
            &&& message.len() > 0 ==> {
                &&& stream[0] == 0x16 && stream[1] == 0x03 && stream[2] == 0x01
                &&& 256 * stream[3] + stream[4] == n
                &&& stream.subrange(5, 5 + n) == message.take(n)
                &&& stream.skip(5 + n) == fragmented(message.skip(n))
            }
        }),
{
    let stream = fragmented(message);
    if message.len() > 0 {
        let n: int = if message.len() <= 16384 {
            message.len() as int
        } else {
            16384
        };
        let rest = message.skip(n);
        assert(stream =~= record_header(n as nat) + message.take(n) + fragmented(rest));
        assert(stream.subrange(5, 5 + n) =~= message.take(n));
        assert(stream.skip(5 + n) =~= fragmented(rest));
        assert(stream[3] == be16(n as u16)[0] && stream[4] == be16(n as u16)[1]);
    }
}

/// A hello is refused only where a length cannot be announced: the session ID has more than
/// 32 bytes, the versions are more than 127, or the cipher suites or the extensions take
/// more than 65535 bytes.
pub proof fn a_hello_is_refused_for_its_lengths_alone(
    profile: ProfileModel,
    grease: Grease,
    offer: OfferModel,
)
    ensures
        ({
            let hello = shaped(profile, grease, offer);
            writable(profile, grease, offer) <==> {
                &&& hello.random.len() == 32
                &&& hello.session_id.len() <= 32
                &&& 2 * hello.cipher_suites.len() <= 65535
                &&& entries_bytes(hello.extensions).len() <= 65535
                &&& offer.versions.len() + (if profile.grease {
                    1int
                } else {
                    0int
                }) <= 127
            }
        }),
{
}

} // verus!
