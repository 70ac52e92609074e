//! Reading a `ClientHello` back from the bytes that went on the wire.
//!
//! What is read here is what left, not what was meant: GREASE values and unknown
//! extensions are kept, and so is the order of everything.

use vstd::prelude::*;
use vstd::slice::{slice_subrange, slice_to_vec};

use crate::bytes::{read16, read24, read_be16};

verus! {

/// Handshake message type of a `ClientHello`.
pub const CLIENT_HELLO: u8 = 0x01;

/// Extension type of the supported groups.
pub const SUPPORTED_GROUPS: u16 = 10;

/// Extension type of the supported versions.
pub const SUPPORTED_VERSIONS: u16 = 43;

/// Extension type of the key shares.
pub const KEY_SHARE: u16 = 51;

/// The 16-bit numbers that a sequence of bytes spells; an odd last byte is dropped.
pub open spec fn u16s(s: Seq<u8>) -> Seq<u16> {
    Seq::new(s.len() / 2, |i: int| read16(s, 2 * i))
}

/// The entries that a sequence of bytes is made of, each a 16-bit number, a
/// 16-bit length and a body of that length.
pub open spec fn entries(s: Seq<u8>) -> Option<Seq<(u16, Seq<u8>)>>
    decreases s.len(),
{
    if s.len() == 0 {
        Some(Seq::empty())
    } else if s.len() < 4 || s.len() < 4 + read16(s, 2) {
        None
    } else {
        let end = 4 + read16(s, 2);
        match entries(s.skip(end)) {
            Some(rest) => Some(seq![(read16(s, 0), s.subrange(4, end))] + rest),
            None => None,
        }
    }
}

/// The body of the first entry with this number.
pub open spec fn find_entry(list: Seq<(u16, Seq<u8>)>, typ: u16) -> Option<Seq<u8>>
    decreases list.len(),
{
    if list.len() == 0 {
        None
    } else if list[0].0 == typ {
        Some(list[0].1)
    } else {
        find_entry(list.drop_first(), typ)
    }
}

/// The key shares in a key_share extension: the entries behind its length field.
pub open spec fn share_entries(body: Seq<u8>) -> Option<Seq<(u16, Seq<u8>)>> {
    if body.len() < 2 {
        Some(Seq::empty())
    } else {
        entries(body.skip(2))
    }
}

/// What a list of pairs holds.
pub open spec fn pairs(list: Seq<(u16, Vec<u8>)>) -> Seq<(u16, Seq<u8>)> {
    Seq::new(list.len(), |i: int| (list[i].0, list[i].1@))
}

/// The body of the handshake message in a record, if that is a whole `ClientHello`.
pub open spec fn hello_body(record: Seq<u8>) -> Option<Seq<u8>> {
    if record.len() < 5 {
        None
    } else {
        let end = 5 + read16(record, 3);
        if record.len() < end || end < 9 || record[5] != CLIENT_HELLO || end < 9 + read24(
            record,
            6,
        ) {
            None
        } else {
            Some(record.subrange(9, 9 + read24(record, 6)))
        }
    }
}

/// What a stream of records carries, put together.
pub open spec fn payloads(stream: Seq<u8>) -> Option<Seq<u8>>
    decreases stream.len(),
{
    if stream.len() == 0 {
        Some(Seq::empty())
    } else if stream.len() < 5 || stream.len() < 5 + read16(stream, 3) {
        None
    } else {
        let end = 5 + read16(stream, 3);
        match payloads(stream.skip(end)) {
            Some(rest) => Some(stream.subrange(5, end) + rest),
            None => None,
        }
    }
}

/// Where the length of the cipher suite list stands: behind version, random value
/// and session ID.
pub open spec fn suites_at(body: Seq<u8>) -> int {
    35 + body[34]
}

/// Where the cipher suite list ends.
pub open spec fn suites_end(body: Seq<u8>) -> int {
    suites_at(body) + 2 + read16(body, suites_at(body))
}

/// Where the length of the extension list stands: behind the compression methods.
pub open spec fn extensions_at(body: Seq<u8>) -> int {
    suites_end(body) + 1 + body[suites_end(body)]
}

/// Every length field agrees with the body, and the extension list ends it.
pub open spec fn laid_out(body: Seq<u8>) -> bool {
    &&& 34 < body.len()
    &&& suites_at(body) + 2 <= body.len()
    &&& suites_end(body) < body.len()
    &&& extensions_at(body) + 2 <= body.len()
    &&& extensions_at(body) + 2 + read16(body, extensions_at(body)) == body.len()
}

/// What a `ClientHello` record says.
pub struct WireModel {
    /// The handshake message body.
    pub body: Seq<u8>,
    /// The cipher suites, in order.
    pub cipher_suites: Seq<u16>,
    /// The extensions, in order.
    pub extensions: Seq<(u16, Seq<u8>)>,
}

/// What a record says, if it is a `ClientHello` whose length fields all agree.
pub open spec fn wire_hello(record: Seq<u8>) -> Option<WireModel> {
    match hello_body(record) {
        Some(body) => if laid_out(body) {
            match entries(body.skip(extensions_at(body) + 2)) {
                Some(extensions) => Some(
                    WireModel {
                        body,
                        cipher_suites: u16s(body.subrange(suites_at(body) + 2, suites_end(body))),
                        extensions,
                    },
                ),
                None => None,
            }
        } else {
            None
        },
        None => None,
    }
}

/// Reads 16-bit numbers.
fn read_u16s(data: &[u8]) -> (list: Vec<u16>)
    ensures
        list@ == u16s(data@),
{
    let len: usize = data.len();
    let n: usize = len / 2;
    let mut list: Vec<u16> = Vec::new();
    let mut k: usize = 0;
    while k < n
        invariant
            k <= n,
            n == len / 2,
            len == data@.len(),
            list@.len() == k,
            forall|m: int| 0 <= m < k ==> list@[m] == read16(data@, 2 * m),
        decreases n - k,
    {
        list.push(read_be16(data, 2 * k));
        k = k + 1;
    }
    assert(list@ =~= u16s(data@));
    list
}

/// Reads entries.
fn read_entries(data: &[u8]) -> (r: Option<Vec<(u16, Vec<u8>)>>)
    ensures
        match r {
            Some(list) => entries(data@) == Some(pairs(list@)),
            None => entries(data@) is None,
        },
{
    let n: usize = data.len();
    let mut list: Vec<(u16, Vec<u8>)> = Vec::new();
    let mut at: usize = 0;
    assert(data@.skip(0) =~= data@);
    assert(entries(data@) matches Some(rest) ==> pairs(list@) + rest =~= rest);
    while at < n
        invariant
            at <= n,
            n == data@.len(),
            entries(data@) == (match entries(data@.skip(at as int)) {
                Some(rest) => Some(pairs(list@) + rest),
                None => None,
            }),
        decreases n - at,
    {
        let ghost here = data@.skip(at as int);
        let ghost before = list@;
        if n - at < 4 {
            return None;
        }
        let typ: u16 = read_be16(data, at);
        let len: usize = read_be16(data, at + 2) as usize;
        assert(here[0] == data@[at as int] && here[1] == data@[at + 1]);
        assert(here[2] == data@[at + 2] && here[3] == data@[at + 3]);
        if n - at - 4 < len {
            return None;
        }
        let body = slice_to_vec(slice_subrange(data, at + 4, at + 4 + len));
        list.push((typ, body));
        at = at + 4 + len;
        proof {
            assert(here.skip(4 + len) =~= data@.skip(at as int));
            assert(body@ =~= here.subrange(4, 4 + len));
            match entries(data@.skip(at as int)) {
                Some(rest) => {
                    assert(pairs(list@) + rest =~= pairs(before) + (seq![(typ, body@)] + rest));
                },
                None => {},
            }
        }
    }
    assert(data@.skip(at as int) =~= Seq::empty());
    assert(pairs(list@) + Seq::empty() =~= pairs(list@));
    Some(list)
}

/// Finds the first entry with a number.
fn find_in(list: &Vec<(u16, Vec<u8>)>, typ: u16) -> (r: Option<&[u8]>)
    ensures
        match r {
            Some(body) => find_entry(pairs(list@), typ) == Some(body@),
            None => find_entry(pairs(list@), typ) is None,
        },
{
    let mut k: usize = 0;
    assert(pairs(list@).skip(0) =~= pairs(list@));
    while k < list.len()
        invariant
            k <= list@.len(),
            find_entry(pairs(list@), typ) == find_entry(pairs(list@).skip(k as int), typ),
        decreases list@.len() - k,
    {
        let ghost here = pairs(list@).skip(k as int);
        assert(here[0] == pairs(list@)[k as int]);
        if list[k].0 == typ {
            return Some(list[k].1.as_slice());
        }
        assert(here.drop_first() =~= pairs(list@).skip(k + 1));
        k = k + 1;
    }
    None
}

/// A `ClientHello` as it went on the wire.
pub struct WireClientHello {
    /// Handshake message body, without the four byte header.
    pub body: Vec<u8>,
    /// Cipher suites in the order they were written.
    pub cipher_suites: Vec<u16>,
    /// Extensions in the order they were written, unknown ones too.
    pub extensions: Vec<(u16, Vec<u8>)>,
}

impl View for WireClientHello {
    type V = WireModel;

    open spec fn view(&self) -> WireModel {
        WireModel {
            body: self.body@,
            cipher_suites: self.cipher_suites@,
            extensions: pairs(self.extensions@),
        }
    }
}

impl WireClientHello {
    /// Reads a record, or says that it is no `ClientHello` whose length fields all agree.
    pub fn try_parse(record: &[u8]) -> (r: Option<Self>)
        ensures
            match r {
                Some(hello) => wire_hello(record@) == Some(hello@),
                None => wire_hello(record@) is None,
            },
    {
        let n: usize = record.len();
        if n < 5 {
            return None;
        }
        let record_end: usize = 5 + read_be16(record, 3) as usize;
        if n < record_end || record_end < 9 || record[5] != CLIENT_HELLO {
            return None;
        }
        let hs_len: usize = record[6] as usize * 0x1_0000 + record[7] as usize * 0x100
            + record[8] as usize;
        if record_end < 9 + hs_len {
            return None;
        }
        let body = slice_subrange(record, 9, 9 + hs_len);
        let len: usize = body.len();
        if len <= 34 {
            return None;
        }
        let suites: usize = 35 + body[34] as usize;
        if len < suites + 2 {
            return None;
        }
        let suites_stop: usize = suites + 2 + read_be16(body, suites) as usize;
        if len <= suites_stop {
            return None;
        }
        let exts: usize = suites_stop + 1 + body[suites_stop] as usize;
        if len < exts + 2 || exts + 2 + read_be16(body, exts) as usize != len {
            return None;
        }
        let cipher_suites = read_u16s(slice_subrange(body, suites + 2, suites_stop));
        let rest = slice_subrange(body, exts + 2, len);
        assert(rest@ =~= body@.skip(exts + 2));
        match read_entries(rest) {
            Some(extensions) => {
                Some(WireClientHello { body: slice_to_vec(body), cipher_suites, extensions })
            },
            None => None,
        }
    }

    /// Reads a record that is a `ClientHello`.
    pub fn parse(record: &[u8]) -> (hello: Self)
        requires
            wire_hello(record@) is Some,
        ensures
            wire_hello(record@) == Some(hello@),
    {
        WireClientHello::try_parse(record).unwrap()
    }

    /// The types of the extensions, in order.
    pub fn extension_types(&self) -> (types: Vec<u16>)
        ensures
            types@ == self@.extensions.map_values(|e: (u16, Seq<u8>)| e.0),
    {
        let mut types: Vec<u16> = Vec::new();
        let mut k: usize = 0;
        while k < self.extensions.len()
            invariant
                k <= self.extensions@.len(),
                types@.len() == k,
                forall|m: int| 0 <= m < k ==> types@[m] == self.extensions@[m].0,
            decreases self.extensions@.len() - k,
        {
            types.push(self.extensions[k].0);
            k = k + 1;
        }
        assert(types@ =~= self@.extensions.map_values(|e: (u16, Seq<u8>)| e.0));
        types
    }

    /// The body of the first extension of a type.
    pub fn extension(&self, typ: u16) -> (r: Option<&[u8]>)
        ensures
            match r {
                Some(body) => find_entry(self@.extensions, typ) == Some(body@),
                None => find_entry(self@.extensions, typ) is None,
            },
    {
        find_in(&self.extensions, typ)
    }

    /// supported_groups: a 16-bit length, then 16-bit group ids.
    pub fn named_groups(&self) -> (groups: Vec<u16>)
        requires
            find_entry(self@.extensions, SUPPORTED_GROUPS) matches Some(body) && body.len() >= 2,
        ensures
            find_entry(self@.extensions, SUPPORTED_GROUPS) matches Some(body) && groups@ == u16s(
                body.skip(2),
            ),
    {
        let body = self.extension(SUPPORTED_GROUPS).unwrap();
        let rest = slice_subrange(body, 2, body.len());
        assert(rest@ =~= body@.skip(2));
        read_u16s(rest)
    }

    /// key_share: a 16-bit length, then entries of group, 16-bit length, body.
    pub fn key_shares(&self) -> (shares: Vec<(u16, Vec<u8>)>)
        requires
            find_entry(self@.extensions, KEY_SHARE) matches Some(body) && share_entries(
                body,
            ) is Some,
        ensures
            find_entry(self@.extensions, KEY_SHARE) matches Some(body) && share_entries(body)
                == Some(pairs(shares@)),
    {
        let body = self.extension(KEY_SHARE).unwrap();
        if body.len() < 2 {
            let shares: Vec<(u16, Vec<u8>)> = Vec::new();
            assert(pairs(shares@) =~= Seq::empty());
            return shares;
        }
        let rest = slice_subrange(body, 2, body.len());
        assert(rest@ =~= body@.skip(2));
        read_entries(rest).unwrap()
    }

    /// supported_versions: an 8-bit length, then 16-bit versions.
    pub fn versions(&self) -> (versions: Vec<u16>)
        requires
            find_entry(self@.extensions, SUPPORTED_VERSIONS) matches Some(body) && body.len() >= 1,
        ensures
            find_entry(self@.extensions, SUPPORTED_VERSIONS) matches Some(body) && versions@
                == u16s(body.skip(1)),
    {
        let body = self.extension(SUPPORTED_VERSIONS).unwrap();
        let rest = slice_subrange(body, 1, body.len());
        assert(rest@ =~= body@.skip(1));
        read_u16s(rest)
    }
}

/// The view of a hello that was read leaves out nothing.
pub proof fn hellos_are_seen_whole(hello: WireClientHello, i: int)
    ensures
        hello@.body == hello.body@,
        hello@.cipher_suites == hello.cipher_suites@,
        hello@.extensions.len() == hello.extensions@.len(),
        0 <= i < hello.extensions@.len() ==> hello@.extensions[i].0 == hello.extensions@[i].0
            && hello@.extensions[i].1 == hello.extensions@[i].1@,
{
}

/// Numbers are read in order, two bytes each, the more significant one first; only an odd
/// last byte is left over.
pub proof fn numbers_are_read_in_order(s: Seq<u8>, k: int)
    requires
        0 <= k,
        2 * k + 1 < s.len(),
    ensures
        u16s(s).len() == s.len() as int / 2,
        u16s(s)[k] == 256 * s[2 * k] + s[2 * k + 1],
{
}

/// Entries are read in order: a number, the length of the body, the whole body, and then
/// the next entry. What ends inside an entry is not read at all.
pub proof fn entries_are_read_in_order(s: Seq<u8>)
    ensures
        s.len() == 0 ==> entries(s) == Some(Seq::<(u16, Seq<u8>)>::empty()),
        0 < s.len() < 4 ==> entries(s) is None,
        s.len() >= 4 ==> {
            let end = 4 + 256 * s[2] + s[3];
            &&& s.len() < end ==> entries(s) is None
            &&& end <= s.len() && entries(s.skip(end)) is None ==> entries(s) is None
            &&& end <= s.len() ==> (entries(s.skip(end)) matches Some(rest) ==> {
                &&& entries(s) matches Some(list)
                &&& list.len() == rest.len() + 1
                &&& list[0].0 == 256 * s[0] + s[1]
                &&& list[0].1 == s.subrange(4, end)
                &&& list.drop_first() == rest
            })
        },
{
    if s.len() >= 4 {
        let end = 4 + 256 * s[2] + s[3];
        if end <= s.len() {
            match entries(s.skip(end)) {
                Some(rest) => {
                    assert((entries(s)->0).drop_first() =~= rest);
                },
                None => {},
            }
        }
    }
}

/// The first entry of a type is found: none of that type comes before it, and where none is
/// found there is none.
pub proof fn the_first_of_a_type_is_found(list: Seq<(u16, Seq<u8>)>, i: int, typ: u16)
    requires
        0 <= i <= list.len(),
        forall|k: int| 0 <= k < i ==> (#[trigger] list[k]).0 != typ,
    ensures
        i < list.len() && list[i].0 == typ ==> find_entry(list, typ) == Some(list[i].1),
        i == list.len() ==> find_entry(list, typ) is None,
    decreases list.len(),
{
    if i > 0 {
        assert(list[0].0 != typ);
        assert forall|k: int| 0 <= k < i - 1 implies (#[trigger] list.drop_first()[k]).0
            != typ by {
            assert(list.drop_first()[k] == list[k + 1]);
        }
        the_first_of_a_type_is_found(list.drop_first(), i - 1, typ);
    }
}

/// Key shares are the entries behind the two bytes of length; where those are not whole
/// there are none.
pub proof fn key_shares_stand_behind_their_length(length: Seq<u8>, rest: Seq<u8>)
    ensures
        length.len() == 2 ==> share_entries(length + rest) == entries(rest),
        length.len() < 2 ==> share_entries(length) == Some(Seq::<(u16, Seq<u8>)>::empty()),
{
    if length.len() == 2 {
        assert((length + rest).skip(2) =~= rest);
    }
}

/// A record is read by its length fields. Bytes 3 and 4 say how long it is and it must be
/// there whole; byte 5 says that it is a `ClientHello`; bytes 6 to 8 say how long the body is
/// that follows. In the body the session ID, the cipher suites, the compression methods and
/// the extensions stand behind their lengths, and the extensions end it.
pub proof fn a_record_is_read_by_its_length_fields(record: Seq<u8>)
    ensures
        wire_hello(record) matches Some(hello) ==> {
            let n = 256 * record[3] + record[4];
            let h = 0x1_0000 * record[6] + 256 * record[7] + record[8];
            let b = hello.body;
            let suites = 35 + b[34] as int;
            let methods = suites + 2 + 256 * b[suites] + b[suites + 1];
            let exts = methods + 1 + b[methods];
            &&& record.len() >= 5 + n
            &&& n >= 4 + h
            &&& record[5] == 1
            &&& b == record.subrange(9, 9 + h)
            &&& b.len() == exts + 2 + 256 * b[exts] + b[exts + 1]
            &&& hello.cipher_suites == u16s(b.subrange(suites + 2, methods))
            &&& entries(b.skip(exts + 2)) == Some(hello.extensions)
        },
{
}

/// Every record whose length fields agree is read.
pub proof fn a_record_whose_lengths_agree_is_read(record: Seq<u8>)
    requires
        record.len() >= 9,
        record.len() >= 5 + 256 * record[3] + record[4],
        256 * record[3] + record[4] >= 4 + 0x1_0000 * record[6] + 256 * record[7] + record[8],
        record[5] == 1,
        ({
            let b = record.subrange(9, 9 + 0x1_0000 * record[6] + 256 * record[7] + record[8]);
            let suites = 35 + b[34] as int;
            let methods = suites + 2 + 256 * b[suites] + b[suites + 1];
            let exts = methods + 1 + b[methods];
            &&& b.len() == exts + 2 + 256 * b[exts] + b[exts + 1]
            &&& entries(b.skip(exts + 2)) is Some
        }),
    ensures
        wire_hello(record) is Some,
{
}

/// What records carry is put together from the first on: a header of five bytes whose last
/// two say how much follows, that much, and then the next record.
pub proof fn payloads_are_put_together_in_order(header: Seq<u8>, part: Seq<u8>, rest: Seq<u8>)
    requires
        header.len() == 5,
        256 * header[3] + header[4] == part.len(),
    ensures
        payloads(Seq::empty()) == Some(Seq::<u8>::empty()),
        payloads(rest) is None ==> payloads(header + part + rest) is None,
        payloads(rest) matches Some(more) ==> payloads(header + part + rest) == Some(part + more),
{
    let stream = header + part + rest;
    assert(stream[3] == header[3] && stream[4] == header[4]);
    assert(stream.subrange(5, 5 + part.len() as int) =~= part);
    assert(stream.skip(5 + part.len() as int) =~= rest);
}

} // verus!
