//! Reality certificates: an Ed25519 key inside, an HMAC tag at the end.

use vstd::prelude::*;
use vstd::slice::slice_subrange;

use crate::crypto::{hmac_sha512, hmac_sha512_tag};

verus! {

/// Bytes of a DER OBJECT IDENTIFIER naming Ed25519 (1.3.101.112).
pub const ED25519_OID: [u8; 5] = [0x06, 0x03, 0x2b, 0x65, 0x70];

/// Header of the DER BIT STRING that holds a 32-byte key.
pub const BIT_STRING_HDR: [u8; 3] = [0x03, 0x21, 0x00];

/// How far behind the OID the BIT STRING may start.
pub const SEARCH_WINDOW: usize = 16;

/// Length of an Ed25519 public key.
pub const KEY_LEN: usize = 32;

/// Length of an HMAC-SHA512 tag.
pub const TAG_LEN: usize = 64;

/// `pattern` stands in `data` at position `at`.
pub open spec fn occurs_at(data: Seq<u8>, pattern: Seq<u8>, at: int) -> bool {
    &&& 0 <= at
    &&& at + pattern.len() <= data.len()
    &&& data.subrange(at, at + pattern.len()) == pattern
}

/// An OID at `i` and, close behind it, a BIT STRING at `j` with a whole key in it.
pub open spec fn key_site(der: Seq<u8>, i: int, j: int) -> bool {
    &&& occurs_at(der, ED25519_OID@, i)
    &&& occurs_at(der, BIT_STRING_HDR@, j)
    &&& i + ED25519_OID@.len() <= j <= i + ED25519_OID@.len() + SEARCH_WINDOW
    &&& j + BIT_STRING_HDR@.len() + KEY_LEN <= der.len()
}

/// The first key site: earliest OID, and for that OID the earliest BIT STRING.
pub open spec fn first_key_site(der: Seq<u8>, i: int, j: int) -> bool {
    &&& key_site(der, i, j)
    &&& forall|a: int, b: int| #[trigger]
        key_site(der, a, b) ==> i < a || (i == a && j <= b)
}

/// The key that stands at the first key site, if there is one.
pub open spec fn embedded_key(der: Seq<u8>) -> Option<Seq<u8>> {
    if exists|i: int, j: int| first_key_site(der, i, j) {
        let (i, j) = choose|i: int, j: int| first_key_site(der, i, j);
        Some(der.subrange(j + BIT_STRING_HDR@.len(), j + BIT_STRING_HDR@.len() + KEY_LEN))
    } else {
        None
    }
}

/// Does `pattern` stand in `data` at position `at`?
pub(crate) fn matches_at(data: &[u8], pattern: &[u8], at: usize) -> (found: bool)
    requires
        at + pattern@.len() <= data@.len(),
    ensures
        found == occurs_at(data@, pattern@, at as int),
{
    let n: usize = data.len();
    let mut k: usize = 0;
    while k < pattern.len()
        invariant
            k <= pattern@.len(),
            n == data@.len(),
            at + pattern@.len() <= data@.len(),
            forall|m: int| 0 <= m < k ==> data@[at + m] == pattern@[m],
        decreases pattern@.len() - k,
    {
        if data[at + k] != pattern[k] {
            assert(data@.subrange(at as int, at + pattern@.len())[k as int] == data@[at + k]);
            return false;
        }
        k = k + 1;
    }
    assert(data@.subrange(at as int, at + pattern@.len()) =~= pattern@);
    true
}

/// Copies the 32 bytes that start at `at`.
fn copy_key(data: &[u8], at: usize) -> (key: [u8; 32])
    requires
        at + KEY_LEN <= data@.len(),
    ensures
        key@ == data@.subrange(at as int, at + KEY_LEN),
{
    let n: usize = data.len();
    let mut key = [0u8; 32];
    let mut k: usize = 0;
    while k < 32
        invariant
            k <= 32,
            n == data@.len(),
            at + 32 <= data@.len(),
            forall|m: int| 0 <= m < k ==> key@[m] == data@[at + m],
        decreases 32 - k,
    {
        key[k] = data[at + k];
        k = k + 1;
    }
    assert(key@ =~= data@.subrange(at as int, at + KEY_LEN));
    key
}

proof fn lemma_first_site_fixes_key(der: Seq<u8>, i: int, j: int)
    requires
        first_key_site(der, i, j),
    ensures
        embedded_key(der) == Some(
            der.subrange(j + BIT_STRING_HDR@.len(), j + BIT_STRING_HDR@.len() + KEY_LEN),
        ),
{
    let (a, b) = choose|a: int, b: int| first_key_site(der, a, b);
    assert(first_key_site(der, a, b));
    assert(key_site(der, a, b));
    assert(key_site(der, i, j));
}

/// Finds the Ed25519 key that a Reality certificate carries.
///
/// The certificate is searched for the Ed25519 OID and, within a short window
/// behind it, for the BIT STRING that holds the key. The first such place counts.
pub fn extract_ed25519_pubkey_from_reality_cert(cert_der: &[u8]) -> (key: Option<[u8; 32]>)
    ensures
        match key {
            Some(k) => embedded_key(cert_der@) == Some(k@),
            None => embedded_key(cert_der@) is None,
        },
        key is None <==> forall|i: int, j: int| !#[trigger] key_site(cert_der@, i, j),
{
    let n: usize = cert_der.len();
    if n < 40 {
        assert forall|i: int, j: int| !#[trigger] key_site(cert_der@, i, j) by {}
        return None;
    }
    let mut i: usize = 0;
    while i < n - 5
        invariant
            n == cert_der@.len(),
            40 <= n,
            i <= n - 5,
            forall|a: int, b: int| #[trigger] key_site(cert_der@, a, b) ==> i <= a,
        decreases n - i,
    {
        if matches_at(cert_der, &ED25519_OID, i) {
            let last: usize = n - 35;
            let search_end: usize = if 21 <= last && i <= last - 21 {
                i + 21
            } else {
                last
            };
            let mut j: usize = i + 5;
            while j <= search_end
                invariant
                    n == cert_der@.len(),
                    40 <= n,
                    i < n - 5,
                    i + 5 <= j,
                    search_end <= n - 35,
                    search_end <= i + 21,
                    search_end == i + 21 || search_end == n - 35,
                    occurs_at(cert_der@, ED25519_OID@, i as int),
                    forall|a: int, b: int| #[trigger]
                        key_site(cert_der@, a, b) ==> i < a || (i == a && j <= b),
                decreases search_end + 1 - j,
            {
                if matches_at(cert_der, &BIT_STRING_HDR, j) {
                    let key = copy_key(cert_der, j + 3);
                    proof {
                        assert(key_site(cert_der@, i as int, j as int));
                        lemma_first_site_fixes_key(cert_der@, i as int, j as int);
                    }
                    return Some(key);
                }
                j = j + 1;
            }
        }
        i = i + 1;
    }
    assert forall|a: int, b: int| !#[trigger] key_site(cert_der@, a, b) by {}
    None
}

/// Compares two byte strings, taking the same time wherever they differ.
pub fn constant_time_eq(a: &[u8], b: &[u8]) -> (equal: bool)
    ensures
        equal == (a@ == b@),
{
    if a.len() != b.len() {
        return false;
    }
    let mut diff: u8 = 0;
    assert(a@.take(0) =~= b@.take(0));
    let mut k: usize = 0;
    while k < a.len()
        invariant
            k <= a@.len(),
            a@.len() == b@.len(),
            diff == 0 <==> a@.take(k as int) == b@.take(k as int),
        decreases a@.len() - k,
    {
        let lhs: u8 = a[k];
        let rhs: u8 = b[k];
        proof {
            assert((diff | (lhs ^ rhs)) == 0 <==> diff == 0 && lhs == rhs) by (bit_vector);
            assert(a@.take(k + 1) =~= a@.take(k as int).push(lhs));
            assert(b@.take(k + 1) =~= b@.take(k as int).push(rhs));
            assert(a@.take(k + 1).drop_last() =~= a@.take(k as int));
            assert(b@.take(k + 1).drop_last() =~= b@.take(k as int));
            assert(a@.take(k + 1).last() == lhs);
            assert(b@.take(k + 1).last() == rhs);
        }
        diff = diff | (lhs ^ rhs);
        k = k + 1;
    }
    assert(a@.take(a@.len() as int) =~= a@);
    assert(b@.take(b@.len() as int) =~= b@);
    diff == 0
}

/// The last sixty-four bytes of a certificate, where its signature stands.
pub open spec fn cert_tail(der: Seq<u8>) -> Seq<u8> {
    der.subrange(der.len() - TAG_LEN, der.len() as int)
}

/// What a certificate says under an authentication key: nothing, if it is too
/// short or carries no Ed25519 key; else whether it ends in the tag of that key.
pub open spec fn reality_verdict(der: Seq<u8>, auth_key: Seq<u8>) -> Option<bool> {
    if der.len() < TAG_LEN {
        None
    } else {
        match embedded_key(der) {
            Some(pubkey) => Some(cert_tail(der) == hmac_sha512_tag(auth_key, pubkey)),
            None => None,
        }
    }
}

/// Does the certificate end in this tag?
pub fn ends_in_tag(cert_der: &[u8], tag: &[u8; 64]) -> (matches: bool)
    requires
        cert_der@.len() >= TAG_LEN,
    ensures
        matches == (cert_tail(cert_der@) == tag@),
{
    let n: usize = cert_der.len();
    constant_time_eq(tag, slice_subrange(cert_der, n - TAG_LEN, n))
}

/// Checks a certificate against the authentication key of the handshake.
///
/// A Reality server puts the HMAC-SHA512 of its Ed25519 key where the
/// signature of the certificate would be.
pub fn verify_reality_cert(cert_der: &[u8], auth_key: &[u8; 32]) -> (verdict: Option<bool>)
    ensures
        verdict == reality_verdict(cert_der@, auth_key@),
{
    if cert_der.len() < TAG_LEN {
        return None;
    }
    match extract_ed25519_pubkey_from_reality_cert(cert_der) {
        Some(pubkey) => {
            let expected = hmac_sha512(auth_key, &pubkey);
            Some(ends_in_tag(cert_der, &expected))
        },
        None => None,
    }
}

/// Whether a certificate has a verdict at all does not depend on the key.
pub proof fn verdict_depends_on_shape_alone(der: Seq<u8>, key: Seq<u8>, other: Seq<u8>)
    ensures
        reality_verdict(der, key) is None <==> reality_verdict(der, other) is None,
{
}

/// Bytes appended to a certificate never change the key that is found in it.
pub proof fn appended_bytes_keep_the_key(der: Seq<u8>, more: Seq<u8>)
    requires
        embedded_key(der) is Some,
    ensures
        embedded_key(der + more) == embedded_key(der),
{
    let longer = der + more;
    let (i, j) = choose|i: int, j: int| first_key_site(der, i, j);
    assert(first_key_site(der, i, j));
    assert(longer.subrange(i, i + 5) =~= der.subrange(i, i + 5));
    assert(longer.subrange(j, j + 3) =~= der.subrange(j, j + 3));
    assert(key_site(longer, i, j));
    assert forall|a: int, b: int| #[trigger] key_site(longer, a, b) implies i < a || (i == a && j
        <= b) by {
        if a < i || (a == i && b < j) {
            assert(longer.subrange(a, a + 5) =~= der.subrange(a, a + 5));
            if j <= a + ED25519_OID@.len() + SEARCH_WINDOW {
                // The key that was found first would count for the OID at `a` as well.
                assert(a < i ==> key_site(der, a, j));
            }
            assert(b <= j);
            assert(longer.subrange(b, b + 3) =~= der.subrange(b, b + 3));
            assert(key_site(der, a, b));
        }
    }
    assert(first_key_site(longer, i, j));
    lemma_first_site_fixes_key(der, i, j);
    lemma_first_site_fixes_key(longer, i, j);
    assert(longer.subrange(j + 3, j + 35) =~= der.subrange(j + 3, j + 35));
}

proof fn lemma_oid_bytes(der: Seq<u8>, i: int)
    requires
        0 <= i,
        i + 5 <= der.len(),
    ensures
        occurs_at(der, ED25519_OID@, i) <==> {
            &&& der[i] == 0x06
            &&& der[i + 1] == 0x03
            &&& der[i + 2] == 0x2b
            &&& der[i + 3] == 0x65
            &&& der[i + 4] == 0x70
        },
{
    let part = der.subrange(i, i + 5);
    assert(part[0] == der[i] && part[1] == der[i + 1] && part[2] == der[i + 2]);
    assert(part[3] == der[i + 3] && part[4] == der[i + 4]);
    if part == ED25519_OID@ {
        assert(part[0] == ED25519_OID@[0] && part[1] == ED25519_OID@[1]);
        assert(part[2] == ED25519_OID@[2] && part[3] == ED25519_OID@[3]);
        assert(part[4] == ED25519_OID@[4]);
    }
    if der[i] == 0x06 && der[i + 1] == 0x03 && der[i + 2] == 0x2b && der[i + 3] == 0x65 && der[i
        + 4] == 0x70 {
        assert(part =~= ED25519_OID@);
    }
}

proof fn lemma_header_bytes(der: Seq<u8>, j: int)
    requires
        0 <= j,
        j + 3 <= der.len(),
    ensures
        occurs_at(der, BIT_STRING_HDR@, j) <==> {
            &&& der[j] == 0x03
            &&& der[j + 1] == 0x21
            &&& der[j + 2] == 0x00
        },
{
    let part = der.subrange(j, j + 3);
    assert(part[0] == der[j] && part[1] == der[j + 1] && part[2] == der[j + 2]);
    if part == BIT_STRING_HDR@ {
        assert(part[0] == BIT_STRING_HDR@[0] && part[1] == BIT_STRING_HDR@[1]);
        assert(part[2] == BIT_STRING_HDR@[2]);
    }
    if der[j] == 0x03 && der[j + 1] == 0x21 && der[j + 2] == 0x00 {
        assert(part =~= BIT_STRING_HDR@);
    }
}

/// Where there is a key site, one of them is the first.
proof fn lemma_some_site_is_first(der: Seq<u8>, i: int, j: int)
    requires
        key_site(der, i, j),
    ensures
        exists|a: int, b: int| first_key_site(der, a, b),
    decreases i, j,
{
    if !first_key_site(der, i, j) {
        let (a, b) = choose|a: int, b: int|
            #[trigger] key_site(der, a, b) && !(i < a || (i == a && j <= b));
        lemma_some_site_is_first(der, a, b);
    }
}

/// A key is found wherever it stands: an Ed25519 OID at any place, and the header of a
/// BIT STRING with 32 bytes in it at most sixteen bytes behind the OID, are enough.
pub proof fn a_key_is_found_wherever_it_stands(der: Seq<u8>, i: int, j: int)
    requires
        0 <= i,
        i + 5 <= j <= i + 21,
        j + 35 <= der.len(),
        der.subrange(i, i + 5) == seq![0x06u8, 0x03u8, 0x2bu8, 0x65u8, 0x70u8],
        der.subrange(j, j + 3) == seq![0x03u8, 0x21u8, 0x00u8],
    ensures
        embedded_key(der) is Some,
{
    let oid = der.subrange(i, i + 5);
    let header = der.subrange(j, j + 3);
    assert(der[i] == oid[0] && der[i + 1] == oid[1] && der[i + 2] == oid[2]);
    assert(der[i + 3] == oid[3] && der[i + 4] == oid[4]);
    assert(der[j] == header[0] && der[j + 1] == header[1] && der[j + 2] == header[2]);
    lemma_oid_bytes(der, i);
    lemma_header_bytes(der, j);
    assert(key_site(der, i, j));
    lemma_some_site_is_first(der, i, j);
}

/// What is found is a key: it stands behind a BIT STRING header, which stands at most
/// sixteen bytes behind an Ed25519 OID.
pub proof fn what_is_found_stands_behind_an_oid(der: Seq<u8>)
    requires
        embedded_key(der) is Some,
    ensures
        exists|i: int, j: int|
            #![trigger der[i], der[j]]
            {
                &&& 0 <= i && i + 5 <= j <= i + 21 && j + 35 <= der.len()
                &&& der[i] == 0x06 && der[i + 1] == 0x03 && der[i + 2] == 0x2b
                &&& der[i + 3] == 0x65 && der[i + 4] == 0x70
                &&& der[j] == 0x03 && der[j + 1] == 0x21 && der[j + 2] == 0x00
                &&& embedded_key(der) == Some(der.subrange(j + 3, j + 35))
            },
{
    let (i, j) = choose|i: int, j: int| first_key_site(der, i, j);
    assert(first_key_site(der, i, j));
    lemma_oid_bytes(der, i);
    lemma_header_bytes(der, j);
    lemma_first_site_fixes_key(der, i, j);
    assert(der[i] == 0x06 && der[j] == 0x03);
}

/// The first place counts: where no OID with a header in reach comes earlier, and no
/// header in reach of the same OID does, the 32 bytes behind the header are the key.
pub proof fn the_first_place_counts(der: Seq<u8>, i: int, j: int)
    requires
        0 <= i,
        i + 5 <= j <= i + 21,
        j + 35 <= der.len(),
        der.subrange(i, i + 5) == seq![0x06u8, 0x03u8, 0x2bu8, 0x65u8, 0x70u8],
        der.subrange(j, j + 3) == seq![0x03u8, 0x21u8, 0x00u8],
        forall|a: int, b: int|
            #![trigger der[a], der[b]]
            {
                &&& 0 <= a && a + 5 <= b <= a + 21 && b + 35 <= der.len()
                &&& der[a] == 0x06 && der[a + 1] == 0x03 && der[a + 2] == 0x2b
                &&& der[a + 3] == 0x65 && der[a + 4] == 0x70
                &&& der[b] == 0x03 && der[b + 1] == 0x21 && der[b + 2] == 0x00
            } ==> i < a || (i == a && j <= b),
    ensures
        embedded_key(der) == Some(der.subrange(j + 3, j + 35)),
{
    let oid = der.subrange(i, i + 5);
    let header = der.subrange(j, j + 3);
    assert(der[i] == oid[0] && der[i + 1] == oid[1] && der[i + 2] == oid[2]);
    assert(der[i + 3] == oid[3] && der[i + 4] == oid[4]);
    assert(der[j] == header[0] && der[j + 1] == header[1] && der[j + 2] == header[2]);
    lemma_oid_bytes(der, i);
    lemma_header_bytes(der, j);
    assert(key_site(der, i, j));
    assert forall|a: int, b: int| #[trigger] key_site(der, a, b) implies i < a || (i == a && j
        <= b) by {
        lemma_oid_bytes(der, a);
        lemma_header_bytes(der, b);
        assert(der[a] == 0x06 && der[b] == 0x03);
    }
    assert(first_key_site(der, i, j));
    lemma_first_site_fixes_key(der, i, j);
}

/// A certificate is judged by its last sixty-four bytes: whatever stands in front of
/// them, they are to be the HMAC-SHA512 of the key under the authentication key.
pub proof fn a_certificate_is_judged_by_its_last_bytes(
    front: Seq<u8>,
    tag: Seq<u8>,
    auth_key: Seq<u8>,
)
    requires
        tag.len() == 64,
    ensures
        match embedded_key(front + tag) {
            Some(pubkey) => reality_verdict(front + tag, auth_key) == Some(
                tag == hmac_sha512_tag(auth_key, pubkey),
            ),
            None => reality_verdict(front + tag, auth_key) is None,
        },
{
    assert(cert_tail(front + tag) =~= tag);
}

/// What is shorter than a tag is no Reality certificate.
pub proof fn a_certificate_is_longer_than_a_tag(der: Seq<u8>, auth_key: Seq<u8>)
    requires
        der.len() < 64,
    ensures
        reality_verdict(der, auth_key) is None,
{
}

} // verus!
