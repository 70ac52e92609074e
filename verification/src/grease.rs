//! GREASE (RFC 8701): reserved values that every correct peer ignores.

use vstd::prelude::*;

use crate::error::{GetRandomFailed, TlsError};
use crate::random::SecureRandom;

verus! {

/// The sixteen values RFC 8701 reserves for GREASE.
///
/// They are spread across the codepoint space on purpose: a peer that special
/// cases one of them, or that chokes on an unknown value, is caught early
/// rather than years later when a real extension takes that number.
pub const GREASE_VALUES: [u16; 16] = [
    0x0a0a,
    0x1a1a,
    0x2a2a,
    0x3a3a,
    0x4a4a,
    0x5a5a,
    0x6a6a,
    0x7a7a,
    0x8a8a,
    0x9a9a,
    0xaaaa,
    0xbaba,
    0xcaca,
    0xdada,
    0xeaea,
    0xfafa,
];

/// The shape of the reserved values: two equal bytes that end in the digit `a`.
pub open spec fn reserved(value: u16) -> bool {
    value / 256 == value % 256 && value % 16 == 10
}

/// The reserved values are exactly the ones listed, and no value is listed twice.
pub proof fn reserved_values_are_listed(value: u16)
    ensures
        reserved(value) <==> GREASE_VALUES@.contains(value),
        forall|i: int, k: int|
            0 <= i < k < 16 ==> #[trigger] GREASE_VALUES@[i] != #[trigger] GREASE_VALUES@[k],
        forall|i: int| 0 <= i < 16 ==> reserved(#[trigger] GREASE_VALUES@[i]),
{
    assert forall|i: int| 0 <= i < 16 implies #[trigger] GREASE_VALUES@[i] == 0x1010 * i
        + 0x0a0a by {
        lemma_listed(i);
    }
    if reserved(value) {
        let i = (value / 256) as int / 16;
        assert(GREASE_VALUES@[i] == value);
    }
}

proof fn lemma_listed(i: int)
    requires
        0 <= i < 16,
    ensures
        GREASE_VALUES@[i] == 0x1010 * i + 0x0a0a,
{
}

/// Is this one of the values that GREASE may use?
pub fn is_grease(value: u16) -> (yes: bool)
    ensures
        yes == GREASE_VALUES@.contains(value),
        yes == reserved(value),
{
    proof {
        reserved_values_are_listed(value);
    }
    let high: u16 = value / 256;
    let low: u16 = value % 256;
    high == low && low % 16 == 10
}

/// GREASE values chosen for one connection.
///
/// Picked once and kept, because a `HelloRetryRequest` makes us send a second
/// hello which has to agree with the first.
#[derive(Clone, Copy, Debug)]
pub struct Grease {
    /// Leads the cipher suite list.
    pub cipher_suite: u16,
    /// Leads the supported groups and the key shares.
    pub named_group: u16,
    /// Leads the supported versions.
    pub version: u16,
    /// The type of the first extension.
    pub first_extension: u16,
    /// The type of the last extension before the trailing ones.
    pub last_extension: u16,
}

/// The reserved value that a random byte picks.
pub open spec fn picked(byte: u8) -> u16 {
    GREASE_VALUES@[byte as int % 16]
}

/// The values that five random bytes pick.
pub open spec fn greased(seed: Seq<u8>) -> Grease {
    Grease {
        cipher_suite: picked(seed[0]),
        named_group: picked(seed[1]),
        version: picked(seed[2]),
        first_extension: picked(seed[3]),
        last_extension: if picked(seed[4]) == picked(seed[3]) {
            GREASE_VALUES@[(seed[4] + 1) % 16]
        } else {
            picked(seed[4])
        },
    }
}

impl Grease {
    /// The single byte browsers put in the GREASE key share.
    ///
    /// The content is meaningless by definition; the length is not, so it is
    /// fixed here rather than left to chance.
    pub const KEY_SHARE_PAYLOAD: [u8; 1] = [0x00];

    /// The body of the trailing GREASE extension.
    ///
    /// The leading one is empty and this one is a single zero byte. There is
    /// no reason for the asymmetry beyond BoringSSL doing it that way, and
    /// that is reason enough: matching it is the entire point.
    pub const LAST_EXTENSION_PAYLOAD: [u8; 1] = [0x00];

    /// What holds of every choice: reserved values only, and two extensions of
    /// different types.
    pub open spec fn well_formed(self) -> bool {
        &&& reserved(self.cipher_suite)
        &&& reserved(self.named_group)
        &&& reserved(self.version)
        &&& reserved(self.first_extension)
        &&& reserved(self.last_extension)
        &&& self.first_extension != self.last_extension
    }

    /// The choice that five random bytes make.
    pub fn from_seed(seed: &[u8; 5]) -> (grease: Self)
        ensures
            grease == greased(seed@),
            grease.well_formed(),
    {
        proof {
            reserved_values_are_listed(0);
        }
        let first_extension: u16 = GREASE_VALUES[(seed[3] % 16) as usize];
        let mut last_extension: u16 = GREASE_VALUES[(seed[4] % 16) as usize];
        if last_extension == first_extension {
            // Two extensions of one type in one hello is a protocol error.
            last_extension = GREASE_VALUES[(seed[4].wrapping_add(1) % 16) as usize];
        }
        Grease {
            cipher_suite: GREASE_VALUES[(seed[0] % 16) as usize],
            named_group: GREASE_VALUES[(seed[1] % 16) as usize],
            version: GREASE_VALUES[(seed[2] % 16) as usize],
            first_extension,
            last_extension,
        }
    }

    /// Picks values at random.
    pub fn new<R: SecureRandom>(random: &R) -> (r: Result<Self, TlsError>)
        ensures
            exists|buffer: &mut [u8], filled: Result<(), GetRandomFailed>| #[trigger]
                call_ensures(R::fill, (random, buffer), filled) && buffer@.len() == 5
                    && match filled {
                    Ok(()) => r matches Ok(grease) && grease == greased(final(buffer)@),
                    Err(_) => r is Err,
                },
            r matches Ok(grease) ==> grease.well_formed(),
            r matches Err(e) ==> e is FailedToGetRandomBytes,
    {
        let mut seed = [0u8; 5];
        match random.fill(&mut seed) {
            Ok(()) => Ok(Grease::from_seed(&seed)),
            Err(_) => Err(TlsError::FailedToGetRandomBytes),
        }
    }
}

/// The reserved values are the sixteen `0xNaNa`, one for each hex digit `N`.
pub proof fn a_reserved_value_repeats_a_digit(value: u16)
    ensures
        reserved(value) <==> exists|n: int| 0 <= n < 16 && value == #[trigger] (0x1010 * n) + 0x0a0a,
{
    if reserved(value) {
        let n = value as int / 0x1000;
        assert(value == 0x1010 * n + 0x0a0a);
    }
    if exists|n: int| 0 <= n < 16 && value == #[trigger] (0x1010 * n) + 0x0a0a {
        let n = choose|n: int| 0 <= n < 16 && value == #[trigger] (0x1010 * n) + 0x0a0a;
        assert(value / 256 == 16 * n + 10 && value % 256 == 16 * n + 10);
    }
}

/// Each random byte picks by its low digit, one byte for each value; only the last
/// extension moves on, by one digit, where it would be of the same type as the first.
pub proof fn each_byte_picks_by_its_low_digit(seed: Seq<u8>)
    requires
        seed.len() == 5,
    ensures
        greased(seed).cipher_suite == 0x0a0a + 0x1010 * (seed[0] as int % 16),
        greased(seed).named_group == 0x0a0a + 0x1010 * (seed[1] as int % 16),
        greased(seed).version == 0x0a0a + 0x1010 * (seed[2] as int % 16),
        greased(seed).first_extension == 0x0a0a + 0x1010 * (seed[3] as int % 16),
        seed[3] as int % 16 != seed[4] as int % 16 ==> greased(seed).last_extension == 0x0a0a
            + 0x1010 * (seed[4] as int % 16),
        seed[3] as int % 16 == seed[4] as int % 16 ==> greased(seed).last_extension == 0x0a0a
            + 0x1010 * ((seed[4] as int + 1) % 16),
{
    lemma_listed(seed[0] as int % 16);
    lemma_listed(seed[1] as int % 16);
    lemma_listed(seed[2] as int % 16);
    lemma_listed(seed[3] as int % 16);
    lemma_listed(seed[4] as int % 16);
    lemma_listed((seed[4] as int + 1) % 16);
}

} // verus!
