//! Sources of randomness.

use rand_core::RngCore;
use vstd::prelude::*;

use crate::error::GetRandomFailed;

verus! {

/// `rand_core::Error`: why the generator failed.
#[verifier::external_type_specification]
#[verifier::external_body]
pub struct ExRandError(rand_core::Error);

/// A source of random bytes fit for cryptography.
pub trait SecureRandom {
    /// Overwrites `bytes` with random bytes.
    fn fill(&self, bytes: &mut [u8]) -> (filled: Result<(), GetRandomFailed>)
        ensures
            final(bytes)@.len() == old(bytes)@.len(),
    ;
}

/// The generator of the operating system.
#[derive(Debug)]
pub struct Provider;

/// Calls `rand_core::OsRng::try_fill_bytes`.
///
/// Claims only that the slice keeps its length: what the bytes are, and whether
/// the call succeeds, is up to the operating system.
#[verifier::external_body]
fn os_random(dest: &mut [u8]) -> (filled: Result<(), rand_core::Error>)
    ensures
        final(dest)@.len() == old(dest)@.len(),
{
    rand_core::OsRng.try_fill_bytes(dest)
}

/// The operating system's generator, called on `dest`, can come out with `outcome`
/// and leave in `dest` its final bytes.
pub closed spec fn os_random_gives(dest: &mut [u8], outcome: Result<(), rand_core::Error>) -> bool {
    call_ensures(os_random, (dest,), outcome)
}

impl SecureRandom for Provider {
    /// Hands `bytes` to the operating system's generator, which leaves in it what it
    /// gives, and fails just where the generator does.
    fn fill(&self, bytes: &mut [u8]) -> (filled: Result<(), GetRandomFailed>)
        ensures
            exists|dest: &mut [u8], outcome: Result<(), rand_core::Error>| #[trigger]
                os_random_gives(dest, outcome) && dest@ == old(bytes)@ && final(dest)@
                    == final(bytes)@ && (filled is Ok <==> outcome is Ok),
    {
        let outcome = os_random(bytes);
        proof {
            let dest = choose|dest: &mut [u8]| #[trigger]
                call_ensures(os_random, (dest,), outcome) && dest@ == old(bytes)@ && final(dest)@
                    == bytes@;
            assert(os_random_gives(dest, outcome));
        }
        match outcome {
            Ok(()) => Ok(()),
            Err(_) => Err(GetRandomFailed),
        }
    }
}

/// The generator that `fill` speaks of is the operating system's own: an outcome counts only
/// if a call on the very same bytes can come to it.
proof fn the_generator_is_the_systems_own(
    dest: &mut [u8],
    outcome: Result<(), rand_core::Error>,
)
    ensures
        os_random_gives(dest, outcome) <==> call_ensures(os_random, (dest,), outcome),
{
}

} // verus!
