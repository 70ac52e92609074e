//! GREASE for encrypted client hello: a placeholder that addresses nobody.

use vstd::prelude::*;

use crate::error::{general, is_general, TlsError};

verus! {

/// How a key is encapsulated.
#[allow(non_camel_case_types)]
#[derive(Clone, Copy, Debug, PartialEq, Eq, Structural)]
pub enum HpkeKem {
    /// Diffie-Hellman on P-256.
    DHKEM_P256_HKDF_SHA256,
    /// Diffie-Hellman on Curve25519.
    DHKEM_X25519_HKDF_SHA256,
    /// Any other mechanism, by its code point.
    Unknown(u16),
}

/// How keys are derived.
#[allow(non_camel_case_types)]
#[derive(Clone, Copy, Debug, PartialEq, Eq, Structural)]
pub enum HpkeKdf {
    /// HKDF over SHA-256.
    HKDF_SHA256,
    /// Any other function, by its code point.
    Unknown(u16),
}

/// How the inner hello is sealed.
#[allow(non_camel_case_types)]
#[derive(Clone, Copy, Debug, PartialEq, Eq, Structural)]
pub enum HpkeAead {
    /// AES-128-GCM.
    AES_128_GCM,
    /// Any other cipher, by its code point.
    Unknown(u16),
}

/// The symmetric half of an HPKE suite.
#[derive(Clone, Copy, Debug)]
pub struct HpkeSymmetricCipherSuite {
    /// How keys are derived.
    pub kdf_id: HpkeKdf,
    /// How the inner hello is sealed.
    pub aead_id: HpkeAead,
}

/// An HPKE suite.
#[derive(Clone, Copy, Debug)]
pub struct HpkeSuite {
    /// How a key is encapsulated.
    pub kem: HpkeKem,
    /// The symmetric half.
    pub sym: HpkeSymmetricCipherSuite,
}

/// The length of an encapsulated key, where it is known: a Curve25519 key, or an
/// uncompressed point on P-256.
pub open spec fn enc_len_of(kem: HpkeKem) -> Option<usize> {
    match kem {
        HpkeKem::DHKEM_X25519_HKDF_SHA256 => Some(32),
        HpkeKem::DHKEM_P256_HKDF_SHA256 => Some(65),
        HpkeKem::Unknown(_) => None,
    }
}

/// What a placeholder for encrypted client hello has to look like.
#[derive(Clone, Copy, Debug)]
pub struct EchGreaseConfig {
    suite: HpkeSuite,
    enc_len: usize,
}

impl EchGreaseConfig {
    /// The suite that the placeholder claims.
    pub closed spec fn spec_suite(&self) -> HpkeSuite {
        self.suite
    }

    #[verifier::type_invariant]
    spec fn inv(self) -> bool {
        enc_len_of(self.suite.kem) == Some(self.enc_len)
    }

    /// A placeholder that needs no implementation of the suite.
    ///
    /// Guessing a length would produce an encapsulated key of the wrong size,
    /// which is worse than declining: it looks like a client that does not know
    /// its own mechanism.
    pub fn without_provider(suite: HpkeSuite) -> (r: Result<Self, TlsError>)
        ensures
            r is Ok <==> enc_len_of(suite.kem) is Some,
            r matches Ok(config) ==> config.spec_suite() == suite,
            r matches Err(e) ==> is_general(e, "unknown length of encapsulated key"@),
    {
        match suite.kem {
            HpkeKem::DHKEM_X25519_HKDF_SHA256 => Ok(EchGreaseConfig { suite, enc_len: 32 }),
            HpkeKem::DHKEM_P256_HKDF_SHA256 => Ok(EchGreaseConfig { suite, enc_len: 65 }),
            HpkeKem::Unknown(_) => Err(general("unknown length of encapsulated key")),
        }
    }

    /// The suite that the placeholder claims.
    pub fn suite(&self) -> (suite: HpkeSuite)
        ensures
            suite == self.spec_suite(),
    {
        self.suite
    }

    /// The length of the encapsulated key that the placeholder carries.
    pub fn enc_len(&self) -> (len: usize)
        ensures
            enc_len_of(self.spec_suite().kem) == Some(len),
    {
        proof {
            use_type_invariant(self);
        }
        self.enc_len
    }
}

/// A Curve25519 key has 32 bytes and an uncompressed point on P-256 has 65: one byte
/// more than its two coordinates. Nothing is said of a mechanism that is not known.
pub proof fn encapsulated_keys_have_the_length_of_their_group(code: u16)
    ensures
        enc_len_of(HpkeKem::DHKEM_X25519_HKDF_SHA256) == Some(32usize),
        enc_len_of(HpkeKem::DHKEM_P256_HKDF_SHA256) == Some((1 + 2 * 32) as usize),
        enc_len_of(HpkeKem::Unknown(code)) is None,
{
}

} // verus!
