//! Cryptographic providers: which suites there are, and where randomness comes from.

use vstd::prelude::*;

use crate::error::{general, is_general, TlsError};
use crate::hkdf::HkdfSha256;
use crate::random::Provider;

verus! {

/// `TLS13_AES_128_GCM_SHA256`.
pub const TLS13_AES_128_GCM_SHA256: u16 = 0x1301;

/// `TLS13_CHACHA20_POLY1305_SHA256`.
pub const TLS13_CHACHA20_POLY1305_SHA256: u16 = 0x1303;

/// `TLS_ECDHE_RSA_WITH_CHACHA20_POLY1305_SHA256`.
pub const TLS_ECDHE_RSA_WITH_CHACHA20_POLY1305_SHA256: u16 = 0xcca8;

/// The hash that a cipher suite is built on.
#[derive(Clone, Copy, Debug, PartialEq, Eq, Structural)]
pub enum HashAlgorithm {
    /// SHA-256.
    SHA256,
    /// SHA-384.
    SHA384,
    /// SHA-512.
    SHA512,
}

/// How the peers sign.
#[allow(non_camel_case_types)]
#[derive(Clone, Copy, Debug, PartialEq, Eq, Structural)]
pub enum SignatureScheme {
    /// RSA with PKCS#1 padding and SHA-1.
    RSA_PKCS1_SHA1,
    /// RSA with PKCS#1 padding and SHA-256.
    RSA_PKCS1_SHA256,
    /// RSA with PSS padding and SHA-256.
    RSA_PSS_SHA256,
    /// ECDSA on P-256 with SHA-256.
    ECDSA_NISTP256_SHA256,
    /// ECDSA with SHA-1.
    ECDSA_SHA1_Legacy,
    /// Ed25519.
    ED25519,
    /// Any other scheme, by its code point.
    Unknown(u16),
}

/// How a TLS 1.2 suite exchanges keys.
#[derive(Clone, Copy, Debug, PartialEq, Eq, Structural)]
pub enum KeyExchangeAlgorithm {
    /// Ephemeral Diffie-Hellman over a finite field.
    DHE,
    /// Ephemeral Diffie-Hellman over an elliptic curve.
    ECDHE,
}

/// What TLS 1.2 and TLS 1.3 suites have in common.
#[derive(Clone, Copy, Debug)]
pub struct CipherSuiteCommon {
    /// The code point of the suite.
    pub suite: u16,
    /// The hash that the suite is built on.
    pub hash_provider: HashAlgorithm,
    /// How many records one key may protect.
    pub confidentiality_limit: u64,
}

/// A TLS 1.3 cipher suite.
#[derive(Debug)]
pub struct Tls13CipherSuite<H> {
    /// What it shares with every suite.
    pub common: CipherSuiteCommon,
    /// HKDF over the suite's hash.
    pub hkdf_provider: H,
}

/// A TLS 1.2 cipher suite.
#[derive(Debug)]
pub struct Tls12CipherSuite {
    /// What it shares with every suite.
    pub common: CipherSuiteCommon,
    /// How keys are exchanged.
    pub kx: KeyExchangeAlgorithm,
    /// How the server may sign, the preferred scheme first.
    pub sign: Vec<SignatureScheme>,
}

/// A set of cipher suites and a source of randomness.
#[derive(Debug)]
pub struct CryptoProvider<R, H> {
    /// TLS 1.2 suites, the preferred one first.
    pub tls12_cipher_suites: Vec<Tls12CipherSuite>,
    /// TLS 1.3 suites, the preferred one first.
    pub tls13_cipher_suites: Vec<Tls13CipherSuite<H>>,
    /// Where random bytes come from.
    pub secure_random: R,
}

/// The code points of TLS 1.3 suites, in order.
pub open spec fn tls13_codes<H>(suites: Seq<Tls13CipherSuite<H>>) -> Seq<u16> {
    Seq::new(suites.len(), |i: int| suites[i].common.suite)
}

/// The code points of TLS 1.2 suites, in order.
pub open spec fn tls12_codes(suites: Seq<Tls12CipherSuite>) -> Seq<u16> {
    Seq::new(suites.len(), |i: int| suites[i].common.suite)
}

impl<R, H> CryptoProvider<R, H> {
    /// The code points of the suites in the order they are offered: those of TLS 1.3
    /// first, then those of TLS 1.2.
    pub open spec fn offered(&self) -> Seq<u16> {
        tls13_codes(self.tls13_cipher_suites@) + tls12_codes(self.tls12_cipher_suites@)
    }

    /// The code points of the suites in the order they are offered: those of TLS 1.3
    /// first, then those of TLS 1.2.
    pub fn cipher_suites(&self) -> (codes: Vec<u16>)
        ensures
            codes@ == self.offered(),
    {
        let mut codes: Vec<u16> = Vec::new();
        let mut i: usize = 0;
        while i < self.tls13_cipher_suites.len()
            invariant
                i <= self.tls13_cipher_suites@.len(),
                codes@ =~= tls13_codes(self.tls13_cipher_suites@).take(i as int),
            decreases self.tls13_cipher_suites@.len() - i,
        {
            codes.push(self.tls13_cipher_suites[i].common.suite);
            i = i + 1;
        }
        let ghost front = codes@;
        assert(front =~= tls13_codes(self.tls13_cipher_suites@));
        let mut k: usize = 0;
        while k < self.tls12_cipher_suites.len()
            invariant
                k <= self.tls12_cipher_suites@.len(),
                codes@ =~= front + tls12_codes(self.tls12_cipher_suites@).take(k as int),
            decreases self.tls12_cipher_suites@.len() - k,
        {
            codes.push(self.tls12_cipher_suites[k].common.suite);
            k = k + 1;
        }
        assert(codes@ =~= self.offered());
        codes
    }
}

/// The provider made of the suites and the generator of this crate.
pub fn provider() -> (p: CryptoProvider<Provider, HkdfSha256>)
    ensures
        p.tls12_cipher_suites@.len() == 1,
        p.tls12_cipher_suites@[0].common == (CipherSuiteCommon {
            suite: TLS_ECDHE_RSA_WITH_CHACHA20_POLY1305_SHA256,
            hash_provider: HashAlgorithm::SHA256,
            confidentiality_limit: u64::MAX,
        }),
        p.tls12_cipher_suites@[0].kx == KeyExchangeAlgorithm::ECDHE,
        p.tls12_cipher_suites@[0].sign@ == seq![
            SignatureScheme::RSA_PSS_SHA256,
            SignatureScheme::RSA_PKCS1_SHA256,
        ],
        p.tls13_cipher_suites@ == seq![
            Tls13CipherSuite {
                common: CipherSuiteCommon {
                    suite: TLS13_CHACHA20_POLY1305_SHA256,
                    hash_provider: HashAlgorithm::SHA256,
                    confidentiality_limit: u64::MAX,
                },
                hkdf_provider: HkdfSha256,
            },
        ],
        p.secure_random == Provider,
        p.offered() == seq![
            TLS13_CHACHA20_POLY1305_SHA256,
            TLS_ECDHE_RSA_WITH_CHACHA20_POLY1305_SHA256,
        ],
{
    let mut sign: Vec<SignatureScheme> = Vec::new();
    sign.push(SignatureScheme::RSA_PSS_SHA256);
    sign.push(SignatureScheme::RSA_PKCS1_SHA256);
    assert(sign@ =~= seq![SignatureScheme::RSA_PSS_SHA256, SignatureScheme::RSA_PKCS1_SHA256]);

    let mut tls12_cipher_suites: Vec<Tls12CipherSuite> = Vec::new();
    tls12_cipher_suites.push(
        Tls12CipherSuite {
            common: CipherSuiteCommon {
                suite: TLS_ECDHE_RSA_WITH_CHACHA20_POLY1305_SHA256,
                hash_provider: HashAlgorithm::SHA256,
                confidentiality_limit: u64::MAX,
            },
            kx: KeyExchangeAlgorithm::ECDHE,
            sign,
        },
    );

    let mut tls13_cipher_suites: Vec<Tls13CipherSuite<HkdfSha256>> = Vec::new();
    tls13_cipher_suites.push(
        Tls13CipherSuite {
            common: CipherSuiteCommon {
                suite: TLS13_CHACHA20_POLY1305_SHA256,
                hash_provider: HashAlgorithm::SHA256,
                confidentiality_limit: u64::MAX,
            },
            hkdf_provider: HkdfSha256,
        },
    );
    let p = CryptoProvider { tls12_cipher_suites, tls13_cipher_suites, secure_random: Provider };
    assert(p.offered() =~= seq![
        TLS13_CHACHA20_POLY1305_SHA256,
        TLS_ECDHE_RSA_WITH_CHACHA20_POLY1305_SHA256,
    ]);
    p
}

/// A suite built on SHA-256.
pub open spec fn on_sha256<H>(suite: Tls13CipherSuite<H>) -> bool {
    suite.common.hash_provider == HashAlgorithm::SHA256
}

/// `TLS13_AES_128_GCM_SHA256`, built on SHA-256.
pub open spec fn is_aes_128<H>(suite: Tls13CipherSuite<H>) -> bool {
    on_sha256(suite) && suite.common.suite == TLS13_AES_128_GCM_SHA256
}

/// `i` is the suite that Reality takes its HKDF from: the first
/// `TLS13_AES_128_GCM_SHA256`, and only where there is none the first suite built
/// on SHA-256.
pub open spec fn reality_suite<H>(suites: Seq<Tls13CipherSuite<H>>, i: int) -> bool {
    &&& 0 <= i < suites.len()
    &&& on_sha256(suites[i])
    &&& if is_aes_128(suites[i]) {
        forall|k: int| 0 <= k < i ==> !is_aes_128(#[trigger] suites[k])
    } else {
        &&& forall|k: int| 0 <= k < suites.len() ==> !is_aes_128(#[trigger] suites[k])
        &&& forall|k: int| 0 <= k < i ==> !on_sha256(#[trigger] suites[k])
    }
}

/// The HKDF that Reality uses: that of `TLS13_AES_128_GCM_SHA256`, or else of the
/// first TLS 1.3 suite that is built on SHA-256.
pub fn get_hkdf_sha256_from_provider<R, H>(provider: &CryptoProvider<R, H>) -> (r: Result<
    &H,
    TlsError,
>)
    ensures
        r is Ok <==> exists|i: int|
            #![trigger provider.tls13_cipher_suites@[i]]
            0 <= i < provider.tls13_cipher_suites@.len()
                && provider.tls13_cipher_suites@[i].common.hash_provider == HashAlgorithm::SHA256,
        r matches Ok(hkdf) ==> exists|i: int| #[trigger]
            reality_suite(provider.tls13_cipher_suites@, i) && *hkdf
                == provider.tls13_cipher_suites@[i].hkdf_provider,
        r matches Err(e) ==> is_general(e, "Reality requires a TLS1.3 SHA-256 cipher suite"@),
{
    let ghost suites = provider.tls13_cipher_suites@;
    let mut found: Option<usize> = None;
    let mut i: usize = 0;
    while i < provider.tls13_cipher_suites.len()
        invariant
            suites == provider.tls13_cipher_suites@,
            i <= suites.len(),
            forall|k: int| 0 <= k < i ==> !is_aes_128(#[trigger] suites[k]),
            match found {
                Some(f) => f < i && on_sha256(suites[f as int]) && forall|k: int|
                    0 <= k < f ==> !on_sha256(#[trigger] suites[k]),
                None => forall|k: int| 0 <= k < i ==> !on_sha256(#[trigger] suites[k]),
            },
        decreases suites.len() - i,
    {
        let suite = &provider.tls13_cipher_suites[i];
        if suite.common.hash_provider == HashAlgorithm::SHA256 {
            if suite.common.suite == TLS13_AES_128_GCM_SHA256 {
                assert(reality_suite(suites, i as int));
                return Ok(&suite.hkdf_provider);
            }
            if found.is_none() {
                found = Some(i);
            }
        }
        i = i + 1;
    }
    match found {
        Some(f) => {
            assert(reality_suite(suites, f as int));
            Ok(&provider.tls13_cipher_suites[f].hkdf_provider)
        },
        None => {
            assert(forall|k: int| 0 <= k < suites.len() ==> !on_sha256(#[trigger] suites[k]));
            Err(general("Reality requires a TLS1.3 SHA-256 cipher suite"))
        },
    }
}

/// Only one HKDF meets the contract: no two places can be the suite that Reality
/// takes it from.
pub proof fn reality_suite_is_unique<H>(suites: Seq<Tls13CipherSuite<H>>, i: int, k: int)
    requires
        reality_suite(suites, i),
        reality_suite(suites, k),
    ensures
        i == k,
{
    if i < k {
        assert(on_sha256(suites[i]));
    } else if k < i {
        assert(on_sha256(suites[k]));
    }
}

/// Where the provider has `TLS13_AES_128_GCM_SHA256` on SHA-256, Reality takes its HKDF
/// from the first of that kind, whatever comes before it.
pub proof fn aes_128_goes_before_every_other_suite<H>(
    suites: Seq<Tls13CipherSuite<H>>,
    i: int,
    k: int,
)
    requires
        reality_suite(suites, i),
        0 <= k < suites.len(),
        suites[k].common.suite == 0x1301,
        suites[k].common.hash_provider == HashAlgorithm::SHA256,
    ensures
        0 <= i <= k,
        suites[i].common.suite == 0x1301,
        suites[i].common.hash_provider == HashAlgorithm::SHA256,
{
    assert(is_aes_128(suites[k]));
}

/// Where it has none, Reality takes its HKDF from the first suite on SHA-256.
pub proof fn else_the_first_suite_on_sha256<H>(
    suites: Seq<Tls13CipherSuite<H>>,
    i: int,
    k: int,
)
    requires
        reality_suite(suites, i),
        forall|m: int|
            0 <= m < suites.len() && (#[trigger] suites[m]).common.hash_provider
                == HashAlgorithm::SHA256 ==> suites[m].common.suite != 0x1301,
        0 <= k < suites.len(),
        suites[k].common.hash_provider == HashAlgorithm::SHA256,
    ensures
        0 <= i <= k,
        suites[i].common.hash_provider == HashAlgorithm::SHA256,
{
    if k < i {
        assert(on_sha256(suites[k]));
    }
}

/// Every suite is offered, in its own order, and those of TLS 1.3 first.
pub proof fn every_suite_is_offered<R, H>(provider: CryptoProvider<R, H>, i: int)
    ensures
        ({
            let first = provider.tls13_cipher_suites@;
            let then = provider.tls12_cipher_suites@;
            &&& provider.offered().len() == first.len() + then.len()
            &&& 0 <= i < first.len() ==> provider.offered()[i] == first[i].common.suite
            &&& 0 <= i < then.len() ==> provider.offered()[first.len() + i]
                == then[i].common.suite
        }),
{
}

} // verus!
