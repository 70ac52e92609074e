//! HKDF (RFC 5869).

use vstd::prelude::*;

use crate::crypto::{hmac_sha256, hmac_sha256_tag};
use crate::error::OutputLengthError;

verus! {

/// Output length of SHA-256.
pub const HASH_LEN: usize = 32;

/// The most that one expansion can give: 255 blocks.
pub const MAX_OKM_LEN: usize = 8160;

/// The bytes of an optional slice.
pub open spec fn slice_option(s: Option<&[u8]>) -> Option<Seq<u8>> {
    match s {
        Some(bytes) => Some(bytes@),
        None => None,
    }
}

/// The second half of HKDF: stretches an extracted key.
pub trait HkdfExpander {
    /// The output key material for `info`, or nothing if `len` is too much.
    spec fn okm(&self, info: Seq<u8>, len: nat) -> Option<Seq<u8>>;

    /// Fills `output` with key material, or fails and leaves it as it was.
    fn expand_slice(&self, info: &[u8], output: &mut [u8]) -> (r: Result<(), OutputLengthError>)
        ensures
            match self.okm(info@, old(output)@.len()) {
                Some(okm) => r is Ok && final(output)@ == okm,
                None => r is Err && final(output)@ == old(output)@,
            },
    ;
}

/// The first half of HKDF: condenses a secret into a key.
pub trait Hkdf {
    /// What `extract_from_secret` gives.
    type Expander: HkdfExpander;

    /// The output key material of extraction followed by expansion.
    spec fn okm(
        &self,
        salt: Option<Seq<u8>>,
        secret: Seq<u8>,
        info: Seq<u8>,
        len: nat,
    ) -> Option<Seq<u8>>;

    /// Condenses `secret`, salted with `salt`, into a key ready for expansion.
    fn extract_from_secret(&self, salt: Option<&[u8]>, secret: &[u8]) -> (expander: Self::Expander)
        ensures
            forall|info: Seq<u8>, len: nat| #[trigger]
                expander.okm(info, len) == self.okm(slice_option(salt), secret@, info, len),
    ;
}

/// HKDF over HMAC-SHA256.
#[derive(Clone, Copy, Debug)]
pub struct HkdfSha256;

/// A pseudorandom key that [`HkdfSha256`] has extracted.
pub struct HkdfSha256Expander {
    prk: [u8; 32],
}

/// The salt that stands in for a missing one: a hash length of zeros.
pub open spec fn zero_salt() -> Seq<u8> {
    Seq::new(HASH_LEN as nat, |i: int| 0u8)
}

/// HKDF-Extract: the pseudorandom key.
pub open spec fn hkdf_prk(salt: Option<Seq<u8>>, secret: Seq<u8>) -> Seq<u8> {
    match salt {
        Some(s) => hmac_sha256_tag(s, secret),
        None => hmac_sha256_tag(zero_salt(), secret),
    }
}

/// The `n`th block of HKDF-Expand, counted from one; the block before the first is empty.
pub open spec fn hkdf_block(prk: Seq<u8>, info: Seq<u8>, n: nat) -> Seq<u8>
    decreases n,
{
    if n == 0 {
        Seq::empty()
    } else {
        hmac_sha256_tag(prk, hkdf_block(prk, info, (n - 1) as nat) + info + seq![n as u8])
    }
}

/// The first `n` blocks of HKDF-Expand in a row.
pub open spec fn hkdf_blocks(prk: Seq<u8>, info: Seq<u8>, n: nat) -> Seq<u8>
    decreases n,
{
    if n == 0 {
        Seq::empty()
    } else {
        hkdf_blocks(prk, info, (n - 1) as nat) + hkdf_block(prk, info, n)
    }
}

/// HKDF-Expand: the leading `len` bytes of as many blocks as it takes.
pub open spec fn hkdf_expanded(prk: Seq<u8>, info: Seq<u8>, len: nat) -> Option<Seq<u8>> {
    if len <= MAX_OKM_LEN {
        Some(hkdf_blocks(prk, info, (len + HASH_LEN - 1) as nat / HASH_LEN as nat).take(len as int))
    } else {
        None
    }
}

impl HkdfSha256Expander {
    /// The pseudorandom key.
    pub closed spec fn prk(&self) -> Seq<u8> {
        self.prk@
    }
}

/// Computes the first `n` blocks of an expansion.
fn expand_blocks(prk: &[u8; 32], info: &[u8], n: usize) -> (stream: Vec<u8>)
    requires
        n <= 255,
    ensures
        stream@ == hkdf_blocks(prk@, info@, n as nat),
        stream@.len() == n * HASH_LEN,
{
    let mut stream: Vec<u8> = Vec::new();
    let mut block: Vec<u8> = Vec::new();
    let mut i: usize = 0;
    while i < n
        invariant
            i <= n <= 255,
            block@ == hkdf_block(prk@, info@, i as nat),
            stream@ == hkdf_blocks(prk@, info@, i as nat),
            stream@.len() == i * HASH_LEN,
        decreases n - i,
    {
        let mut data: Vec<u8> = Vec::new();
        data.extend_from_slice(block.as_slice());
        data.extend_from_slice(info);
        data.push((i + 1) as u8);
        assert(data@ =~= block@ + info@ + seq![(i + 1) as u8]);
        let tag = hmac_sha256(prk, data.as_slice());
        block = Vec::new();
        block.extend_from_slice(&tag);
        assert(block@ =~= tag@);
        stream.extend_from_slice(&tag);
        i = i + 1;
        assert(stream@ =~= hkdf_blocks(prk@, info@, (i - 1) as nat) + tag@);
    }
    stream
}

impl HkdfExpander for HkdfSha256Expander {
    open spec fn okm(&self, info: Seq<u8>, len: nat) -> Option<Seq<u8>> {
        hkdf_expanded(self.prk(), info, len)
    }

    fn expand_slice(&self, info: &[u8], output: &mut [u8]) -> (r: Result<(), OutputLengthError>) {
        let len: usize = output.len();
        if len > MAX_OKM_LEN {
            return Err(OutputLengthError);
        }
        let stream = expand_blocks(&self.prk, info, (len + HASH_LEN - 1) / HASH_LEN);
        let mut k: usize = 0;
        while k < len
            invariant
                k <= len,
                len == output@.len(),
                len == old(output)@.len(),
                len <= stream@.len(),
                forall|m: int| 0 <= m < k ==> output@[m] == stream@[m],
            decreases len - k,
        {
            output[k] = stream[k];
            k = k + 1;
        }
        assert(output@ =~= stream@.take(len as int));
        Ok(())
    }
}

impl Hkdf for HkdfSha256 {
    type Expander = HkdfSha256Expander;

    open spec fn okm(
        &self,
        salt: Option<Seq<u8>>,
        secret: Seq<u8>,
        info: Seq<u8>,
        len: nat,
    ) -> Option<Seq<u8>> {
        hkdf_expanded(hkdf_prk(salt, secret), info, len)
    }

    fn extract_from_secret(
        &self,
        salt: Option<&[u8]>,
        secret: &[u8],
    ) -> (expander: HkdfSha256Expander) {
        let prk = match salt {
            Some(s) => hmac_sha256(s, secret),
            None => {
                let zeros = [0u8; 32];
                assert(zeros@ =~= zero_salt());
                hmac_sha256(&zeros, secret)
            },
        };
        HkdfSha256Expander { prk }
    }
}

/// A missing salt counts as thirty-two zeros, and a given one is used whole.
pub proof fn a_missing_salt_is_zeros(salt: Seq<u8>, secret: Seq<u8>)
    ensures
        hkdf_prk(Some(salt), secret) == hmac_sha256_tag(salt, secret),
        salt.len() == 32 && (forall|i: int| 0 <= i < 32 ==> #[trigger] salt[i] == 0) ==> hkdf_prk(
            None,
            secret,
        ) == hkdf_prk(Some(salt), secret),
{
    if salt.len() == 32 && (forall|i: int| 0 <= i < 32 ==> #[trigger] salt[i] == 0) {
        assert(salt =~= zero_salt());
    }
}

/// Each block is the HMAC of the block before it, the info and the block's number; the
/// first has nothing before it.
pub proof fn each_block_hangs_on_the_one_before(prk: Seq<u8>, info: Seq<u8>, n: u8)
    ensures
        n == 1 ==> hkdf_block(prk, info, 1) == hmac_sha256_tag(prk, info + seq![1u8]),
        n > 1 ==> hkdf_block(prk, info, n as nat) == hmac_sha256_tag(
            prk,
            hkdf_block(prk, info, (n - 1) as nat) + info + seq![n],
        ),
{
    reveal_with_fuel(hkdf_block, 2);
    assert(Seq::<u8>::empty() + info + seq![1u8] =~= info + seq![1u8]);
}

/// The blocks stand in a row, each behind those before it.
pub proof fn the_blocks_stand_in_a_row(prk: Seq<u8>, info: Seq<u8>, n: nat)
    ensures
        hkdf_blocks(prk, info, 1) == hkdf_block(prk, info, 1),
        hkdf_blocks(prk, info, n + 1) == hkdf_blocks(prk, info, n) + hkdf_block(prk, info, n + 1),
{
    reveal_with_fuel(hkdf_blocks, 2);
    assert(Seq::<u8>::empty() + hkdf_block(prk, info, 1) =~= hkdf_block(prk, info, 1));
}

/// Asking for less gives the beginning of what asking for more gives, as long as one block
/// has thirty-two bytes; and up to 255 blocks can be had, no more.
pub proof fn a_shorter_expansion_is_the_beginning_of_a_longer_one(
    prk: Seq<u8>,
    info: Seq<u8>,
    len: nat,
    longer: nat,
)
    requires
        len <= longer,
        forall|n: nat| (#[trigger] hkdf_block(prk, info, n)).len() == if n == 0 {
            0nat
        } else {
            32nat
        },
    ensures
        hkdf_expanded(prk, info, longer) is Some <==> longer <= 255 * 32,
        hkdf_expanded(prk, info, longer) matches Some(all) ==> all.len() == longer
            && hkdf_expanded(prk, info, len) == Some(all.take(len as int)),
        longer <= 32 && longer > 0 ==> hkdf_expanded(prk, info, longer) == Some(
            hmac_sha256_tag(prk, info + seq![1u8]).take(longer as int),
        ),
{
    if longer <= 255 * 32 {
        let n = (len + 31) as nat / 32;
        let m = (longer + 31) as nat / 32;
        lemma_blocks_len(prk, info, n);
        lemma_blocks_len(prk, info, m);
        lemma_blocks_begin(prk, info, n, m);
        assert(n <= m);
        assert(len <= 32 * n && longer <= 32 * m);
        assert(hkdf_blocks(prk, info, n).take(len as int) =~= hkdf_blocks(prk, info, m).take(
            longer as int,
        ).take(len as int));
        if 0 < longer <= 32 {
            assert(m == 1);
            the_blocks_stand_in_a_row(prk, info, 0);
            each_block_hangs_on_the_one_before(prk, info, 1);
        }
    }
}

proof fn lemma_blocks_len(prk: Seq<u8>, info: Seq<u8>, n: nat)
    requires
        forall|k: nat| (#[trigger] hkdf_block(prk, info, k)).len() == if k == 0 {
            0nat
        } else {
            32nat
        },
    ensures
        hkdf_blocks(prk, info, n).len() == 32 * n,
    decreases n,
{
    if n > 0 {
        lemma_blocks_len(prk, info, (n - 1) as nat);
        assert(hkdf_block(prk, info, n).len() == 32);
    }
}

proof fn lemma_blocks_begin(prk: Seq<u8>, info: Seq<u8>, n: nat, m: nat)
    requires
        n <= m,
        forall|k: nat| (#[trigger] hkdf_block(prk, info, k)).len() == if k == 0 {
            0nat
        } else {
            32nat
        },
    ensures
        hkdf_blocks(prk, info, n).len() <= hkdf_blocks(prk, info, m).len(),
        hkdf_blocks(prk, info, m).take(hkdf_blocks(prk, info, n).len() as int) == hkdf_blocks(
            prk,
            info,
            n,
        ),
    decreases m,
{
    let short = hkdf_blocks(prk, info, n);
    if n == m {
        assert(short.take(short.len() as int) =~= short);
    } else {
        lemma_blocks_begin(prk, info, n, (m - 1) as nat);
        assert(hkdf_blocks(prk, info, m).take(short.len() as int) =~= hkdf_blocks(
            prk,
            info,
            (m - 1) as nat,
        ).take(short.len() as int));
    }
}

/// Extraction and expansion belong together: what is expanded is what was extracted.
pub proof fn extraction_feeds_expansion(
    salt: Option<Seq<u8>>,
    secret: Seq<u8>,
    info: Seq<u8>,
    len: nat,
    expander: HkdfSha256Expander,
)
    ensures
        expander.prk() == hkdf_prk(salt, secret) ==> HkdfSha256.okm(salt, secret, info, len)
            == expander.okm(info, len),
        HkdfSha256.okm(salt, secret, info, len) == hkdf_expanded(
            hkdf_prk(salt, secret),
            info,
            len,
        ),
{
}

/// A salt that is given is not overlooked.
pub proof fn a_given_salt_is_not_overlooked(salt: &[u8])
    ensures
        slice_option(Some(salt)) == Some(salt@),
        slice_option(None) is None,
{
}

/// Asking for whole blocks gives the blocks in a row, all of them.
pub proof fn whole_blocks_come_out_whole(prk: Seq<u8>, info: Seq<u8>, n: nat)
    requires
        n <= 255,
        forall|k: nat| (#[trigger] hkdf_block(prk, info, k)).len() == if k == 0 {
            0nat
        } else {
            32nat
        },
    ensures
        hkdf_expanded(prk, info, 32 * n) == Some(hkdf_blocks(prk, info, n)),
{
    lemma_blocks_len(prk, info, n);
    assert((32 * n + 31) as nat / 32 == n);
    assert(hkdf_blocks(prk, info, n).take(32 * n as int) =~= hkdf_blocks(prk, info, n));
}

} // verus!
