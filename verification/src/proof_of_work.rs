//! The proof of work of a header: the value that must meet the difficulty,
//! and the mix hash of the light Ethash computation.

use crate::error::Error;
use crate::header::{header_bare_hash, EthereumHeader, HeaderView};
use crate::pow::{lemma_seal_of_shape, seal_of, seal_parses, EthashPartial, EthashSeal, ParamsView};
use crate::primitives::{
    keccak256, keccak256_digest, keccak512, keccak512_digest, lemma_u256_bounded,
    u256_checked_add, u256_checked_div, u256_checked_mul, u256_modulus, u256_saturating_sub, H256,
    H64, U256,
};
use crate::rlp::{append_bytes, be_value, u256_from_be_bytes};
use vstd::arithmetic::div_mod::{lemma_fundamental_div_mod, lemma_fundamental_div_mod_converse};
use vstd::prelude::*;

verus! {

/// The bytes of `s` in the opposite order.
pub open spec fn reversed(s: Seq<u8>) -> Seq<u8> {
    Seq::new(s.len(), |i: int| s[s.len() - 1 - i])
}

/// The mix hash that the seal fields carry, where they parse.
pub open spec fn seal_mix_hash(seal: Seq<Seq<u8>>) -> Seq<u8> {
    seal[0].skip(1)
}

/// The nonce that the seal fields carry, where they parse.
pub open spec fn seal_nonce(seal: Seq<Seq<u8>>) -> Seq<u8> {
    seal[1].skip(1)
}

/// The seal fields of a mix hash and a nonce carry that mix hash and that nonce.
pub proof fn lemma_seal_carries(mix: Seq<u8>, nonce: Seq<u8>)
    requires
        mix.len() == 32,
        nonce.len() == 8,
    ensures
        seal_parses(seal_of(mix, nonce)),
        seal_mix_hash(seal_of(mix, nonce)) == mix,
        seal_nonce(seal_of(mix, nonce)) == nonce,
{
    lemma_seal_of_shape(mix, nonce);
    assert((seq![0xa0u8] + mix).skip(1) =~= mix);
    assert((seq![0x88u8] + nonce).skip(1) =~= nonce);
}

/// The number that the proof of work of a header comes to, given the mix
/// hash and the nonce of its seal.
pub open spec fn pow_value(h: HeaderView, mix: Seq<u8>, nonce: Seq<u8>) -> nat {
    be_value(keccak256_digest(keccak512_digest(header_bare_hash(h) + reversed(nonce)) + mix))
}

/// Whether a proof of work that comes to `value` is enough for `difficulty`:
/// the value is at most `2^256` divided by the difficulty.
pub open spec fn meets_difficulty(value: nat, difficulty: nat) -> bool {
    difficulty == 0 || value <= u256_modulus() / difficulty
}

/// The basic rules that a header must keep by itself: it is no easier than
/// the network allows, and, where its seal parses, its proof of work is
/// enough for its difficulty.
pub open spec fn block_alone_ok(p: ParamsView, h: HeaderView) -> bool {
    &&& h.difficulty >= p.minimum_difficulty
    &&& (seal_parses(h.seal) ==> meets_difficulty(
        pow_value(h, seal_mix_hash(h.seal), seal_nonce(h.seal)),
        h.difficulty,
    ))
}

/// The basic rule that a header must keep with respect to its parent: it is
/// later than its parent.
pub open spec fn block_family_ok(h: HeaderView, parent: HeaderView) -> bool {
    h.timestamp > parent.timestamp
}

/// All the basic rules: those that a header keeps by itself and the one
/// that it keeps with respect to its parent.
pub open spec fn block_basic_ok(p: ParamsView, h: HeaderView, parent: HeaderView) -> bool {
    block_alone_ok(p, h) && block_family_ok(h, parent)
}

/// Whether a proof of work that comes to `value` is enough for `difficulty`.
pub fn meets(value: &U256, difficulty: &U256) -> (r: bool)
    ensures
        r == meets_difficulty(value@, difficulty@),
{
    let one = U256::from_u64(1);
    if difficulty.is_zero() {
        return true;
    }
    proof {
        lemma_u256_bounded(*value);
    }
    if difficulty.equals(&one) {
        return true;
    }
    let top = U256::max_value();
    let ghost d = difficulty@ as int;
    let ghost m = top@ as int;
    let q = match u256_checked_div(top, *difficulty) {
        Some(q) => q,
        None => { return true; },
    };
    proof {
        lemma_fundamental_div_mod(m, d);
        assert(d * (m / d) == (m / d) * d) by (nonlinear_arith);
        assert(0 <= m % d < d) by (nonlinear_arith)
            requires
                d > 0,
        ;
        assert(q@ * difficulty@ <= m);
        assert(2 * q@ <= q@ * difficulty@) by (nonlinear_arith)
            requires
                difficulty@ >= 2,
        ;
    }
    let whole = match u256_checked_mul(q, *difficulty) {
        Some(p) => p,
        None => { return true; },
    };
    let rest = u256_saturating_sub(top, whole);
    assert(rest@ == m % d);
    let next = match u256_checked_add(rest, one) {
        Some(n) => n,
        None => { return true; },
    };
    let bound = if next.equals(difficulty) {
        proof {
            assert(m + 1 == (q@ + 1) * d + 0) by (nonlinear_arith)
                requires
                    m == q@ * d + (d - 1),
            ;
            lemma_fundamental_div_mod_converse(m + 1, d, q@ as int + 1, 0);
        }
        match u256_checked_add(q, one) {
            Some(b) => b,
            None => { return true; },
        }
    } else {
        proof {
            lemma_fundamental_div_mod_converse(m + 1, d, q@ as int, m % d + 1);
        }
        q
    };
    assert(bound@ == u256_modulus() / difficulty@);
    !bound.less_than(value)
}

impl EthashPartial {
    /// Checks the basic rules that `header` must keep by itself.
    pub fn verify_block_basic(&self, header: &EthereumHeader) -> (r: Result<(), Error>)
        ensures
            match r {
                Ok(_) => block_alone_ok(self@, header@),
                Err(e) => e == Error::BlockBasicVF && !block_alone_ok(self@, header@),
            },
    {
        if header.difficulty.less_than(&self.minimum_difficulty) {
            return Err(Error::BlockBasicVF);
        }
        match EthashSeal::parse_seal(&header.seal) {
            Err(_) => Ok(()),
            Ok(seal) => {
                proof {
                    lemma_seal_carries(seal.mix_hash@, seal.nonce@);
                }
                let value = quick_pow_value(header, &seal);
                if meets(&value, &header.difficulty) {
                    Ok(())
                } else {
                    Err(Error::BlockBasicVF)
                }
            },
        }
    }

    /// Checks the basic rule that `header` must keep with respect to `parent`.
    pub fn verify_block_family(&self, header: &EthereumHeader, parent: &EthereumHeader) -> (r:
        Result<(), Error>)
        ensures
            match r {
                Ok(_) => block_family_ok(header@, parent@),
                Err(e) => e == Error::BlockBasicVF && !block_family_ok(header@, parent@),
            },
    {
        if header.timestamp <= parent.timestamp {
            Err(Error::BlockBasicVF)
        } else {
            Ok(())
        }
    }
}

/// The number that the proof of work of `header` comes to under `seal`.
fn quick_pow_value(header: &EthereumHeader, seal: &EthashSeal) -> (r: U256)
    ensures
        r@ == pow_value(header@, seal.mix_hash@, seal.nonce@),
{
    let bare = header.bare_hash();
    let mut first: Vec<u8> = Vec::new();
    append_bytes(&mut first, bare.as_slice());
    let mut i: usize = 0;
    while i < 8
        invariant
            i <= 8,
            first@ == bare@ + reversed(seal.nonce@).subrange(0, i as int),
        decreases 8 - i,
    {
        first.push(seal.nonce[7 - i]);
        i += 1;
        assert(first@ =~= bare@ + reversed(seal.nonce@).subrange(0, i as int));
    }
    assert(reversed(seal.nonce@).subrange(0, 8) =~= reversed(seal.nonce@));
    let inner = keccak512(first.as_slice());
    let mut second: Vec<u8> = Vec::new();
    append_bytes(&mut second, inner.as_slice());
    append_bytes(&mut second, seal.mix_hash.as_slice());
    assert(second@ =~= inner@ + seal.mix_hash@);
    let outer = keccak256(second.as_slice());
    u256_from_be_bytes(&outer)
}

/// Blocks per Ethash epoch.
pub const EPOCH_LENGTH: u64 = 30000;

/// The number of epochs for which the mix hash is computed.
pub const MAX_EPOCH: u64 = 2048;

/// The largest cache that the light computation is run with: no epoch
/// below `MAX_EPOCH` takes more.
pub const MAX_CACHE_BYTES: usize = 0x1100_0000;

/// The size in bytes of the Ethash cache of an epoch, as `ethash::get_cache_size` computes it.
pub uninterp spec fn ethash_cache_size(epoch: u64) -> usize;

/// The size in bytes of the Ethash dataset of an epoch, as `ethash::get_full_size` computes it.
pub uninterp spec fn ethash_full_size(epoch: u64) -> usize;

/// The seed of an epoch: 32 zero bytes for the first epoch, and for each
/// further epoch the Keccak-256 digest of the seed of the epoch before.
pub open spec fn epoch_seed(epoch: nat) -> Seq<u8>
    decreases epoch,
{
    if epoch == 0 {
        Seq::new(32, |i: int| 0u8)
    } else {
        keccak256_digest(epoch_seed((epoch - 1) as nat))
    }
}

/// The Ethash cache of `size` bytes grown from `seed`, as `ethash::make_cache` fills it.
pub uninterp spec fn ethash_cache(size: usize, seed: Seq<u8>) -> Seq<u8>;

/// The mix hash and the result that `ethash::hashimoto_light` computes.
pub uninterp spec fn ethash_light(
    header_hash: Seq<u8>,
    nonce: Seq<u8>,
    full_size: usize,
    cache: Seq<u8>,
) -> (Seq<u8>, Seq<u8>);

/// Calls `ethash::get_cache_size`. The size is a function of the epoch alone;
/// the epoch is kept small enough for the arithmetic of the call.
#[verifier::external_body]
fn cache_size(epoch: u64) -> (r: usize)
    requires
        epoch < 2048,
        0x4_4000_0000 <= usize::MAX,
    ensures
        r == ethash_cache_size(epoch),
{
    ::ethash::get_cache_size(epoch as usize)
}

/// Calls `ethash::get_full_size`. The size is a function of the epoch alone;
/// the epoch is kept small enough for the arithmetic of the call.
#[verifier::external_body]
fn full_size(epoch: u64) -> (r: usize)
    requires
        epoch < 2048,
        0x4_4000_0000 <= usize::MAX,
    ensures
        r == ethash_full_size(epoch),
{
    ::ethash::get_full_size(epoch as usize)
}

/// Calls `ethash::get_seedhash`: it starts from 32 zero bytes and takes
/// their Keccak-256 digest once for each epoch up to `epoch`.
#[verifier::external_body]
fn seed_hash(epoch: u64) -> (r: H256)
    requires
        epoch < 2048,
    ensures
        r@ == epoch_seed(epoch as nat),
{
    ::ethash::get_seedhash(epoch as usize).0
}

/// Calls `ethash::make_cache` on a buffer of `size` bytes. The cache is a
/// function of the size and the seed; it has `size` bytes. The call needs a
/// size that is a positive multiple of 64; the size is kept within what the
/// largest supported epoch takes.
#[verifier::external_body]
fn make_cache(size: usize, seed: &H256) -> (r: Vec<u8>)
    requires
        64 <= size <= MAX_CACHE_BYTES,
        size % 64 == 0,
    ensures
        r@ == ethash_cache(size, seed@),
        r@.len() == size,
{
    let mut cache: Vec<u8> = vec![0u8; size];
    ::ethash::make_cache(&mut cache, ethereum_types::H256(*seed));
    cache
}

/// Calls `ethash::hashimoto_light`. The two digests are a function of the
/// arguments alone. The call needs a cache whose length is a positive
/// multiple of 64 and a dataset size of at least 128.
#[verifier::external_body]
fn hashimoto_light(header_hash: &H256, nonce: &H64, full_size: usize, cache: &Vec<u8>) -> (r: (
    H256,
    H256,
))
    requires
        full_size >= 128,
        cache@.len() >= 64,
        cache@.len() % 64 == 0,
    ensures
        (r.0@, r.1@) == ethash_light(header_hash@, nonce@, full_size, cache@),
{
    let (mix, result) = ::ethash::hashimoto_light(
        ethereum_types::H256(*header_hash),
        ethereum_types::H64(*nonce),
        full_size,
        cache,
    );
    (mix.0, result.0)
}

/// The seed and the sizes that the light computation works with in one epoch.
#[derive(Clone, Copy, Debug, PartialEq, Eq)]
pub struct EpochParams {
    /// The seed from which the cache is grown.
    pub seed: H256,
    /// The size of the cache in bytes.
    pub cache_bytes: usize,
    /// The size of the full dataset in bytes.
    pub full_bytes: usize,
}

/// Whether the light computation is run for `epoch`: the epoch is one of the
/// first 2048 and the machine can address its dataset.
pub open spec fn epoch_supported(epoch: u64) -> bool {
    epoch < 2048 && 0x4_4000_0000 <= usize::MAX
}

/// Whether the light computation can work with a cache and a dataset of
/// these sizes: the cache is a positive number of 64-byte rows, no larger
/// than `MAX_CACHE_BYTES`, and the dataset has at least one 128-byte page.
pub open spec fn sizes_usable(cache_bytes: usize, full_bytes: usize) -> bool {
    64 <= cache_bytes <= MAX_CACHE_BYTES && cache_bytes % 64 == 0 && full_bytes >= 128
}

/// The mix hash of the light computation with the given seed and sizes;
/// `None` where the sizes are not usable.
pub open spec fn light_mix_of(
    bare_hash: Seq<u8>,
    nonce: Seq<u8>,
    seed: Seq<u8>,
    cache_bytes: usize,
    full_bytes: usize,
) -> Option<Seq<u8>> {
    if sizes_usable(cache_bytes, full_bytes) {
        Some(ethash_light(bare_hash, nonce, full_bytes, ethash_cache(cache_bytes, seed)).0)
    } else {
        None
    }
}

/// The mix hash of the light computation for the block `number`: `None`
/// where its epoch is not supported or the sizes of the epoch are not usable.
pub open spec fn light_mix_hash(number: u64, bare_hash: Seq<u8>, nonce: Seq<u8>) -> Option<Seq<u8>> {
    let epoch = number / 30000;
    if epoch_supported(epoch) {
        light_mix_of(
            bare_hash,
            nonce,
            epoch_seed(epoch as nat),
            ethash_cache_size(epoch),
            ethash_full_size(epoch),
        )
    } else {
        None
    }
}

/// What `calculate_mixhash` returns for a header.
pub open spec fn mixhash_outcome(h: HeaderView) -> Result<Seq<u8>, Error> {
    if !seal_parses(h.seal) {
        Err(Error::SealParseErr)
    } else {
        match light_mix_hash(h.number, header_bare_hash(h), seal_nonce(h.seal)) {
            Some(mix) => Ok(mix),
            None => Err(Error::MixHashCF),
        }
    }
}

/// The seed and the sizes of the epoch of the block `number`; `None` where
/// the epoch is not supported.
pub fn epoch_params(number: u64) -> (r: Option<EpochParams>)
    ensures
        match r {
            Some(e) => {
                &&& epoch_supported(number / 30000)
                &&& e.seed@ == epoch_seed((number / 30000) as nat)
                &&& e.cache_bytes == ethash_cache_size(number / 30000)
                &&& e.full_bytes == ethash_full_size(number / 30000)
            },
            None => !epoch_supported(number / 30000),
        },
{
    let epoch: u64 = number / EPOCH_LENGTH;
    if epoch >= MAX_EPOCH || (usize::MAX as u64) < 0x4_4000_0000 {
        return None;
    }
    Some(
        EpochParams {
            seed: seed_hash(epoch),
            cache_bytes: cache_size(epoch),
            full_bytes: full_size(epoch),
        },
    )
}

/// The mix hash of the light computation over `bare_hash` and `nonce`, with
/// a cache of `cache_bytes` bytes grown from `seed` and a dataset of
/// `full_bytes` bytes; `None` where the sizes are not usable.
pub fn light_mix(
    bare_hash: &H256,
    nonce: &H64,
    seed: &H256,
    cache_bytes: usize,
    full_bytes: usize,
) -> (r: Option<H256>)
    ensures
        match r {
            Some(mix) => light_mix_of(bare_hash@, nonce@, seed@, cache_bytes, full_bytes) == Some(
                mix@,
            ),
            None => light_mix_of(bare_hash@, nonce@, seed@, cache_bytes, full_bytes) is None,
        },
{
    if cache_bytes < 64 || cache_bytes > MAX_CACHE_BYTES || cache_bytes % 64 != 0
        || full_bytes < 128
    {
        return None;
    }
    let cache = make_cache(cache_bytes, seed);
    let (mix, _result) = hashimoto_light(bare_hash, nonce, full_bytes, &cache);
    Some(mix)
}

impl EthashPartial {
    /// Computes the mix hash of `header` by the light computation, from the
    /// nonce in its seal.
    pub fn calculate_mixhash(&self, header: &EthereumHeader) -> (r: Result<H256, Error>)
        ensures
            match r {
                Ok(mix) => mixhash_outcome(header@) == Ok::<Seq<u8>, Error>(mix@),
                Err(e) => mixhash_outcome(header@) == Err::<Seq<u8>, Error>(e),
            },
    {
        let seal = match EthashSeal::parse_seal(&header.seal) {
            Ok(s) => s,
            Err(e) => { return Err(e); },
        };
        proof {
            lemma_seal_carries(seal.mix_hash@, seal.nonce@);
        }
        let epoch = match epoch_params(header.number) {
            Some(e) => e,
            None => { return Err(Error::MixHashCF); },
        };
        let bare = header.bare_hash();
        match light_mix(&bare, &seal.nonce, &epoch.seed, epoch.cache_bytes, epoch.full_bytes) {
            Some(mix) => Ok(mix),
            None => Err(Error::MixHashCF),
        }
    }
}

} // verus!
