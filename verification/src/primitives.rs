//! Plain-value models of the Ethereum primitives the light client works on:
//! fixed-size byte strings, 256-bit unsigned integers and Keccak digests.

use vstd::prelude::*;

verus! {

/// A 32-byte digest.
pub type H256 = [u8; 32];

/// An 8-byte string (the Ethash nonce).
pub type H64 = [u8; 8];

/// A 20-byte account address.
pub type EthereumAddress = [u8; 20];

/// A 2048-bit log bloom filter.
pub type Bloom = [u8; 256];

/// A byte string of any length.
pub type Bytes = Vec<u8>;

/// The number of a block.
pub type EthereumBlockNumber = u64;

/// `2^256`, one more than the largest value a [`U256`] can hold.
pub open spec fn u256_modulus() -> nat {
    0x1_0000_0000_0000_0000nat * 0x1_0000_0000_0000_0000nat * 0x1_0000_0000_0000_0000nat
        * 0x1_0000_0000_0000_0000nat
}

/// The number that four 64-bit limbs stand for, least significant limb first.
pub open spec fn limbs_value(l: Seq<u64>) -> nat
    recommends
        l.len() == 4,
{
    (l[0] as nat + 0x1_0000_0000_0000_0000nat * (l[1] as nat + 0x1_0000_0000_0000_0000nat * (l[2] as nat
        + 0x1_0000_0000_0000_0000nat * (l[3] as nat)))) as nat
}

/// A 256-bit unsigned integer, held as four 64-bit limbs, least significant first.
#[derive(Clone, Copy, Debug, PartialEq, Eq)]
pub struct U256(pub [u64; 4]);

impl View for U256 {
    type V = nat;

    open spec fn view(&self) -> nat {
        limbs_value(self.0@)
    }
}

/// Two limb sequences that stand for the same number are the same sequence.
pub proof fn lemma_limbs_value_injective(a: Seq<u64>, b: Seq<u64>)
    requires
        a.len() == 4,
        b.len() == 4,
        limbs_value(a) == limbs_value(b),
    ensures
        a == b,
{
    assert(a[0] == b[0] && a[1] == b[1] && a[2] == b[2] && a[3] == b[3]);
    assert(a =~= b);
}

/// Every 256-bit integer is below `2^256`.
pub proof fn lemma_u256_bounded(x: U256)
    ensures
        x@ < u256_modulus(),
{
}

impl U256 {
    /// Zero.
    pub fn zero() -> (r: U256)
        ensures
            r@ == 0,
    {
        U256([0u64, 0u64, 0u64, 0u64])
    }

    /// The largest value, `2^256 - 1`.
    pub fn max_value() -> (r: U256)
        ensures
            r@ == u256_modulus() - 1,
    {
        U256([u64::MAX, u64::MAX, u64::MAX, u64::MAX])
    }

    /// The 256-bit integer with the value of `x`.
    pub fn from_u64(x: u64) -> (r: U256)
        ensures
            r@ == x,
    {
        U256([x, 0u64, 0u64, 0u64])
    }

    /// Whether the two integers have the same value.
    pub fn equals(&self, other: &U256) -> (r: bool)
        ensures
            r == (self@ == other@),
    {
        let r = self.0[0] == other.0[0] && self.0[1] == other.0[1] && self.0[2] == other.0[2]
            && self.0[3] == other.0[3];
        proof {
            if self@ == other@ {
                lemma_limbs_value_injective(self.0@, other.0@);
            }
        }
        r
    }

    /// Whether `self` is strictly smaller than `other`.
    pub fn less_than(&self, other: &U256) -> (r: bool)
        ensures
            r == (self@ < other@),
    {
        if self.0[3] != other.0[3] {
            self.0[3] < other.0[3]
        } else if self.0[2] != other.0[2] {
            self.0[2] < other.0[2]
        } else if self.0[1] != other.0[1] {
            self.0[1] < other.0[1]
        } else {
            self.0[0] < other.0[0]
        }
    }

    /// Whether the value is zero.
    pub fn is_zero(&self) -> (r: bool)
        ensures
            r == (self@ == 0),
    {
        self.0[0] == 0 && self.0[1] == 0 && self.0[2] == 0 && self.0[3] == 0
    }

    /// The larger of the two integers.
    pub fn max(self, other: U256) -> (r: U256)
        ensures
            r@ == (if self@ < other@ { other@ } else { self@ }),
            r == self || r == other,
    {
        if self.less_than(&other) {
            other
        } else {
            self
        }
    }
}

/// Whether two byte strings are equal.
pub fn bytes_eq(a: &[u8], b: &[u8]) -> (r: bool)
    ensures
        r == (a@ == b@),
{
    if a.len() != b.len() {
        return false;
    }
    let mut i: usize = 0;
    while i < a.len()
        invariant
            a@.len() == b@.len(),
            i <= a@.len(),
            forall|j: int| 0 <= j < i ==> a@[j] == b@[j],
        decreases a@.len() - i,
    {
        if a[i] != b[i] {
            return false;
        }
        i += 1;
    }
    assert(a@ =~= b@);
    true
}

/// Calls `primitive_types::U256::checked_add`: the sum of the two integers, or
/// `None` where the sum does not fit in 256 bits.
#[verifier::external_body]
pub(crate) fn u256_checked_add(a: U256, b: U256) -> (r: Option<U256>)
    ensures
        match r {
            Some(s) => s@ == a@ + b@,
            None => a@ + b@ >= u256_modulus(),
        },
{
    primitive_types::U256(a.0).checked_add(primitive_types::U256(b.0)).map(|s| U256(s.0))
}

/// Calls `primitive_types::U256::saturating_sub`: the difference of the two
/// integers, or zero where the second is the larger.
#[verifier::external_body]
pub(crate) fn u256_saturating_sub(a: U256, b: U256) -> (r: U256)
    ensures
        r@ == (if a@ >= b@ { a@ - b@ } else { 0 }),
{
    U256(primitive_types::U256(a.0).saturating_sub(primitive_types::U256(b.0)).0)
}

/// Calls `primitive_types::U256::checked_mul`: the product of the two integers,
/// or `None` where the product does not fit in 256 bits.
#[verifier::external_body]
pub(crate) fn u256_checked_mul(a: U256, b: U256) -> (r: Option<U256>)
    ensures
        match r {
            Some(p) => p@ == a@ * b@,
            None => a@ * b@ >= u256_modulus(),
        },
{
    primitive_types::U256(a.0).checked_mul(primitive_types::U256(b.0)).map(|p| U256(p.0))
}

/// Calls `primitive_types::U256::checked_div`: the quotient rounded down, or
/// `None` where the divisor is zero.
#[verifier::external_body]
pub(crate) fn u256_checked_div(a: U256, b: U256) -> (r: Option<U256>)
    ensures
        match r {
            Some(q) => b@ != 0 && q@ == a@ / b@,
            None => b@ == 0,
        },
{
    primitive_types::U256(a.0).checked_div(primitive_types::U256(b.0)).map(|q| U256(q.0))
}

/// The Keccak-256 digest of a byte string, as `keccak_hash::keccak` computes it.
pub uninterp spec fn keccak256_digest(data: Seq<u8>) -> Seq<u8>;

/// The Keccak-512 digest of a byte string, as `keccak_hash::keccak_512` computes it.
pub uninterp spec fn keccak512_digest(data: Seq<u8>) -> Seq<u8>;

/// Calls `keccak_hash::keccak`: the 32-byte Keccak-256 digest of `data`. The
/// digest is a function of the bytes alone; nothing more is claimed of it.
#[verifier::external_body]
pub(crate) fn keccak256(data: &[u8]) -> (r: H256)
    ensures
        r@ == keccak256_digest(data@),
{
    keccak_hash::keccak(data).0
}

/// Calls `keccak_hash::keccak_512`: the 64-byte Keccak-512 digest of `data`. The
/// digest is a function of the bytes alone; nothing more is claimed of it.
#[verifier::external_body]
pub(crate) fn keccak512(data: &[u8]) -> (r: [u8; 64])
    ensures
        r@ == keccak512_digest(data@),
{
    let mut out = [0u8; 64];
    keccak_hash::keccak_512(data, &mut out);
    out
}

} // verus!
