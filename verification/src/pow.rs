//! Ethash: the seal of a header, the constants of a network and the
//! difficulty that the network prescribes for a block.

use crate::error::Error;
use crate::header::{EthereumHeader, HeaderView};
use crate::primitives::{
    bytes_eq, keccak256, keccak256_digest, u256_checked_add, u256_checked_div, u256_checked_mul,
    u256_modulus, u256_saturating_sub, H256, H64, U256,
};
use crate::rlp::{encode_list, rlp_list, rlp_string};
use vstd::arithmetic::power2::{lemma2_to64, lemma_pow2_adds, lemma_pow2_strictly_increases, lemma_pow2_unfold, pow2};
use vstd::prelude::*;

verus! {

/// The two fields that an Ethash seal carries.
#[derive(Clone, Copy, Debug, PartialEq, Eq)]
pub struct EthashSeal {
    pub mix_hash: H256,
    pub nonce: H64,
}

/// The seal fields that carry the mix hash `mix` and the nonce `nonce`: each
/// is the encoding of its byte string.
pub open spec fn seal_of(mix: Seq<u8>, nonce: Seq<u8>) -> Seq<Seq<u8>> {
    seq![rlp_string(mix), rlp_string(nonce)]
}

/// Whether `seal` carries some 32-byte mix hash and some 8-byte nonce.
pub open spec fn seal_parses(seal: Seq<Seq<u8>>) -> bool {
    exists|mix: Seq<u8>, nonce: Seq<u8>|
        mix.len() == 32 && nonce.len() == 8 && seal == #[trigger] seal_of(mix, nonce)
}

/// The seal fields of a 32-byte mix hash and an 8-byte nonce are each one
/// prefix byte followed by the bytes themselves.
pub proof fn lemma_seal_of_shape(mix: Seq<u8>, nonce: Seq<u8>)
    requires
        mix.len() == 32,
        nonce.len() == 8,
    ensures
        seal_of(mix, nonce).len() == 2,
        seal_of(mix, nonce)[0] == seq![0xa0u8] + mix,
        seal_of(mix, nonce)[1] == seq![0x88u8] + nonce,
{
    assert(rlp_string(mix) =~= seq![0xa0u8] + mix);
    assert(rlp_string(nonce) =~= seq![0x88u8] + nonce);
}

impl EthashSeal {
    /// Reads the mix hash and the nonce out of the seal fields of a header.
    pub fn parse_seal(seal: &Vec<Vec<u8>>) -> (r: Result<EthashSeal, Error>)
        ensures
            match r {
                Ok(s) => crate::rlp::views(seal@) == seal_of(s.mix_hash@, s.nonce@),
                Err(e) => e == Error::SealParseErr && !seal_parses(crate::rlp::views(seal@)),
            },
    {
        let ghost fields = crate::rlp::views(seal@);
        proof {
            assert forall|mix: Seq<u8>, nonce: Seq<u8>|
                mix.len() == 32 && nonce.len() == 8 && fields == #[trigger] seal_of(
                    mix,
                    nonce,
                ) implies fields.len() == 2 && fields[0] == seq![0xa0u8] + mix && fields[1] == seq![
                0x88u8,
            ] + nonce by {
                lemma_seal_of_shape(mix, nonce);
            }
        }
        if seal.len() != 2 {
            return Err(Error::SealParseErr);
        }
        let first = &seal[0];
        let second = &seal[1];
        assert(fields[0] == first@ && fields[1] == second@);
        if first.len() != 33 || second.len() != 9 {
            assert forall|mix: Seq<u8>, nonce: Seq<u8>|
                mix.len() == 32 && nonce.len() == 8 implies fields != #[trigger] seal_of(
                mix,
                nonce,
            ) by {
                if fields == seal_of(mix, nonce) {
                    assert((seq![0xa0u8] + mix).len() == 33);
                    assert((seq![0x88u8] + nonce).len() == 9);
                }
            }
            return Err(Error::SealParseErr);
        }
        if first[0] != 0xa0 || second[0] != 0x88 {
            assert forall|mix: Seq<u8>, nonce: Seq<u8>|
                mix.len() == 32 && nonce.len() == 8 implies fields != #[trigger] seal_of(
                mix,
                nonce,
            ) by {
                if fields == seal_of(mix, nonce) {
                    assert((seq![0xa0u8] + mix)[0] == 0xa0u8);
                    assert((seq![0x88u8] + nonce)[0] == 0x88u8);
                }
            }
            return Err(Error::SealParseErr);
        }
        let mut mix_hash: H256 = [0u8; 32];
        let mut i: usize = 0;
        while i < 32
            invariant
                i <= 32,
                first@.len() == 33,
                forall|j: int| 0 <= j < i ==> mix_hash@[j] == first@[j + 1],
            decreases 32 - i,
        {
            mix_hash[i] = first[i + 1];
            i += 1;
        }
        let mut nonce: H64 = [0u8; 8];
        let mut k: usize = 0;
        while k < 8
            invariant
                k <= 8,
                second@.len() == 9,
                forall|j: int| 0 <= j < k ==> nonce@[j] == second@[j + 1],
            decreases 8 - k,
        {
            nonce[k] = second[k + 1];
            k += 1;
        }
        proof {
            lemma_seal_of_shape(mix_hash@, nonce@);
            assert(first@ =~= seq![0xa0u8] + mix_hash@);
            assert(second@ =~= seq![0x88u8] + nonce@);
            assert(fields =~= seal_of(mix_hash@, nonce@));
        }
        Ok(EthashSeal { mix_hash, nonce })
    }
}

/// The Ethereum networks whose headers the light client can follow.
#[derive(Clone, Copy, Debug, PartialEq, Eq, Structural)]
pub enum EthereumNetworkType {
    Mainnet,
    Ropsten,
}

/// The constants of a network that govern the difficulty of its blocks.
#[derive(Debug, PartialEq, Eq)]
pub struct EthashPartial {
    /// No block may be easier than this.
    pub minimum_difficulty: U256,
    /// The difficulty moves in steps of the parent's difficulty divided by this.
    pub difficulty_bound_divisor: U256,
    /// Seconds per step of adjustment, from Homestead on.
    pub difficulty_increment_divisor: u64,
    /// Seconds per step of adjustment, from the uncle-aware rule on.
    pub metropolis_difficulty_increment_divisor: u64,
    /// Before Homestead, a block this many seconds after its parent eases the difficulty.
    pub duration_limit: u64,
    /// First block of the Homestead rule.
    pub homestead_transition: u64,
    /// First block of the uncle-aware rule.
    pub eip100b_transition: u64,
    /// First block without the exponential term.
    pub bomb_defuse_transition: u64,
    /// Pairs of a block number and the number of blocks by which the
    /// exponential term is set back from that block on.
    pub difficulty_bomb_delays: Vec<(u64, u64)>,
}

/// The mathematical content of the constants.
pub struct ParamsView {
    pub minimum_difficulty: nat,
    pub difficulty_bound_divisor: nat,
    pub difficulty_increment_divisor: u64,
    pub metropolis_difficulty_increment_divisor: u64,
    pub duration_limit: u64,
    pub homestead_transition: u64,
    pub eip100b_transition: u64,
    pub bomb_defuse_transition: u64,
    pub difficulty_bomb_delays: Seq<(u64, u64)>,
}

impl View for EthashPartial {
    type V = ParamsView;

    open spec fn view(&self) -> ParamsView {
        ParamsView {
            minimum_difficulty: self.minimum_difficulty@,
            difficulty_bound_divisor: self.difficulty_bound_divisor@,
            difficulty_increment_divisor: self.difficulty_increment_divisor,
            metropolis_difficulty_increment_divisor: self.metropolis_difficulty_increment_divisor,
            duration_limit: self.duration_limit,
            homestead_transition: self.homestead_transition,
            eip100b_transition: self.eip100b_transition,
            bomb_defuse_transition: self.bomb_defuse_transition,
            difficulty_bomb_delays: self.difficulty_bomb_delays@,
        }
    }
}

impl ParamsView {
    /// The constants are usable: no divisor is zero.
    pub open spec fn wf(self) -> bool {
        &&& self.difficulty_bound_divisor != 0
        &&& self.difficulty_increment_divisor != 0
        &&& self.metropolis_difficulty_increment_divisor != 0
    }
}

/// The constants of the main network.
pub open spec fn mainnet_params() -> ParamsView {
    ParamsView {
        minimum_difficulty: 131072,
        difficulty_bound_divisor: 2048,
        difficulty_increment_divisor: 10,
        metropolis_difficulty_increment_divisor: 9,
        duration_limit: 13,
        homestead_transition: 1150000,
        eip100b_transition: 4370000,
        bomb_defuse_transition: u64::MAX,
        difficulty_bomb_delays: seq![
            (4370000u64, 3000000u64),
            (7280000u64, 2000000u64),
            (9200000u64, 4000000u64),
        ],
    }
}

/// The constants of the Ropsten test network.
pub open spec fn ropsten_params() -> ParamsView {
    ParamsView {
        minimum_difficulty: 131072,
        difficulty_bound_divisor: 2048,
        difficulty_increment_divisor: 10,
        metropolis_difficulty_increment_divisor: 9,
        duration_limit: 13,
        homestead_transition: 0,
        eip100b_transition: 1700000,
        bomb_defuse_transition: u64::MAX,
        difficulty_bomb_delays: seq![
            (1700000u64, 3000000u64),
            (4230000u64, 2000000u64),
            (7117117u64, 4000000u64),
        ],
    }
}

/// The constants of `network`.
pub open spec fn network_params(network: EthereumNetworkType) -> ParamsView {
    match network {
        EthereumNetworkType::Mainnet => mainnet_params(),
        EthereumNetworkType::Ropsten => ropsten_params(),
    }
}

/// The hash of the empty list, which a block without uncles has as its
/// uncles hash.
pub open spec fn empty_list_hash() -> Seq<u8> {
    keccak256_digest(rlp_list(Seq::empty()))
}

/// The larger of `floor` and `x`.
pub open spec fn at_least(floor: nat, x: nat) -> nat {
    if x < floor {
        floor
    } else {
        x
    }
}

/// `step` taken `times` times.
pub open spec fn steps(step: nat, times: nat) -> nat {
    step * times
}

/// The difficulty of the parent, moved by the time that the block took.
/// The parent has uncles where its uncles hash is not `no_uncles`, the hash
/// of the empty list.
pub open spec fn adjusted_difficulty(
    p: ParamsView,
    number: u64,
    timestamp: u64,
    parent: HeaderView,
    no_uncles: Seq<u8>,
) -> nat {
    let step = parent.difficulty / p.difficulty_bound_divisor;
    if number < p.homestead_transition {
        if timestamp >= parent.timestamp + p.duration_limit {
            (parent.difficulty - step) as nat
        } else {
            parent.difficulty + step
        }
    } else {
        let threshold: nat = if number >= p.eip100b_transition && parent.uncles_hash != no_uncles {
            2
        } else {
            1
        };
        let divisor = if number < p.eip100b_transition {
            p.difficulty_increment_divisor
        } else {
            p.metropolis_difficulty_increment_divisor
        };
        let elapsed: nat = if timestamp >= parent.timestamp {
            (timestamp - parent.timestamp) as nat
        } else {
            0
        };
        let slow = elapsed / (divisor as nat);
        if slow <= threshold {
            parent.difficulty + steps(step, (threshold - slow) as nat)
        } else {
            let down = steps(step, if slow - threshold < 99 { (slow - threshold) as nat } else { 99 });
            if parent.difficulty >= down {
                (parent.difficulty - down) as nat
            } else {
                0
            }
        }
    }
}

/// The block number by which the exponential term goes, after every delay
/// that is in force at `number` has been taken off.
pub open spec fn delayed_number(delays: Seq<(u64, u64)>, number: u64) -> nat
    decreases delays.len(),
{
    if delays.len() == 0 {
        number as nat
    } else {
        let before = delayed_number(delays.drop_last(), number);
        let (from, delay) = delays.last();
        if number >= from {
            if before >= delay {
                (before - delay) as nat
            } else {
                0
            }
        } else {
            before
        }
    }
}

/// The exponential term: two to the power of the number of whole periods of
/// 100000 blocks, less two. Powers of 256 and more do not fit and count as zero.
pub open spec fn bomb(p: ParamsView, number: u64) -> nat {
    let period = delayed_number(p.difficulty_bomb_delays, number) / 100000;
    if number < p.bomb_defuse_transition && 2 <= period < 258 {
        pow2((period - 2) as nat)
    } else {
        0
    }
}

/// The difficulty that the network prescribes for a block with the given
/// number and timestamp on top of `parent`, where `no_uncles` is the hash
/// of the empty list.
pub open spec fn expected_difficulty_with(
    p: ParamsView,
    number: u64,
    timestamp: u64,
    parent: HeaderView,
    no_uncles: Seq<u8>,
) -> nat {
    at_least(
        p.minimum_difficulty,
        adjusted_difficulty(p, number, timestamp, parent, no_uncles),
    ) + bomb(p, number)
}

/// The difficulty that the network prescribes for a block with the given
/// number and timestamp on top of `parent`.
pub open spec fn expected_difficulty(
    p: ParamsView,
    number: u64,
    timestamp: u64,
    parent: HeaderView,
) -> nat {
    expected_difficulty_with(p, number, timestamp, parent, empty_list_hash())
}

/// `2^256` is the modulus of 256-bit integers.
pub proof fn lemma_modulus_is_pow2()
    ensures
        u256_modulus() == pow2(256),
{
    lemma2_to64();
    lemma_pow2_adds(64, 64);
    lemma_pow2_adds(128, 64);
    lemma_pow2_adds(192, 64);
}

/// Two to the power of `k`, for `k` below 256.
fn power_of_two(k: u64) -> (r: U256)
    requires
        k < 256,
    ensures
        r@ == pow2(k as nat),
{
    let mut r = U256::from_u64(1);
    let mut i: u64 = 0;
    proof {
        lemma2_to64();
    }
    while i < k
        invariant
            i <= k < 256,
            r@ == pow2(i as nat),
        decreases k - i,
    {
        proof {
            lemma_pow2_unfold((i + 1) as nat);
            lemma_pow2_strictly_increases((i + 1) as nat, 256);
            lemma_modulus_is_pow2();
        }
        r = match u256_checked_add(r, r) {
            Some(s) => s,
            None => r,
        };
        i += 1;
    }
    r
}

impl EthashPartial {
    /// The constants of the main network.
    pub fn production() -> (r: EthashPartial)
        ensures
            r@ == mainnet_params(),
            r@.wf(),
    {
        let mut delays: Vec<(u64, u64)> = Vec::new();
        delays.push((4370000u64, 3000000u64));
        delays.push((7280000u64, 2000000u64));
        delays.push((9200000u64, 4000000u64));
        assert(delays@ =~= mainnet_params().difficulty_bomb_delays);
        EthashPartial {
            minimum_difficulty: U256::from_u64(131072),
            difficulty_bound_divisor: U256::from_u64(2048),
            difficulty_increment_divisor: 10,
            metropolis_difficulty_increment_divisor: 9,
            duration_limit: 13,
            homestead_transition: 1150000,
            eip100b_transition: 4370000,
            bomb_defuse_transition: u64::MAX,
            difficulty_bomb_delays: delays,
        }
    }

    /// The constants of the Ropsten test network.
    pub fn ropsten_testnet() -> (r: EthashPartial)
        ensures
            r@ == ropsten_params(),
            r@.wf(),
    {
        let mut delays: Vec<(u64, u64)> = Vec::new();
        delays.push((1700000u64, 3000000u64));
        delays.push((4230000u64, 2000000u64));
        delays.push((7117117u64, 4000000u64));
        assert(delays@ =~= ropsten_params().difficulty_bomb_delays);
        EthashPartial {
            minimum_difficulty: U256::from_u64(131072),
            difficulty_bound_divisor: U256::from_u64(2048),
            difficulty_increment_divisor: 10,
            metropolis_difficulty_increment_divisor: 9,
            duration_limit: 13,
            homestead_transition: 0,
            eip100b_transition: 1700000,
            bomb_defuse_transition: u64::MAX,
            difficulty_bomb_delays: delays,
        }
    }

    /// The constants of `network`.
    pub fn for_network(network: EthereumNetworkType) -> (r: EthashPartial)
        ensures
            r@ == network_params(network),
            r@.wf(),
    {
        match network {
            EthereumNetworkType::Mainnet => EthashPartial::production(),
            EthereumNetworkType::Ropsten => EthashPartial::ropsten_testnet(),
        }
    }

    /// Whether no divisor among the constants is zero.
    pub fn is_well_formed(&self) -> (r: bool)
        ensures
            r == self@.wf(),
    {
        !self.difficulty_bound_divisor.is_zero() && self.difficulty_increment_divisor != 0
            && self.metropolis_difficulty_increment_divisor != 0
    }

    /// The block number by which the exponential term goes at `number`.
    fn delayed(&self, number: u64) -> (r: u64)
        ensures
            r == delayed_number(self@.difficulty_bomb_delays, number),
    {
        let ghost delays = self@.difficulty_bomb_delays;
        let mut r: u64 = number;
        let mut i: usize = 0;
        assert(delays.subrange(0, 0) =~= Seq::empty());
        while i < self.difficulty_bomb_delays.len()
            invariant
                i <= delays.len(),
                delays == self.difficulty_bomb_delays@,
                r == delayed_number(delays.subrange(0, i as int), number),
            decreases delays.len() - i,
        {
            let (from, delay) = self.difficulty_bomb_delays[i];
            proof {
                assert(delays.subrange(0, i + 1).drop_last() =~= delays.subrange(0, i as int));
                assert(delays.subrange(0, i + 1).last() == (from, delay));
            }
            if number >= from {
                r = if r >= delay {
                    r - delay
                } else {
                    0
                };
            }
            i += 1;
        }
        assert(delays.subrange(0, i as int) =~= delays);
        r
    }

    /// The parent's difficulty moved by the time the block took; `None` where
    /// it does not fit in 256 bits.
    fn adjust(&self, header: &EthereumHeader, parent: &EthereumHeader, no_uncles: &H256) -> (r:
        Option<U256>)
        requires
            self@.wf(),
        ensures
            match r {
                Some(d) => d@ == adjusted_difficulty(
                    self@,
                    header@.number,
                    header@.timestamp,
                    parent@,
                    no_uncles@,
                ),
                None => adjusted_difficulty(
                    self@,
                    header@.number,
                    header@.timestamp,
                    parent@,
                    no_uncles@,
                ) >= u256_modulus(),
            },
    {
        let step = match u256_checked_div(parent.difficulty, self.difficulty_bound_divisor) {
            Some(q) => q,
            None => { return None; },
        };
        assert(step@ <= parent.difficulty@) by (nonlinear_arith)
            requires
                step@ == parent.difficulty@ / self.difficulty_bound_divisor@,
                self.difficulty_bound_divisor@ != 0,
        ;
        if header.number < self.homestead_transition {
            let late = match parent.timestamp.checked_add(self.duration_limit) {
                Some(limit) => header.timestamp >= limit,
                None => false,
            };
            if late {
                Some(u256_saturating_sub(parent.difficulty, step))
            } else {
                u256_checked_add(parent.difficulty, step)
            }
        } else {
            let uncles = !bytes_eq(parent.uncles_hash.as_slice(), no_uncles.as_slice());
            let threshold: u64 = if header.number >= self.eip100b_transition && uncles {
                2
            } else {
                1
            };
            let divisor: u64 = if header.number < self.eip100b_transition {
                self.difficulty_increment_divisor
            } else {
                self.metropolis_difficulty_increment_divisor
            };
            let elapsed: u64 = if header.timestamp >= parent.timestamp {
                header.timestamp - parent.timestamp
            } else {
                0
            };
            let slow: u64 = elapsed / divisor;
            if slow <= threshold {
                let times: u64 = threshold - slow;
                match u256_checked_mul(step, U256::from_u64(times)) {
                    Some(up) => u256_checked_add(parent.difficulty, up),
                    None => None,
                }
            } else {
                let times: u64 = if slow - threshold < 99 {
                    slow - threshold
                } else {
                    99
                };
                match u256_checked_mul(step, U256::from_u64(times)) {
                    Some(down) => Some(u256_saturating_sub(parent.difficulty, down)),
                    None => Some(U256::zero()),
                }
            }
        }
    }

    /// The difficulty that the network prescribes for `header` on top of
    /// `parent`, where `no_uncles` is the hash of the empty list; `None`
    /// where the difficulty does not fit in 256 bits.
    pub fn calculate_difficulty_with(
        &self,
        header: &EthereumHeader,
        parent: &EthereumHeader,
        no_uncles: &H256,
    ) -> (r: Option<U256>)
        requires
            self@.wf(),
        ensures
            match r {
                Some(d) => d@ == expected_difficulty_with(
                    self@,
                    header@.number,
                    header@.timestamp,
                    parent@,
                    no_uncles@,
                ),
                None => expected_difficulty_with(
                    self@,
                    header@.number,
                    header@.timestamp,
                    parent@,
                    no_uncles@,
                ) >= u256_modulus(),
            },
    {
        let adjusted = match self.adjust(header, parent, no_uncles) {
            Some(a) => a,
            None => { return None; },
        };
        let target = self.minimum_difficulty.max(adjusted);
        let period: u64 = self.delayed(header.number) / 100000;
        if header.number < self.bomb_defuse_transition && 2 <= period && period < 258 {
            let term = power_of_two(period - 2);
            u256_checked_add(target, term)
        } else {
            Some(target)
        }
    }

    /// The difficulty that the network prescribes for `header` on top of
    /// `parent`; `None` where it does not fit in 256 bits.
    pub fn calculate_difficulty(&self, header: &EthereumHeader, parent: &EthereumHeader) -> (r:
        Option<U256>)
        requires
            self@.wf(),
        ensures
            match r {
                Some(d) => d@ == expected_difficulty(
                    self@,
                    header@.number,
                    header@.timestamp,
                    parent@,
                ),
                None => expected_difficulty(self@, header@.number, header@.timestamp, parent@)
                    >= u256_modulus(),
            },
    {
        let empty: Vec<u8> = Vec::new();
        let no_uncles = keccak256(encode_list(empty.as_slice()).as_slice());
        assert(empty@ =~= Seq::<u8>::empty());
        self.calculate_difficulty_with(header, parent, &no_uncles)
    }
}

} // verus!
