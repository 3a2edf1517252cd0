//! The header store: the genesis header, the watermark of the trusted
//! authority, the headers admitted so far and the tip of the chain.

use crate::error::Error;
use crate::header::{EthereumHeader, HeaderView};
use crate::primitives::{
    bytes_eq, u256_checked_add, u256_modulus, EthereumBlockNumber, H256, U256,
};
use vstd::prelude::*;

verus! {

/// Summary of the header appended last.
#[derive(Clone, Copy, Debug, PartialEq, Eq)]
pub struct HeaderChainLatest {
    pub hash: H256,
    pub number: EthereumBlockNumber,
    pub parent_hash: H256,
    /// Sum of the difficulties of all headers appended so far.
    pub total_difficulty: U256,
}

impl Default for HeaderChainLatest {
    fn default() -> (r: Self)
        ensures
            r.total_difficulty@ == 0,
            r.number == 0,
            r.hash@ == Seq::new(32, |i: int| 0u8),
            r.parent_hash@ == Seq::new(32, |i: int| 0u8),
    {
        let r = HeaderChainLatest {
            hash: [0u8; 32],
            number: 0,
            parent_hash: [0u8; 32],
            total_difficulty: U256::zero(),
        };
        assert(r.hash@ =~= Seq::new(32, |i: int| 0u8));
        assert(r.parent_hash@ =~= Seq::new(32, |i: int| 0u8));
        r
    }
}

/// The mathematical content of the tip summary.
pub struct TipView {
    pub hash: Seq<u8>,
    pub number: u64,
    pub parent_hash: Seq<u8>,
    pub total_difficulty: nat,
}

impl View for HeaderChainLatest {
    type V = TipView;

    open spec fn view(&self) -> TipView {
        TipView {
            hash: self.hash@,
            number: self.number,
            parent_hash: self.parent_hash@,
            total_difficulty: self.total_difficulty@,
        }
    }
}

/// The first header of `headers` with the hash `hash`.
pub open spec fn find_by_hash(headers: Seq<HeaderView>, hash: Seq<u8>) -> Option<HeaderView>
    decreases headers.len(),
{
    if headers.len() == 0 {
        None
    } else {
        match find_by_hash(headers.drop_last(), hash) {
            Some(h) => Some(h),
            None => if headers.last().hash == hash {
                Some(headers.last())
            } else {
                None
            },
        }
    }
}

/// The header of `headers` that was stored last with the number `number`.
pub open spec fn find_by_number(headers: Seq<HeaderView>, number: u64) -> Option<HeaderView>
    decreases headers.len(),
{
    if headers.len() == 0 {
        None
    } else if headers.last().number == number {
        Some(headers.last())
    } else {
        find_by_number(headers.drop_last(), number)
    }
}

/// The mathematical content of the store.
pub struct StoreView {
    /// The genesis header, once it is set.
    pub genesis: Option<HeaderView>,
    /// The highest block number that the trusted authority attests.
    pub auth_best_number: u64,
    /// The stored headers, in the order in which they were stored.
    pub headers: Seq<HeaderView>,
    /// The summary of the header appended last.
    pub tip: Option<TipView>,
}

impl StoreView {
    /// The header stored under `hash`: the first that was stored with it.
    pub open spec fn header(self, hash: Seq<u8>) -> Option<HeaderView> {
        find_by_hash(self.headers, hash)
    }

    /// The header stored for the block `number`: the last that was stored with it.
    pub open spec fn header_by_number(self, number: u64) -> Option<HeaderView> {
        find_by_number(self.headers, number)
    }

    /// The total difficulty accumulated so far; zero before the first append.
    pub open spec fn total_difficulty(self) -> nat {
        match self.tip {
            Some(t) => t.total_difficulty,
            None => 0,
        }
    }

    /// The store after `h` has been stored.
    pub open spec fn with_header(self, h: HeaderView) -> StoreView {
        StoreView { headers: self.headers.push(h), ..self }
    }

    /// The store after the tip has moved to `h`.
    pub open spec fn with_tip(self, h: HeaderView) -> StoreView {
        StoreView {
            tip: Some(
                TipView {
                    hash: h.hash,
                    number: h.number,
                    parent_hash: h.parent_hash,
                    total_difficulty: self.total_difficulty() + h.difficulty,
                },
            ),
            ..self
        }
    }

    /// The store after `h` has been appended to the chain.
    pub open spec fn appended(self, h: HeaderView) -> StoreView {
        self.with_header(h).with_tip(h)
    }

    /// The store after `h` has been set as the genesis header.
    pub open spec fn with_genesis(self, h: HeaderView) -> StoreView {
        StoreView { genesis: Some(h), ..self.with_header(h) }
    }
}

/// A header found among the first headers is found among all of them.
pub proof fn lemma_find_by_hash_extends(headers: Seq<HeaderView>, k: int, hash: Seq<u8>)
    requires
        0 <= k <= headers.len(),
        find_by_hash(headers.subrange(0, k), hash) is Some,
    ensures
        find_by_hash(headers, hash) == find_by_hash(headers.subrange(0, k), hash),
    decreases headers.len() - k,
{
    if k < headers.len() {
        assert(headers.subrange(0, k + 1).drop_last() =~= headers.subrange(0, k));
        lemma_find_by_hash_extends(headers, k + 1, hash);
    } else {
        assert(headers.subrange(0, k) =~= headers);
    }
}

/// The header store. Headers are only ever added; the genesis header is set once.
pub struct HeaderStore {
    genesis: Option<EthereumHeader>,
    auth_best_number: EthereumBlockNumber,
    headers: Vec<EthereumHeader>,
    tip: Option<HeaderChainLatest>,
}

impl View for HeaderStore {
    type V = StoreView;

    closed spec fn view(&self) -> StoreView {
        StoreView {
            genesis: match self.genesis {
                Some(g) => Some(g@),
                None => None,
            },
            auth_best_number: self.auth_best_number,
            headers: Seq::new(self.headers@.len(), |i: int| self.headers@[i]@),
            tip: match self.tip {
                Some(t) => Some(t@),
                None => None,
            },
        }
    }
}

impl HeaderStore {
    /// An empty store: no genesis header, no header, no tip.
    pub fn new(auth_best_number: EthereumBlockNumber) -> (r: HeaderStore)
        ensures
            r@ == (StoreView {
                genesis: None,
                auth_best_number,
                headers: Seq::empty(),
                tip: None,
            }),
    {
        let r = HeaderStore { genesis: None, auth_best_number, headers: Vec::new(), tip: None };
        assert(r@.headers =~= Seq::empty());
        r
    }

    /// The genesis header, if it is set.
    pub fn genesis_header(&self) -> (r: Option<&EthereumHeader>)
        ensures
            match r {
                Some(g) => self@.genesis == Some(g@),
                None => self@.genesis is None,
            },
    {
        self.genesis.as_ref()
    }

    /// The highest block number that the trusted authority attests.
    pub fn auth_best_number(&self) -> (r: EthereumBlockNumber)
        ensures
            r == self@.auth_best_number,
    {
        self.auth_best_number
    }

    /// Records a new watermark of the trusted authority. Nothing else changes.
    pub fn set_auth_best_number(&mut self, number: EthereumBlockNumber)
        ensures
            final(self)@ == (StoreView { auth_best_number: number, ..old(self)@ }),
    {
        self.auth_best_number = number;
        assert(self@.headers =~= old(self)@.headers);
    }

    /// The summary of the header appended last, if any was.
    pub fn header_chain(&self) -> (r: Option<HeaderChainLatest>)
        ensures
            match r {
                Some(t) => self@.tip == Some(t@),
                None => self@.tip is None,
            },
    {
        self.tip
    }

    /// The header stored under `hash`.
    pub fn header(&self, hash: &H256) -> (r: Option<&EthereumHeader>)
        ensures
            match r {
                Some(h) => self@.header(hash@) == Some(h@),
                None => self@.header(hash@) is None,
            },
    {
        let ghost all = self@.headers;
        let mut i: usize = 0;
        while i < self.headers.len()
            invariant
                i <= self.headers@.len(),
                all == self@.headers,
                find_by_hash(all.subrange(0, i as int), hash@) is None,
            decreases self.headers@.len() - i,
        {
            proof {
                assert(all.subrange(0, i + 1).drop_last() =~= all.subrange(0, i as int));
            }
            if bytes_eq(self.headers[i].hash.as_slice(), hash.as_slice()) {
                proof {
                    lemma_find_by_hash_extends(all, i + 1, hash@);
                }
                return Some(&self.headers[i]);
            }
            i += 1;
        }
        assert(all.subrange(0, i as int) =~= all);
        None
    }

    /// The header stored for the block `number`: where several were stored
    /// for it, the one stored last.
    pub fn header_by_number(&self, number: EthereumBlockNumber) -> (r: Option<&EthereumHeader>)
        ensures
            match r {
                Some(h) => self@.header_by_number(number) == Some(h@),
                None => self@.header_by_number(number) is None,
            },
    {
        let ghost all = self@.headers;
        let mut i: usize = self.headers.len();
        assert(all.subrange(0, i as int) =~= all);
        while i > 0
            invariant
                i <= self.headers@.len(),
                all == self@.headers,
                find_by_number(all, number) == find_by_number(all.subrange(0, i as int), number),
            decreases i,
        {
            proof {
                assert(all.subrange(0, i as int).drop_last() =~= all.subrange(0, i - 1));
                assert(all.subrange(0, i as int).last() == all[i - 1]);
            }
            i -= 1;
            if self.headers[i].number == number {
                return Some(&self.headers[i]);
            }
        }
        None
    }

    /// Whether the total difficulty can grow by `difficulty` without leaving 256 bits.
    pub fn can_accumulate(&self, difficulty: &U256) -> (r: bool)
        ensures
            r == (self@.total_difficulty() + difficulty@ < u256_modulus()),
    {
        let total = match self.tip {
            Some(t) => t.total_difficulty,
            None => U256::zero(),
        };
        u256_checked_add(total, *difficulty).is_some()
    }

    /// Sets the genesis header, unless one is set already. The genesis header
    /// is stored with the other headers, so that its children find their parent.
    pub fn set_genesis_once(&mut self, header: EthereumHeader) -> (r: Result<(), Error>)
        ensures
            match r {
                Ok(_) => old(self)@.genesis is None && final(self)@ == old(self)@.with_genesis(header@),
                Err(e) => e == Error::GenesisSetFailed && old(self)@.genesis is Some && final(self)@
                    == old(self)@,
            },
    {
        if self.genesis.is_some() {
            return Err(Error::GenesisSetFailed);
        }
        let copy = header.clone();
        self.headers.push(header);
        self.genesis = Some(copy);
        assert(self@.headers =~= old(self)@.headers.push(header@));
        Ok(())
    }

    /// Stores `header` and moves the tip to it, as one step. The header is
    /// then the one stored for its block number.
    pub fn append(&mut self, header: EthereumHeader)
        requires
            old(self)@.total_difficulty() + header@.difficulty < u256_modulus(),
        ensures
            final(self)@ == old(self)@.appended(header@),
            final(self)@.header_by_number(header@.number) == Some(header@),
    {
        let total = match self.tip {
            Some(t) => t.total_difficulty,
            None => U256::zero(),
        };
        let sum = match u256_checked_add(total, header.difficulty) {
            Some(s) => s,
            None => total,
        };
        let tip = HeaderChainLatest {
            hash: header.hash,
            number: header.number,
            parent_hash: header.parent_hash,
            total_difficulty: sum,
        };
        self.headers.push(header);
        self.tip = Some(tip);
        assert(self@.headers =~= old(self)@.headers.push(header@));
        assert(self@.headers.last() == header@);
    }
}

} // verus!
