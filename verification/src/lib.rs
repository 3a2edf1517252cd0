//! Verification core of an Ethereum light client: header validation, the
//! append-only header chain with its finality rule, and receipt proofs.

pub mod error;
pub mod header;
pub mod laws;
pub mod pow;
pub mod primitives;
pub mod proof_of_work;
pub mod receipt;
pub mod rlp;
pub mod store;
pub mod trie;

use crate::error::Error;
use crate::header::{header_bare_hash, header_hash, EthereumHeader, HeaderView};
use crate::pow::{
    expected_difficulty, network_params, seal_parses, EthashPartial, EthashSeal,
    EthereumNetworkType, ParamsView,
};
use crate::primitives::{bytes_eq, u256_modulus, EthereumBlockNumber, H256};
use crate::proof_of_work::{
    block_alone_ok, block_family_ok, lemma_seal_carries, light_mix_hash, seal_mix_hash,
    seal_nonce,
};
use crate::receipt::{receipt_attested, EthereumReceipt, EthereumReceiptProof, ReceiptView};
pub use crate::store::HeaderChainLatest;
use crate::store::{HeaderStore, StoreView, TipView};
use vstd::prelude::*;

verus! {

/// What the deployment fixes: the network whose headers are followed, and the
/// number of blocks by which a header must trail the authority's watermark.
#[derive(Clone, Copy, Debug, PartialEq, Eq)]
pub struct Config {
    pub network: EthereumNetworkType,
    pub confirmations: EthereumBlockNumber,
}

/// The account of a signed caller.
pub type AccountId = u64;

/// Who makes a request, as the host has authenticated them.
#[derive(Clone, Copy, Debug, PartialEq, Eq)]
pub enum Origin {
    /// The privileged caller.
    Root,
    /// A caller who signed with the given account.
    Signed(AccountId),
    /// A caller whom the host could not authenticate.
    Anonymous,
}

/// What the host is to publish after a request has been served.
#[derive(Debug, PartialEq, Eq)]
pub enum Event {
    /// The genesis header has been set to this header.
    SetGenesisHeader(EthereumHeader),
    /// The authority's watermark has moved to this block number.
    UpdateBestNumber(EthereumBlockNumber),
    /// This header, submitted by this account, has been appended to the chain.
    Maintain(EthereumHeader, AccountId),
}

/// The outcome of the structural checks of a header against the store,
/// where `computed` is the hash of its content: its hash, the genesis
/// header, its parent and its number, in this order.
pub open spec fn basic_outcome_with(s: StoreView, h: HeaderView, computed: Seq<u8>) -> Result<
    (),
    Error,
> {
    if h.hash != computed {
        Err(Error::HeaderHashMismatch)
    } else {
        match s.genesis {
            None => Err(Error::GenesisHeaderNE),
            Some(g) => if h.number < g.number {
                Err(Error::TooEarly)
            } else {
                match s.header(h.parent_hash) {
                    None => Err(Error::PrevHeaderNE),
                    Some(p) => if h.number != p.number + 1 {
                        Err(Error::BlockNumberMismatch)
                    } else if h.parent_hash != p.hash {
                        Err(Error::HeaderHashMismatch)
                    } else {
                        Ok(())
                    },
                }
            },
        }
    }
}

/// The outcome of the structural checks of a header against the store: its
/// hash, the genesis header, its parent and its number, in this order.
pub open spec fn basic_outcome(s: StoreView, h: HeaderView) -> Result<(), Error> {
    basic_outcome_with(s, h, header_hash(h))
}

/// The outcome of the difficulty checks of a header: the basic rules that
/// the header keeps by itself, then its stored parent, then the basic rule
/// that it keeps with respect to its parent, then its difficulty.
pub open spec fn difficulty_outcome(s: StoreView, p: ParamsView, h: HeaderView) -> Result<
    (),
    Error,
> {
    if !block_alone_ok(p, h) {
        Err(Error::BlockBasicVF)
    } else {
        match s.header(h.parent_hash) {
            None => Err(Error::HeaderNE),
            Some(parent) => if !block_family_ok(h, parent) {
                Err(Error::BlockBasicVF)
            } else if expected_difficulty(p, h.number, h.timestamp, parent) != h.difficulty {
                Err(Error::DifficultyVF)
            } else {
                Ok(())
            },
        }
    }
}

/// The outcome of comparing the mix hash that a seal carries with the one
/// that was computed.
pub open spec fn mix_hash_outcome(carried: Seq<u8>, computed: Seq<u8>) -> Result<(), Error> {
    if carried == computed {
        Ok(())
    } else {
        Err(Error::MixHashVF)
    }
}

/// The outcome of the proof-of-work check of a header.
pub open spec fn pow_outcome(h: HeaderView) -> Result<(), Error> {
    if !seal_parses(h.seal) {
        Err(Error::SealParseErr)
    } else {
        match light_mix_hash(h.number, header_bare_hash(h), seal_nonce(h.seal)) {
            None => Err(Error::MixHashCF),
            Some(mix) => mix_hash_outcome(seal_mix_hash(h.seal), mix),
        }
    }
}

/// Whether a block is old enough to count as final: its number lies below
/// the authority's watermark by more than the confirmation depth.
pub open spec fn is_final(auth_best_number: u64, confirmations: u64, number: u64) -> bool {
    auth_best_number >= confirmations && number < auth_best_number - confirmations
}

/// The tip after `h` has been appended to the store `s`: the hash, the
/// number and the parent hash of `h`, and the total difficulty raised by the
/// difficulty of `h`.
pub open spec fn tip_at(s: StoreView, h: HeaderView) -> TipView {
    TipView {
        hash: h.hash,
        number: h.number,
        parent_hash: h.parent_hash,
        total_difficulty: s.total_difficulty() + h.difficulty,
    }
}

/// The outcome of all checks that a submitted header goes through, in their order.
pub open spec fn submit_outcome(s: StoreView, c: Config, h: HeaderView) -> Result<(), Error> {
    if basic_outcome(s, h) is Err {
        basic_outcome(s, h)
    } else if difficulty_outcome(s, network_params(c.network), h) is Err {
        difficulty_outcome(s, network_params(c.network), h)
    } else if pow_outcome(h) is Err {
        pow_outcome(h)
    } else if !is_final(s.auth_best_number, c.confirmations, h.number) {
        Err(Error::TooEarly)
    } else {
        Ok(())
    }
}

/// Whether `r` and the store `after` are what serving the submission of `h`
/// by `origin` comes to, from the store `before`: an unsigned caller is
/// turned away, the first failed check is returned, and only a header that
/// passes them all is appended, with the event that tells of it.
pub open spec fn submission_served(
    before: StoreView,
    c: Config,
    origin: Origin,
    h: HeaderView,
    r: Result<Event, Error>,
    after: StoreView,
) -> bool {
    match r {
        Ok(event) => {
            &&& origin matches Origin::Signed(who)
            &&& event matches Event::Maintain(submitted, account)
            &&& submitted@ == h
            &&& account == who
            &&& submit_outcome(before, c, h) is Ok
            &&& after == before.appended(h)
        },
        Err(e) => {
            &&& after == before
            &&& if origin is Signed {
                submit_outcome(before, c, h) == Err::<(), Error>(e)
            } else {
                e == Error::Unauthenticated
            }
        },
    }
}

/// The outcome of checking a receipt against the header stored for a block:
/// a header must have been appended, the block must not lie beyond the tip,
/// its header must be stored, and the proof must attest the receipt under
/// the receipts root of that header.
pub open spec fn receipt_outcome(
    s: StoreView,
    number: u64,
    index: u64,
    blob: Seq<u8>,
    receipt: ReceiptView,
) -> Result<(), Error> {
    match s.tip {
        None => Err(Error::FinalizedHeaderNE),
        Some(tip) => if number > tip.number {
            Err(Error::TooEarly)
        } else {
            match s.header_by_number(number) {
                None => Err(Error::HeaderNE),
                Some(h) => if receipt_attested(h.receipts_root, index, blob, receipt) {
                    Ok(())
                } else {
                    Err(Error::ReceiptVF)
                },
            }
        },
    }
}

/// The light client: the deployment's configuration and the header store.
pub struct Module {
    pub config: Config,
    pub store: HeaderStore,
}

impl Module {
    /// A light client with an empty store.
    pub fn new(config: Config, auth_best_number: EthereumBlockNumber) -> (r: Module)
        ensures
            r.config == config,
            r.store@ == (StoreView {
                genesis: None,
                auth_best_number,
                headers: Seq::empty(),
                tip: None,
            }),
    {
        Module { config, store: HeaderStore::new(auth_best_number) }
    }

    /// Checks the hash of `header`, that it does not lie before the genesis
    /// block, that its parent is stored and that its number follows its parent's.
    pub fn verify_header_basic(&self, header: &EthereumHeader) -> (r: Result<(), Error>)
        ensures
            r == basic_outcome(self.store@, header@),
    {
        let computed = header.re_compute_hash();
        self.verify_header_basic_with(header, &computed)
    }

    /// Checks `header` like `verify_header_basic`, against `computed` as the
    /// hash of its content.
    pub fn verify_header_basic_with(&self, header: &EthereumHeader, computed: &H256) -> (r: Result<
        (),
        Error,
    >)
        ensures
            r == basic_outcome_with(self.store@, header@, computed@),
    {
        if !bytes_eq(header.hash.as_slice(), computed.as_slice()) {
            return Err(Error::HeaderHashMismatch);
        }
        let genesis_number = match self.store.genesis_header() {
            Some(g) => g.number,
            None => { return Err(Error::GenesisHeaderNE); },
        };
        if header.number < genesis_number {
            return Err(Error::TooEarly);
        }
        let parent = match self.store.header(&header.parent_hash) {
            Some(p) => p,
            None => { return Err(Error::PrevHeaderNE); },
        };
        if parent.number == u64::MAX || header.number != parent.number + 1 {
            return Err(Error::BlockNumberMismatch);
        }
        if !bytes_eq(header.parent_hash.as_slice(), parent.hash.as_slice()) {
            return Err(Error::HeaderHashMismatch);
        }
        Ok(())
    }

    /// Checks the basic rules of the network and the difficulty of `header`:
    /// first the rules that the header keeps by itself, then those that
    /// need its stored parent.
    pub fn check_difficulty(&self, header: &EthereumHeader, ethash_params: &EthashPartial) -> (r:
        Result<(), Error>)
        requires
            ethash_params@.wf(),
        ensures
            r == difficulty_outcome(self.store@, ethash_params@, header@),
    {
        match ethash_params.verify_block_basic(header) {
            Ok(_) => {},
            Err(_) => { return Err(Error::BlockBasicVF); },
        }
        let parent = match self.store.header(&header.parent_hash) {
            Some(p) => p,
            None => { return Err(Error::HeaderNE); },
        };
        match ethash_params.verify_block_family(header, parent) {
            Ok(_) => {},
            Err(_) => { return Err(Error::BlockBasicVF); },
        }
        match ethash_params.calculate_difficulty(header, parent) {
            Some(difficulty) => {
                if difficulty.equals(&header.difficulty) {
                    Ok(())
                } else {
                    Err(Error::DifficultyVF)
                }
            },
            None => {
                proof {
                    crate::primitives::lemma_u256_bounded(header.difficulty);
                }
                Err(Error::DifficultyVF)
            },
        }
    }

    /// Compares the mix hash that a seal carries with the one that was computed.
    pub fn check_mix_hash(carried: &H256, computed: &H256) -> (r: Result<(), Error>)
        ensures
            r == mix_hash_outcome(carried@, computed@),
    {
        if bytes_eq(carried.as_slice(), computed.as_slice()) {
            Ok(())
        } else {
            Err(Error::MixHashVF)
        }
    }

    /// Checks the proof of work of `header`: its seal must parse, and carry
    /// the mix hash that the light computation yields.
    pub fn check_pow(header: &EthereumHeader, ethash_params: &EthashPartial) -> (r: Result<
        (),
        Error,
    >)
        ensures
            r == pow_outcome(header@),
    {
        let seal = match EthashSeal::parse_seal(&header.seal) {
            Ok(s) => s,
            Err(_) => { return Err(Error::SealParseErr); },
        };
        proof {
            lemma_seal_carries(seal.mix_hash@, seal.nonce@);
        }
        let computed = match ethash_params.calculate_mixhash(header) {
            Ok(mix) => mix,
            Err(_) => { return Err(Error::MixHashCF); },
        };
        Module::check_mix_hash(&seal.mix_hash, &computed)
    }

    /// Whether the block `number` is old enough to count as final.
    pub fn is_old_enough(&self, number: EthereumBlockNumber) -> (r: bool)
        ensures
            r == is_final(self.store@.auth_best_number, self.config.confirmations, number),
    {
        let confirmations = self.config.confirmations;
        let best_number = self.store.auth_best_number();
        match best_number.checked_sub(confirmations) {
            Some(threshold) => number < threshold,
            None => false,
        }
    }

    /// Appends `header` to the chain if its block is old enough to count as
    /// final: the header is stored and the tip moves to it, or nothing changes.
    pub fn append_header(&mut self, header: &EthereumHeader) -> (r: Result<(), Error>)
        requires
            is_final(
                old(self).store@.auth_best_number,
                old(self).config.confirmations,
                header@.number,
            ) ==> old(self).store@.total_difficulty() + header@.difficulty < u256_modulus(),
        ensures
            final(self).config == old(self).config,
            match r {
                Ok(_) => {
                    &&& is_final(
                        old(self).store@.auth_best_number,
                        old(self).config.confirmations,
                        header@.number,
                    )
                    &&& final(self).store@ == old(self).store@.appended(header@)
                    &&& final(self).store@.tip == Some(tip_at(old(self).store@, header@))
                    &&& final(self).store@.header_by_number(header@.number) == Some(header@)
                },
                Err(e) => e == Error::TooEarly && !is_final(
                    old(self).store@.auth_best_number,
                    old(self).config.confirmations,
                    header@.number,
                ) && final(self).store@ == old(self).store@,
            },
    {
        if !self.is_old_enough(header.number) {
            return Err(Error::TooEarly);
        }
        self.store.append(header.clone());
        Ok(())
    }

    /// Runs every check that a submission goes through, in order, and changes
    /// nothing: the caller must have signed, the header must pass the
    /// structural, difficulty and proof-of-work checks, and its block must be
    /// old enough to count as final. Returns the account of the caller.
    pub fn check_submission(&self, origin: Origin, header: &EthereumHeader) -> (r: Result<
        AccountId,
        Error,
    >)
        ensures
            match r {
                Ok(who) => origin == Origin::Signed(who) && submit_outcome(
                    self.store@,
                    self.config,
                    header@,
                ) is Ok,
                Err(e) => if origin is Signed {
                    submit_outcome(self.store@, self.config, header@) == Err::<(), Error>(e)
                } else {
                    e == Error::Unauthenticated
                },
            },
    {
        let who = match origin {
            Origin::Signed(who) => who,
            _ => { return Err(Error::Unauthenticated); },
        };
        let ethash_params = EthashPartial::for_network(self.config.network);
        match self.verify_header_basic(header) {
            Ok(_) => {},
            Err(e) => { return Err(e); },
        }
        match self.check_difficulty(header, &ethash_params) {
            Ok(_) => {},
            Err(e) => { return Err(e); },
        }
        match Module::check_pow(header, &ethash_params) {
            Ok(_) => {},
            Err(e) => { return Err(e); },
        }
        if !self.is_old_enough(header.number) {
            return Err(Error::TooEarly);
        }
        Ok(who)
    }

    /// Serves the submission of a header by a signed caller: the header goes
    /// through the structural, difficulty and proof-of-work checks, in this
    /// order, and is then appended to the chain. The first failure is
    /// returned and leaves the store as it was. Where the header passes every
    /// check, the total difficulty must stay within 256 bits.
    pub fn maintain_header_chain(&mut self, origin: Origin, header: EthereumHeader) -> (r: Result<
        Event,
        Error,
    >)
        requires
            origin is Signed && submit_outcome(old(self).store@, old(self).config, header@) is Ok
                ==> old(self).store@.total_difficulty() + header@.difficulty < u256_modulus(),
        ensures
            final(self).config == old(self).config,
            submission_served(
                old(self).store@,
                old(self).config,
                origin,
                header@,
                r,
                final(self).store@,
            ),
    {
        let who = match origin {
            Origin::Signed(who) => who,
            _ => { return Err(Error::Unauthenticated); },
        };
        let ethash_params = EthashPartial::for_network(self.config.network);
        match self.verify_header_basic(&header) {
            Ok(_) => {},
            Err(e) => { return Err(e); },
        }
        match self.check_difficulty(&header, &ethash_params) {
            Ok(_) => {},
            Err(e) => { return Err(e); },
        }
        match Module::check_pow(&header, &ethash_params) {
            Ok(_) => {},
            Err(e) => { return Err(e); },
        }
        match self.append_header(&header) {
            Ok(_) => {},
            Err(e) => { return Err(e); },
        }
        Ok(Event::Maintain(header, who))
    }

    /// Serves the submission of a header like `maintain_header_chain`, for
    /// callers that cannot tell beforehand whether the total difficulty stays
    /// within 256 bits. Returns `None`, and changes nothing, where the header
    /// passes every check and the total difficulty would leave 256 bits.
    pub fn submit_header(&mut self, origin: Origin, header: EthereumHeader) -> (r: Option<
        Result<Event, Error>,
    >)
        ensures
            final(self).config == old(self).config,
            match r {
                Some(served) => submission_served(
                    old(self).store@,
                    old(self).config,
                    origin,
                    header@,
                    served,
                    final(self).store@,
                ),
                None => {
                    &&& origin is Signed
                    &&& submit_outcome(old(self).store@, old(self).config, header@) is Ok
                    &&& old(self).store@.total_difficulty() + header@.difficulty >= u256_modulus()
                    &&& final(self).store@ == old(self).store@
                },
            },
    {
        if self.store.can_accumulate(&header.difficulty) {
            Some(self.maintain_header_chain(origin, header))
        } else {
            match self.check_submission(origin, &header) {
                Ok(_) => None,
                Err(e) => Some(Err(e)),
            }
        }
    }

    /// Serves the setting of the genesis header by the privileged caller.
    /// The genesis header can be set once.
    pub fn set_genesis_header(&mut self, origin: Origin, header: EthereumHeader) -> (r: Result<
        Event,
        Error,
    >)
        ensures
            final(self).config == old(self).config,
            match r {
                Ok(event) => {
                    &&& origin is Root
                    &&& old(self).store@.genesis is None
                    &&& event matches Event::SetGenesisHeader(h)
                    &&& h@ == header@
                    &&& final(self).store@ == old(self).store@.with_genesis(header@)
                },
                Err(e) => {
                    &&& final(self).store@ == old(self).store@
                    &&& if origin is Root {
                        e == Error::GenesisSetFailed && old(self).store@.genesis is Some
                    } else {
                        e == Error::Unauthenticated
                    }
                },
            },
    {
        match origin {
            Origin::Root => {},
            _ => { return Err(Error::Unauthenticated); },
        }
        match self.store.set_genesis_once(header.clone()) {
            Ok(_) => Ok(Event::SetGenesisHeader(header)),
            Err(e) => Err(e),
        }
    }

    /// Serves the check of a receipt by a signed caller: the receipt must be
    /// the one that `proof` attests in the block `eth_block_number`, whose
    /// header is stored and does not lie beyond the tip. Nothing changes.
    pub fn verify_receipt(
        &self,
        origin: Origin,
        eth_block_number: EthereumBlockNumber,
        proof: &EthereumReceiptProof,
        receipt: &EthereumReceipt,
    ) -> (r: Result<(), Error>)
        ensures
            r == (if origin is Signed {
                receipt_outcome(self.store@, eth_block_number, proof.index, proof.proof@, receipt@)
            } else {
                Err(Error::Unauthenticated)
            }),
    {
        match origin {
            Origin::Signed(_) => {},
            _ => { return Err(Error::Unauthenticated); },
        }
        let finalized_block_number = match self.store.header_chain() {
            Some(tip) => tip.number,
            None => { return Err(Error::FinalizedHeaderNE); },
        };
        if eth_block_number > finalized_block_number {
            return Err(Error::TooEarly);
        }
        let block_header = match self.store.header_by_number(eth_block_number) {
            Some(h) => h,
            None => { return Err(Error::HeaderNE); },
        };
        if receipt.is_attested(&block_header.receipts_root, proof) {
            Ok(())
        } else {
            Err(Error::ReceiptVF)
        }
    }
}

} // verus!
