//! The reasons for which the light client rejects a request.

use vstd::prelude::*;

verus! {

/// Why a request was rejected. Each kind names one failed precondition.
#[derive(Clone, Copy, Debug, PartialEq, Eq, Structural)]
pub enum Error {
    /// The declared hash of a header is not the hash of its content.
    HeaderHashMismatch,
    /// No genesis header has been set.
    GenesisHeaderNE,
    /// The block is too recent to be trusted, or lies before the genesis block.
    TooEarly,
    /// Reserved.
    TooLate,
    /// The parent of the header is not stored.
    PrevHeaderNE,
    /// The number of the header does not follow the number of its parent.
    BlockNumberMismatch,
    /// The header breaks one of the basic rules of the network.
    BlockBasicVF,
    /// The difficulty of the header is not the one the network prescribes.
    DifficultyVF,
    /// The mix hash in the seal is not the one the proof of work yields.
    MixHashVF,
    /// The mix hash could not be computed.
    MixHashCF,
    /// The seal of the header is malformed.
    SealParseErr,
    /// The genesis header is already set.
    GenesisSetFailed,
    /// No header is stored for the block.
    HeaderNE,
    /// No header has been appended to the chain yet.
    FinalizedHeaderNE,
    /// The receipt is not proved by the block's receipts root.
    ReceiptVF,
    /// The caller is not entitled to the operation.
    Unauthenticated,
}

} // verus!
