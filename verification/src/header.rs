//! Block headers and their canonical hash.

use crate::primitives::{
    keccak256, keccak256_digest, Bloom, Bytes, EthereumAddress, EthereumBlockNumber, H256, U256,
};
use crate::rlp::{
    append_bytes, append_rlp_string, append_rlp_u256, append_rlp_u64, concat, encode_list,
    rlp_list, rlp_string, rlp_uint, views,
};
use vstd::prelude::*;

verus! {

/// A copy of `data`.
pub fn copy_bytes(data: &[u8]) -> (r: Vec<u8>)
    ensures
        r@ == data@,
{
    let mut r: Vec<u8> = Vec::new();
    append_bytes(&mut r, data);
    assert(r@ =~= data@);
    r
}

/// A copy of each byte string of `items`.
pub fn copy_items(items: &Vec<Vec<u8>>) -> (r: Vec<Vec<u8>>)
    ensures
        views(r@) == views(items@),
{
    let mut r: Vec<Vec<u8>> = Vec::new();
    let mut i: usize = 0;
    while i < items.len()
        invariant
            i <= items@.len(),
            r@.len() == i,
            forall|j: int| 0 <= j < i ==> r@[j]@ == items@[j]@,
        decreases items@.len() - i,
    {
        r.push(copy_bytes(items[i].as_slice()));
        i += 1;
    }
    assert(views(r@) =~= views(items@));
    r
}

/// An Ethereum block header as it is submitted: the consensus fields, the
/// seal, and the hash that the submitter declares for it.
#[derive(Debug, PartialEq, Eq)]
pub struct EthereumHeader {
    pub parent_hash: H256,
    pub timestamp: u64,
    pub number: EthereumBlockNumber,
    pub author: EthereumAddress,
    pub transactions_root: H256,
    pub uncles_hash: H256,
    pub extra_data: Bytes,
    pub state_root: H256,
    pub receipts_root: H256,
    pub log_bloom: Bloom,
    pub gas_used: U256,
    pub gas_limit: U256,
    pub difficulty: U256,
    /// The seal fields, each in its encoded form.
    pub seal: Vec<Bytes>,
    /// The declared hash.
    pub hash: H256,
}

/// The mathematical content of a header.
pub struct HeaderView {
    pub parent_hash: Seq<u8>,
    pub timestamp: u64,
    pub number: u64,
    pub author: Seq<u8>,
    pub transactions_root: Seq<u8>,
    pub uncles_hash: Seq<u8>,
    pub extra_data: Seq<u8>,
    pub state_root: Seq<u8>,
    pub receipts_root: Seq<u8>,
    pub log_bloom: Seq<u8>,
    pub gas_used: nat,
    pub gas_limit: nat,
    pub difficulty: nat,
    pub seal: Seq<Seq<u8>>,
    pub hash: Seq<u8>,
}

impl View for EthereumHeader {
    type V = HeaderView;

    open spec fn view(&self) -> HeaderView {
        HeaderView {
            parent_hash: self.parent_hash@,
            timestamp: self.timestamp,
            number: self.number,
            author: self.author@,
            transactions_root: self.transactions_root@,
            uncles_hash: self.uncles_hash@,
            extra_data: self.extra_data@,
            state_root: self.state_root@,
            receipts_root: self.receipts_root@,
            log_bloom: self.log_bloom@,
            gas_used: self.gas_used@,
            gas_limit: self.gas_limit@,
            difficulty: self.difficulty@,
            seal: views(self.seal@),
            hash: self.hash@,
        }
    }
}

/// The encoded consensus fields of a header, in their canonical order.
pub open spec fn header_fields_rlp(h: HeaderView) -> Seq<u8> {
    rlp_string(h.parent_hash) + rlp_string(h.uncles_hash) + rlp_string(h.author) + rlp_string(
        h.state_root,
    ) + rlp_string(h.transactions_root) + rlp_string(h.receipts_root) + rlp_string(h.log_bloom)
        + rlp_uint(h.difficulty) + rlp_uint(h.number as nat) + rlp_uint(h.gas_limit) + rlp_uint(
        h.gas_used,
    ) + rlp_uint(h.timestamp as nat) + rlp_string(h.extra_data)
}

/// The canonical encoding of a header: the list of its consensus fields,
/// followed by the seal fields where `with_seal` holds.
pub open spec fn header_rlp(h: HeaderView, with_seal: bool) -> Seq<u8> {
    if with_seal {
        rlp_list(header_fields_rlp(h) + concat(h.seal))
    } else {
        rlp_list(header_fields_rlp(h))
    }
}

/// The canonical hash of a header: the Keccak-256 digest of its encoding with the seal.
pub open spec fn header_hash(h: HeaderView) -> Seq<u8> {
    keccak256_digest(header_rlp(h, true))
}

/// The hash that the proof of work is computed over: the digest of the
/// encoding without the seal.
pub open spec fn header_bare_hash(h: HeaderView) -> Seq<u8> {
    keccak256_digest(header_rlp(h, false))
}

impl Clone for EthereumHeader {
    fn clone(&self) -> (r: Self)
        ensures
            r@ == self@,
    {
        EthereumHeader {
            parent_hash: self.parent_hash,
            timestamp: self.timestamp,
            number: self.number,
            author: self.author,
            transactions_root: self.transactions_root,
            uncles_hash: self.uncles_hash,
            extra_data: copy_bytes(self.extra_data.as_slice()),
            state_root: self.state_root,
            receipts_root: self.receipts_root,
            log_bloom: self.log_bloom,
            gas_used: self.gas_used,
            gas_limit: self.gas_limit,
            difficulty: self.difficulty,
            seal: copy_items(&self.seal),
            hash: self.hash,
        }
    }
}

impl EthereumHeader {
    /// The declared hash.
    pub fn hash(&self) -> (r: H256)
        ensures
            r == self.hash,
    {
        self.hash
    }

    /// The hash of the parent.
    pub fn parent_hash(&self) -> (r: &H256)
        ensures
            *r == self.parent_hash,
    {
        &self.parent_hash
    }

    /// The number of the block.
    pub fn number(&self) -> (r: EthereumBlockNumber)
        ensures
            r == self.number,
    {
        self.number
    }

    /// The time of the block, in seconds.
    pub fn timestamp(&self) -> (r: u64)
        ensures
            r == self.timestamp,
    {
        self.timestamp
    }

    /// The difficulty of the block.
    pub fn difficulty(&self) -> (r: &U256)
        ensures
            *r == self.difficulty,
    {
        &self.difficulty
    }

    /// The root of the receipts trie of the block.
    pub fn receipts_root(&self) -> (r: &H256)
        ensures
            *r == self.receipts_root,
    {
        &self.receipts_root
    }

    /// The hash of the list of uncles of the block.
    pub fn uncles_hash(&self) -> (r: &H256)
        ensures
            *r == self.uncles_hash,
    {
        &self.uncles_hash
    }

    /// The seal fields, each in its encoded form.
    pub fn seal(&self) -> (r: &Vec<Bytes>)
        ensures
            *r == self.seal,
    {
        &self.seal
    }

    /// The canonical encoding, with or without the seal.
    pub fn rlp(&self, with_seal: bool) -> (r: Vec<u8>)
        ensures
            r@ == header_rlp(self@, with_seal),
    {
        let mut p: Vec<u8> = Vec::new();
        append_rlp_string(&mut p, self.parent_hash.as_slice());
        append_rlp_string(&mut p, self.uncles_hash.as_slice());
        append_rlp_string(&mut p, self.author.as_slice());
        append_rlp_string(&mut p, self.state_root.as_slice());
        append_rlp_string(&mut p, self.transactions_root.as_slice());
        append_rlp_string(&mut p, self.receipts_root.as_slice());
        append_rlp_string(&mut p, self.log_bloom.as_slice());
        append_rlp_u256(&mut p, &self.difficulty);
        append_rlp_u64(&mut p, self.number);
        append_rlp_u256(&mut p, &self.gas_limit);
        append_rlp_u256(&mut p, &self.gas_used);
        append_rlp_u64(&mut p, self.timestamp);
        append_rlp_string(&mut p, self.extra_data.as_slice());
        assert(p@ =~= header_fields_rlp(self@));
        if with_seal {
            let mut i: usize = 0;
            while i < self.seal.len()
                invariant
                    i <= self.seal@.len(),
                    p@ == header_fields_rlp(self@) + concat(views(self.seal@).subrange(0, i as int)),
                decreases self.seal@.len() - i,
            {
                append_bytes(&mut p, self.seal[i].as_slice());
                proof {
                    let next = views(self.seal@).subrange(0, i + 1);
                    assert(next.drop_last() =~= views(self.seal@).subrange(0, i as int));
                    assert(next.last() == self.seal@[i as int]@);
                    assert(p@ =~= header_fields_rlp(self@) + concat(next));
                }
                i += 1;
            }
            assert(views(self.seal@).subrange(0, i as int) =~= views(self.seal@));
        }
        encode_list(p.as_slice())
    }

    /// The canonical hash, computed anew from the fields and the seal.
    pub fn re_compute_hash(&self) -> (r: H256)
        ensures
            r@ == header_hash(self@),
    {
        let bytes = self.rlp(true);
        keccak256(bytes.as_slice())
    }

    /// The hash of the header without its seal.
    pub fn bare_hash(&self) -> (r: H256)
        ensures
            r@ == header_bare_hash(self@),
    {
        let bytes = self.rlp(false);
        keccak256(bytes.as_slice())
    }
}

} // verus!
