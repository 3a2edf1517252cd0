//! Transaction receipts, their canonical encoding, and the proof that a
//! receipt belongs to a block.

use crate::primitives::{keccak256_digest, Bloom, Bytes, EthereumAddress, H256, U256};
use crate::rlp::{
    append_bytes, append_rlp_string, append_rlp_u256, append_rlp_u64, be_bytes, decode_list,
    decode_string, encode_list, lemma_be_bytes_injective, lemma_be_bytes_len, lemma_encoding_len,
    lemma_split_list, lemma_split_string, lemma_string_is_no_list, list_of, rlp_list, rlp_string,
    rlp_uint, string_of, views,
};
use vstd::arithmetic::power2::lemma2_to64;
use crate::trie::{nibbles, proved_value, verify_proof};
use vstd::prelude::*;

verus! {

/// What a transaction left behind: nothing known, the state root after it,
/// or its status code.
#[derive(Clone, Copy, Debug, PartialEq, Eq)]
pub enum TransactionOutcome {
    Unknown,
    StateRoot(H256),
    StatusCode(u8),
}

/// A log that a transaction wrote.
#[derive(Debug, PartialEq, Eq)]
pub struct LogEntry {
    pub address: EthereumAddress,
    pub topics: Vec<H256>,
    pub data: Bytes,
}

/// The mathematical content of a log.
pub struct LogView {
    pub address: Seq<u8>,
    pub topics: Seq<Seq<u8>>,
    pub data: Seq<u8>,
}

impl View for LogEntry {
    type V = LogView;

    open spec fn view(&self) -> LogView {
        LogView {
            address: self.address@,
            topics: Seq::new(self.topics@.len(), |i: int| self.topics@[i]@),
            data: self.data@,
        }
    }
}

/// The receipt of a transaction.
#[derive(Debug, PartialEq, Eq)]
pub struct EthereumReceipt {
    pub gas_used: U256,
    pub log_bloom: Bloom,
    pub logs: Vec<LogEntry>,
    pub outcome: TransactionOutcome,
}

/// The mathematical content of a receipt.
pub struct ReceiptView {
    pub gas_used: nat,
    pub log_bloom: Seq<u8>,
    pub logs: Seq<LogView>,
    pub outcome: TransactionOutcome,
}

impl View for EthereumReceipt {
    type V = ReceiptView;

    open spec fn view(&self) -> ReceiptView {
        ReceiptView {
            gas_used: self.gas_used@,
            log_bloom: self.log_bloom@,
            logs: Seq::new(self.logs@.len(), |i: int| self.logs@[i]@),
            outcome: self.outcome,
        }
    }
}

/// The place of a receipt in the receipts trie of its block, and the proof
/// that leads to it: the encoded list of the trie nodes, from the root down.
#[derive(Debug, PartialEq, Eq)]
pub struct EthereumReceiptProof {
    pub index: u64,
    pub proof: Bytes,
}

/// The encodings of the byte strings of `topics`, one after the other.
pub open spec fn strings_rlp(topics: Seq<Seq<u8>>) -> Seq<u8>
    decreases topics.len(),
{
    if topics.len() == 0 {
        Seq::empty()
    } else {
        strings_rlp(topics.drop_last()) + rlp_string(topics.last())
    }
}

/// The encoding of a log: the list of its address, the list of its topics, and its data.
pub open spec fn log_rlp(l: LogView) -> Seq<u8> {
    rlp_list(rlp_string(l.address) + rlp_list(strings_rlp(l.topics)) + rlp_string(l.data))
}

/// The encodings of `logs`, one after the other.
pub open spec fn logs_rlp(logs: Seq<LogView>) -> Seq<u8>
    decreases logs.len(),
{
    if logs.len() == 0 {
        Seq::empty()
    } else {
        logs_rlp(logs.drop_last()) + log_rlp(logs.last())
    }
}

/// The encoding of an outcome: nothing, the state root, or the status code.
pub open spec fn outcome_rlp(outcome: TransactionOutcome) -> Seq<u8> {
    match outcome {
        TransactionOutcome::Unknown => Seq::empty(),
        TransactionOutcome::StateRoot(root) => rlp_string(root@),
        TransactionOutcome::StatusCode(code) => rlp_uint(code as nat),
    }
}

/// The canonical encoding of a receipt: the list of its outcome, the gas
/// used, the bloom filter and the list of its logs.
pub open spec fn receipt_rlp(r: ReceiptView) -> Seq<u8> {
    rlp_list(
        outcome_rlp(r.outcome) + rlp_uint(r.gas_used) + rlp_string(r.log_bloom) + rlp_list(
            logs_rlp(r.logs),
        ),
    )
}

/// The byte strings that the encoded items `items` stand for; `None` where
/// one of them is not an encoded byte string.
pub open spec fn strings_of(items: Seq<Seq<u8>>) -> Option<Seq<Seq<u8>>>
    decreases items.len(),
{
    if items.len() == 0 {
        Some(Seq::empty())
    } else {
        match (strings_of(items.drop_last()), string_of(items.last())) {
            (Some(front), Some(last)) => Some(front.push(last)),
            _ => None,
        }
    }
}

/// The trie nodes that a proof carries: the proof is the encoding of a list
/// of byte strings.
pub open spec fn proof_nodes(blob: Seq<u8>) -> Option<Seq<Seq<u8>>> {
    match list_of(blob) {
        Some(items) => strings_of(items),
        None => None,
    }
}

/// The bytes that a proof attests at `index` under the receipts root
/// `root`; `None` where the proof does not lead to a value.
pub open spec fn attested_bytes(root: Seq<u8>, index: u64, blob: Seq<u8>) -> Option<Seq<u8>> {
    match proof_nodes(blob) {
        Some(nodes) => proved_value(root, nibbles(rlp_uint(index as nat)), nodes),
        None => None,
    }
}

/// Whether the proof attests the receipt `r` at `index` under the receipts
/// root `root`: the proof leads to the canonical encoding of `r`.
pub open spec fn receipt_attested(root: Seq<u8>, index: u64, blob: Seq<u8>, r: ReceiptView) -> bool {
    attested_bytes(root, index, blob) == Some(receipt_rlp(r))
}

/// The number of the bit that the `i`-th pair of digest bytes picks among
/// the 2048 bits of a bloom filter.
pub open spec fn bloom_bit(digest: Seq<u8>, i: int) -> int {
    (digest[2 * i] as int * 256 + digest[2 * i + 1] as int) % 2048
}

/// The bloom filter `bloom` with the bit `bit` set. Bit 0 is the lowest bit
/// of the last byte.
pub open spec fn with_bit(bloom: Seq<u8>, bit: int) -> Seq<u8> {
    bloom.update(255 - bit / 8, bloom[255 - bit / 8] | (1u8 << ((bit % 8) as u8)))
}

/// The bloom filter `bloom` after `input` has been added to it: the first
/// three pairs of bytes of the Keccak-256 digest of `input` each pick a bit,
/// and these bits are set.
pub open spec fn bloom_accrued(bloom: Seq<u8>, input: Seq<u8>) -> Seq<u8> {
    let digest = keccak256_digest(input);
    with_bit(
        with_bit(with_bit(bloom, bloom_bit(digest, 0)), bloom_bit(digest, 1)),
        bloom_bit(digest, 2),
    )
}

/// Calls `ethbloom::Bloom::accrue` with `input` as raw input: it takes the
/// Keccak-256 digest of the input and sets the three bits that the first
/// three pairs of digest bytes pick.
#[verifier::external_body]
fn accrue(bloom: &Bloom, input: &[u8]) -> (r: Bloom)
    ensures
        r@ == bloom_accrued(bloom@, input@),
{
    let mut b = ethbloom::Bloom(*bloom);
    b.accrue(ethbloom::Input::Raw(input));
    b.0
}

/// The bloom filter `bloom` after each of `inputs` has been added to it, in order.
pub open spec fn accrued_all(bloom: Seq<u8>, inputs: Seq<Seq<u8>>) -> Seq<u8>
    decreases inputs.len(),
{
    if inputs.len() == 0 {
        bloom
    } else {
        bloom_accrued(accrued_all(bloom, inputs.drop_last()), inputs.last())
    }
}

/// The bloom filter of `logs`: to the empty filter, the address and the
/// topics of each log are added, in order.
pub open spec fn logs_bloom(logs: Seq<LogView>) -> Seq<u8>
    decreases logs.len(),
{
    if logs.len() == 0 {
        Seq::new(256, |i: int| 0u8)
    } else {
        accrued_all(
            bloom_accrued(logs_bloom(logs.drop_last()), logs.last().address),
            logs.last().topics,
        )
    }
}

impl LogEntry {
    /// The encoding of the log.
    pub fn rlp(&self) -> (r: Vec<u8>)
        ensures
            r@ == log_rlp(self@),
    {
        let mut topics: Vec<u8> = Vec::new();
        let ghost all = self@.topics;
        let mut i: usize = 0;
        assert(all.subrange(0, 0) =~= Seq::<Seq<u8>>::empty());
        while i < self.topics.len()
            invariant
                i <= self.topics@.len(),
                all == self@.topics,
                topics@ == strings_rlp(all.subrange(0, i as int)),
            decreases self.topics@.len() - i,
        {
            append_rlp_string(&mut topics, self.topics[i].as_slice());
            proof {
                assert(all.subrange(0, i + 1).drop_last() =~= all.subrange(0, i as int));
                assert(all.subrange(0, i + 1).last() == self.topics@[i as int]@);
            }
            i += 1;
        }
        assert(all.subrange(0, i as int) =~= all);
        let mut p: Vec<u8> = Vec::new();
        append_rlp_string(&mut p, self.address.as_slice());
        let listed = encode_list(topics.as_slice());
        append_bytes(&mut p, listed.as_slice());
        append_rlp_string(&mut p, self.data.as_slice());
        assert(p@ =~= rlp_string(self@.address) + rlp_list(strings_rlp(self@.topics)) + rlp_string(
            self@.data,
        ));
        encode_list(p.as_slice())
    }
}

impl EthereumReceipt {
    /// The canonical encoding of the receipt.
    pub fn rlp(&self) -> (r: Vec<u8>)
        ensures
            r@ == receipt_rlp(self@),
    {
        let mut logs: Vec<u8> = Vec::new();
        let ghost all = self@.logs;
        let mut i: usize = 0;
        assert(all.subrange(0, 0) =~= Seq::<LogView>::empty());
        while i < self.logs.len()
            invariant
                i <= self.logs@.len(),
                all == self@.logs,
                logs@ == logs_rlp(all.subrange(0, i as int)),
            decreases self.logs@.len() - i,
        {
            let one = self.logs[i].rlp();
            append_bytes(&mut logs, one.as_slice());
            proof {
                assert(all.subrange(0, i + 1).drop_last() =~= all.subrange(0, i as int));
                assert(all.subrange(0, i + 1).last() == self.logs@[i as int]@);
            }
            i += 1;
        }
        assert(all.subrange(0, i as int) =~= all);
        let mut p: Vec<u8> = Vec::new();
        match self.outcome {
            TransactionOutcome::Unknown => {},
            TransactionOutcome::StateRoot(root) => {
                append_rlp_string(&mut p, root.as_slice());
            },
            TransactionOutcome::StatusCode(code) => {
                append_rlp_u64(&mut p, code as u64);
            },
        }
        assert(p@ =~= outcome_rlp(self.outcome));
        append_rlp_u256(&mut p, &self.gas_used);
        append_rlp_string(&mut p, self.log_bloom.as_slice());
        let listed = encode_list(logs.as_slice());
        append_bytes(&mut p, listed.as_slice());
        assert(p@ =~= outcome_rlp(self@.outcome) + rlp_uint(self@.gas_used) + rlp_string(
            self@.log_bloom,
        ) + rlp_list(logs_rlp(self@.logs)));
        encode_list(p.as_slice())
    }

    /// The receipt with the given outcome, gas and logs, and with the bloom
    /// filter of those logs.
    pub fn new(outcome: TransactionOutcome, gas_used: U256, logs: Vec<LogEntry>) -> (r:
        EthereumReceipt)
        ensures
            r.outcome == outcome,
            r.gas_used == gas_used,
            r.logs == logs,
            r@.log_bloom == logs_bloom(r@.logs),
    {
        let mut bloom: Bloom = [0u8; 256];
        assert(bloom@ =~= Seq::new(256, |i: int| 0u8));
        let ghost all = Seq::new(logs@.len(), |i: int| logs@[i]@);
        let mut i: usize = 0;
        assert(all.subrange(0, 0) =~= Seq::<LogView>::empty());
        while i < logs.len()
            invariant
                i <= logs@.len(),
                all == Seq::new(logs@.len(), |i: int| logs@[i]@),
                bloom@ == logs_bloom(all.subrange(0, i as int)),
            decreases logs@.len() - i,
        {
            let log = &logs[i];
            let ghost topics = log@.topics;
            proof {
                assert(all.subrange(0, i + 1).drop_last() =~= all.subrange(0, i as int));
                assert(all.subrange(0, i + 1).last() == log@);
            }
            bloom = accrue(&bloom, log.address.as_slice());
            let ghost start = bloom@;
            let mut k: usize = 0;
            assert(topics.subrange(0, 0) =~= Seq::<Seq<u8>>::empty());
            while k < log.topics.len()
                invariant
                    k <= log.topics@.len(),
                    topics == log@.topics,
                    bloom@ == accrued_all(start, topics.subrange(0, k as int)),
                decreases log.topics@.len() - k,
            {
                proof {
                    assert(topics.subrange(0, k + 1).drop_last() =~= topics.subrange(0, k as int));
                    assert(topics.subrange(0, k + 1).last() == log.topics@[k as int]@);
                }
                bloom = accrue(&bloom, log.topics[k].as_slice());
                k += 1;
            }
            assert(topics.subrange(0, k as int) =~= topics);
            i += 1;
        }
        assert(all.subrange(0, i as int) =~= all);
        EthereumReceipt { gas_used, log_bloom: bloom, logs, outcome }
    }

    /// Whether `proof` attests this receipt under the receipts root `root`.
    pub fn is_attested(&self, root: &H256, proof: &EthereumReceiptProof) -> (r: bool)
        ensures
            r == receipt_attested(root@, proof.index, proof.proof@, self@),
    {
        match proof.attested(root) {
            Some(bytes) => {
                let own = self.rlp();
                crate::primitives::bytes_eq(bytes.as_slice(), own.as_slice())
            },
            None => false,
        }
    }
}

impl EthereumReceiptProof {
    /// The trie nodes that the proof carries.
    pub fn nodes(&self) -> (r: Option<Vec<Vec<u8>>>)
        ensures
            match r {
                Some(n) => proof_nodes(self.proof@) == Some(views(n@)),
                None => proof_nodes(self.proof@) is None,
            },
    {
        let items = match decode_list(self.proof.as_slice()) {
            Some(items) => items,
            None => { return None; },
        };
        let ghost all = views(items@);
        let mut nodes: Vec<Vec<u8>> = Vec::new();
        let mut i: usize = 0;
        assert(all.subrange(0, 0) =~= Seq::<Seq<u8>>::empty());
        assert(views(nodes@) =~= Seq::<Seq<u8>>::empty());
        while i < items.len()
            invariant
                i <= items@.len(),
                all == views(items@),
                list_of(self.proof@) == Some(all),
                strings_of(all.subrange(0, i as int)) == Some(views(nodes@)),
            decreases items@.len() - i,
        {
            proof {
                assert(all.subrange(0, i + 1).drop_last() =~= all.subrange(0, i as int));
                assert(all.subrange(0, i + 1).last() == items@[i as int]@);
            }
            let ghost before = views(nodes@);
            match decode_string(items[i].as_slice()) {
                Some(node) => {
                    nodes.push(node);
                    assert(views(nodes@) =~= before.push(node@));
                },
                None => {
                    proof {
                        assert(string_of(all.subrange(0, i + 1).last()) is None);
                        assert(strings_of(all.subrange(0, i + 1)) is None);
                        lemma_strings_of_fails(all, i + 1);
                    }
                    return None;
                },
            }
            i += 1;
        }
        assert(all.subrange(0, i as int) =~= all);
        Some(nodes)
    }

    /// The bytes that the proof attests at its index under the receipts root `root`.
    pub fn attested(&self, root: &H256) -> (r: Option<Vec<u8>>)
        ensures
            match r {
                Some(v) => attested_bytes(root@, self.index, self.proof@) == Some(v@),
                None => attested_bytes(root@, self.index, self.proof@) is None,
            },
    {
        let nodes = match self.nodes() {
            Some(n) => n,
            None => { return None; },
        };
        let mut key: Vec<u8> = Vec::new();
        append_rlp_u64(&mut key, self.index);
        assert(key@ =~= rlp_uint(self.index as nat));
        verify_proof(root, key.as_slice(), &nodes)
    }
}

/// Where the first items are not all byte strings, neither are all of them.
pub proof fn lemma_strings_of_fails(items: Seq<Seq<u8>>, k: int)
    requires
        0 <= k <= items.len(),
        strings_of(items.subrange(0, k)) is None,
    ensures
        strings_of(items) is None,
    decreases items.len() - k,
{
    if k < items.len() {
        assert(items.subrange(0, k + 1).drop_last() =~= items.subrange(0, k));
        lemma_strings_of_fails(items, k + 1);
    } else {
        assert(items.subrange(0, k) =~= items);
    }
}

/// The encodings of byte strings, one after the other, start with the
/// encoding of the first.
pub proof fn lemma_strings_rlp_front(topics: Seq<Seq<u8>>)
    requires
        topics.len() > 0,
    ensures
        strings_rlp(topics) == rlp_string(topics[0]) + strings_rlp(topics.skip(1)),
    decreases topics.len(),
{
    if topics.len() == 1 {
        assert(topics.drop_last() =~= Seq::<Seq<u8>>::empty());
        assert(topics.skip(1) =~= Seq::<Seq<u8>>::empty());
        assert(strings_rlp(topics) =~= rlp_string(topics[0]) + strings_rlp(topics.skip(1)));
    } else {
        lemma_strings_rlp_front(topics.drop_last());
        assert(topics.drop_last().skip(1) =~= topics.skip(1).drop_last());
        assert(topics.skip(1).last() == topics.last());
        assert(strings_rlp(topics) =~= rlp_string(topics[0]) + strings_rlp(topics.skip(1)));
    }
}

/// Different rows of byte strings have different encodings.
pub proof fn lemma_strings_rlp_injective(a: Seq<Seq<u8>>, b: Seq<Seq<u8>>)
    requires
        strings_rlp(a) == strings_rlp(b),
        strings_rlp(a).len() < 0x1_0000_0000_0000_0000,
    ensures
        a == b,
    decreases a.len(),
{
    if a.len() == 0 || b.len() == 0 {
        if a.len() > 0 {
            lemma_strings_rlp_front(a);
            lemma_encoding_len(a[0]);
        }
        if b.len() > 0 {
            lemma_strings_rlp_front(b);
            lemma_encoding_len(b[0]);
        }
        assert(a =~= b);
    } else {
        lemma_strings_rlp_front(a);
        lemma_strings_rlp_front(b);
        lemma_encoding_len(a[0]);
        lemma_encoding_len(b[0]);
        lemma_split_string(a[0], strings_rlp(a.skip(1)), b[0], strings_rlp(b.skip(1)));
        lemma_strings_rlp_injective(a.skip(1), b.skip(1));
        assert(a =~= seq![a[0]] + a.skip(1));
        assert(b =~= seq![b[0]] + b.skip(1));
    }
}

/// Two encoded logs, each followed by more bytes, make the same bytes only
/// if the logs are the same and what follows is the same.
pub proof fn lemma_split_log(l1: LogView, rest1: Seq<u8>, l2: LogView, rest2: Seq<u8>)
    requires
        log_rlp(l1) + rest1 == log_rlp(l2) + rest2,
        log_rlp(l1).len() < 0x1_0000_0000_0000_0000,
        log_rlp(l2).len() < 0x1_0000_0000_0000_0000,
    ensures
        l1 == l2,
        rest1 == rest2,
{
    let t1 = rlp_list(strings_rlp(l1.topics));
    let t2 = rlp_list(strings_rlp(l2.topics));
    let q1 = rlp_string(l1.address) + t1 + rlp_string(l1.data);
    let q2 = rlp_string(l2.address) + t2 + rlp_string(l2.data);
    lemma_encoding_len(q1);
    lemma_encoding_len(q2);
    lemma_encoding_len(l1.address);
    lemma_encoding_len(l2.address);
    lemma_encoding_len(l1.data);
    lemma_encoding_len(l2.data);
    lemma_encoding_len(strings_rlp(l1.topics));
    lemma_encoding_len(strings_rlp(l2.topics));
    lemma_split_list(q1, rest1, q2, rest2);
    assert(q1 =~= rlp_string(l1.address) + (t1 + rlp_string(l1.data)));
    assert(q2 =~= rlp_string(l2.address) + (t2 + rlp_string(l2.data)));
    lemma_split_string(
        l1.address,
        t1 + rlp_string(l1.data),
        l2.address,
        t2 + rlp_string(l2.data),
    );
    lemma_split_list(
        strings_rlp(l1.topics),
        rlp_string(l1.data),
        strings_rlp(l2.topics),
        rlp_string(l2.data),
    );
    lemma_strings_rlp_injective(l1.topics, l2.topics);
    assert(rlp_string(l1.data) + Seq::<u8>::empty() =~= rlp_string(l1.data));
    assert(rlp_string(l2.data) + Seq::<u8>::empty() =~= rlp_string(l2.data));
    lemma_split_string(l1.data, Seq::empty(), l2.data, Seq::empty());
}

/// The encodings of logs, one after the other, start with the encoding of the first.
pub proof fn lemma_logs_rlp_front(logs: Seq<LogView>)
    requires
        logs.len() > 0,
    ensures
        logs_rlp(logs) == log_rlp(logs[0]) + logs_rlp(logs.skip(1)),
    decreases logs.len(),
{
    if logs.len() == 1 {
        assert(logs.drop_last() =~= Seq::<LogView>::empty());
        assert(logs.skip(1) =~= Seq::<LogView>::empty());
        assert(logs_rlp(logs) =~= log_rlp(logs[0]) + logs_rlp(logs.skip(1)));
    } else {
        lemma_logs_rlp_front(logs.drop_last());
        assert(logs.drop_last().skip(1) =~= logs.skip(1).drop_last());
        assert(logs.skip(1).last() == logs.last());
        assert(logs_rlp(logs) =~= log_rlp(logs[0]) + logs_rlp(logs.skip(1)));
    }
}

/// Different rows of logs have different encodings.
pub proof fn lemma_logs_rlp_injective(a: Seq<LogView>, b: Seq<LogView>)
    requires
        logs_rlp(a) == logs_rlp(b),
        logs_rlp(a).len() < 0x1_0000_0000_0000_0000,
    ensures
        a == b,
    decreases a.len(),
{
    if a.len() == 0 || b.len() == 0 {
        if a.len() > 0 {
            lemma_logs_rlp_front(a);
        }
        if b.len() > 0 {
            lemma_logs_rlp_front(b);
        }
        assert(a =~= b);
    } else {
        lemma_logs_rlp_front(a);
        lemma_logs_rlp_front(b);
        lemma_split_log(a[0], logs_rlp(a.skip(1)), b[0], logs_rlp(b.skip(1)));
        lemma_logs_rlp_injective(a.skip(1), b.skip(1));
        assert(a =~= seq![a[0]] + a.skip(1));
        assert(b =~= seq![b[0]] + b.skip(1));
    }
}

/// What follows the outcome in the encoding of a receipt: the gas used, the
/// bloom filter and the list of logs.
pub open spec fn receipt_tail_rlp(r: ReceiptView) -> Seq<u8> {
    rlp_uint(r.gas_used) + rlp_string(r.log_bloom) + rlp_list(logs_rlp(r.logs))
}

/// Receipts whose encodings agree after the outcome agree in the gas used,
/// the bloom filter and the logs.
pub proof fn lemma_receipt_tail_injective(r1: ReceiptView, r2: ReceiptView)
    requires
        receipt_tail_rlp(r1) == receipt_tail_rlp(r2),
        receipt_tail_rlp(r1).len() < 0x1_0000_0000_0000_0000,
    ensures
        r1.gas_used == r2.gas_used,
        r1.log_bloom == r2.log_bloom,
        r1.logs == r2.logs,
{
    let g1 = be_bytes(r1.gas_used);
    let g2 = be_bytes(r2.gas_used);
    let l1 = rlp_list(logs_rlp(r1.logs));
    let l2 = rlp_list(logs_rlp(r2.logs));
    lemma_encoding_len(g1);
    lemma_encoding_len(g2);
    lemma_encoding_len(r1.log_bloom);
    lemma_encoding_len(r2.log_bloom);
    lemma_encoding_len(logs_rlp(r1.logs));
    lemma_encoding_len(logs_rlp(r2.logs));
    assert(receipt_tail_rlp(r1) =~= rlp_string(g1) + (rlp_string(r1.log_bloom) + l1));
    assert(receipt_tail_rlp(r2) =~= rlp_string(g2) + (rlp_string(r2.log_bloom) + l2));
    lemma_split_string(g1, rlp_string(r1.log_bloom) + l1, g2, rlp_string(r2.log_bloom) + l2);
    lemma_be_bytes_injective(r1.gas_used, r2.gas_used);
    lemma_split_string(r1.log_bloom, l1, r2.log_bloom, l2);
    assert(l1 + Seq::<u8>::empty() =~= l1);
    assert(l2 + Seq::<u8>::empty() =~= l2);
    lemma_split_list(logs_rlp(r1.logs), Seq::empty(), logs_rlp(r2.logs), Seq::empty());
    lemma_logs_rlp_injective(r1.logs, r2.logs);
}

/// A receipt with an outcome and a receipt without one have different encodings.
proof fn lemma_outcome_counts(with: ReceiptView, first: Seq<u8>, without: ReceiptView)
    requires
        first.len() < 0x1_0000_0000_0000_0000,
        receipt_tail_rlp(without).len() < 0x1_0000_0000_0000_0000,
        receipt_tail_rlp(with).len() < 0x1_0000_0000_0000_0000,
    ensures
        rlp_string(first) + receipt_tail_rlp(with) != receipt_tail_rlp(without),
{
    let g1 = be_bytes(without.gas_used);
    let l1 = rlp_list(logs_rlp(without.logs));
    let g2 = be_bytes(with.gas_used);
    let l2 = rlp_list(logs_rlp(with.logs));
    lemma_encoding_len(g1);
    lemma_encoding_len(g2);
    lemma_encoding_len(without.log_bloom);
    lemma_encoding_len(with.log_bloom);
    lemma_encoding_len(logs_rlp(without.logs));
    lemma_encoding_len(logs_rlp(with.logs));
    if rlp_string(first) + receipt_tail_rlp(with) == receipt_tail_rlp(without) {
        assert(receipt_tail_rlp(without) =~= rlp_string(g1) + (rlp_string(without.log_bloom)
            + l1));
        assert(receipt_tail_rlp(with) =~= rlp_string(g2) + (rlp_string(with.log_bloom) + l2));
        lemma_split_string(
            g1,
            rlp_string(without.log_bloom) + l1,
            first,
            receipt_tail_rlp(with),
        );
        lemma_split_string(
            without.log_bloom,
            l1,
            g2,
            rlp_string(with.log_bloom) + l2,
        );
        assert(l1 + Seq::<u8>::empty() =~= l1);
        lemma_string_is_no_list(with.log_bloom, l2, logs_rlp(without.logs), Seq::empty());
    }
}

/// The byte string that stands for an outcome in the encoding of a receipt.
pub open spec fn outcome_bytes(outcome: TransactionOutcome) -> Seq<u8> {
    match outcome {
        TransactionOutcome::Unknown => Seq::empty(),
        TransactionOutcome::StateRoot(root) => root@,
        TransactionOutcome::StatusCode(code) => be_bytes(code as nat),
    }
}

/// A known outcome is encoded as the string of its bytes: 32 for a state
/// root, at most one for a status code.
proof fn lemma_outcome_is_string(outcome: TransactionOutcome)
    requires
        outcome != TransactionOutcome::Unknown,
    ensures
        outcome_rlp(outcome) == rlp_string(outcome_bytes(outcome)),
        outcome is StateRoot ==> outcome_bytes(outcome).len() == 32,
        outcome is StatusCode ==> outcome_bytes(outcome).len() <= 1,
{
    lemma2_to64();
    match outcome {
        TransactionOutcome::StatusCode(code) => {
            lemma_be_bytes_len(code as nat, 1);
        },
        _ => {},
    }
}

/// Known outcomes that are encoded alike are the same.
proof fn lemma_outcome_bytes_injective(o1: TransactionOutcome, o2: TransactionOutcome)
    requires
        o1 != TransactionOutcome::Unknown,
        o2 != TransactionOutcome::Unknown,
        outcome_bytes(o1) == outcome_bytes(o2),
    ensures
        o1 == o2,
{
    lemma_outcome_is_string(o1);
    lemma_outcome_is_string(o2);
    match (o1, o2) {
        (TransactionOutcome::StateRoot(a), TransactionOutcome::StateRoot(b)) => {
            assert(a =~= b);
        },
        (TransactionOutcome::StatusCode(a), TransactionOutcome::StatusCode(b)) => {
            lemma_be_bytes_injective(a as nat, b as nat);
        },
        _ => {},
    }
}

/// What the list of a receipt holds: the outcome, then the rest.
pub open spec fn receipt_payload(r: ReceiptView) -> Seq<u8> {
    outcome_rlp(r.outcome) + receipt_tail_rlp(r)
}

/// The encoding of a receipt is the list of its payload.
proof fn lemma_receipt_is_list(r: ReceiptView)
    ensures
        receipt_rlp(r) == rlp_list(receipt_payload(r)),
        receipt_rlp(r).len() > receipt_payload(r).len(),
        receipt_payload(r).len() >= receipt_tail_rlp(r).len(),
{
    assert(outcome_rlp(r.outcome) + rlp_uint(r.gas_used) + rlp_string(r.log_bloom) + rlp_list(
        logs_rlp(r.logs),
    ) =~= receipt_payload(r));
}

/// Receipts with the same payload have the same outcome and the same rest.
proof fn lemma_payload_injective(r1: ReceiptView, r2: ReceiptView)
    requires
        receipt_payload(r1) == receipt_payload(r2),
        receipt_payload(r1).len() < 0x1_0000_0000_0000_0000,
    ensures
        r1.outcome == r2.outcome,
        receipt_tail_rlp(r1) == receipt_tail_rlp(r2),
{
    let unknown = TransactionOutcome::Unknown;
    if r1.outcome == unknown && r2.outcome == unknown {
        assert(receipt_payload(r1) =~= receipt_tail_rlp(r1));
        assert(receipt_payload(r2) =~= receipt_tail_rlp(r2));
    } else if r1.outcome == unknown {
        assert(receipt_payload(r1) =~= receipt_tail_rlp(r1));
        lemma_outcome_is_string(r2.outcome);
        lemma_outcome_counts(r2, outcome_bytes(r2.outcome), r1);
    } else if r2.outcome == unknown {
        assert(receipt_payload(r2) =~= receipt_tail_rlp(r2));
        lemma_outcome_is_string(r1.outcome);
        lemma_outcome_counts(r1, outcome_bytes(r1.outcome), r2);
    } else {
        lemma_outcome_is_string(r1.outcome);
        lemma_outcome_is_string(r2.outcome);
        lemma_split_string(
            outcome_bytes(r1.outcome),
            receipt_tail_rlp(r1),
            outcome_bytes(r2.outcome),
            receipt_tail_rlp(r2),
        );
        lemma_outcome_bytes_injective(r1.outcome, r2.outcome);
    }
}

/// Different receipts have different canonical encodings.
pub proof fn law_receipt_encoding_is_injective(r1: ReceiptView, r2: ReceiptView)
    requires
        receipt_rlp(r1) == receipt_rlp(r2),
        receipt_rlp(r1).len() < 0x1_0000_0000_0000_0000,
    ensures
        r1 == r2,
{
    lemma_receipt_is_list(r1);
    lemma_receipt_is_list(r2);
    let p1 = receipt_payload(r1);
    let p2 = receipt_payload(r2);
    assert(rlp_list(p1) + Seq::<u8>::empty() =~= rlp_list(p1));
    assert(rlp_list(p2) + Seq::<u8>::empty() =~= rlp_list(p2));
    lemma_split_list(p1, Seq::empty(), p2, Seq::empty());
    lemma_payload_injective(r1, r2);
    lemma_receipt_tail_injective(r1, r2);
}

/// A proof attests at most one receipt: two receipts that one proof attests
/// at one place under one root are the same receipt.
pub proof fn law_proof_attests_one_receipt(
    root: Seq<u8>,
    index: u64,
    blob: Seq<u8>,
    r1: ReceiptView,
    r2: ReceiptView,
)
    requires
        receipt_attested(root, index, blob, r1),
        receipt_attested(root, index, blob, r2),
        receipt_rlp(r1).len() < 0x1_0000_0000_0000_0000,
    ensures
        r1 == r2,
{
    law_receipt_encoding_is_injective(r1, r2);
}

} // verus!
