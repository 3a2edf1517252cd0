use std::sync::Arc;

use cita_hasher::HasherKeccak;
use cita_trie::{MemoryDB, PatriciaTrie, Trie};
use eth_light_client::error::Error;
use eth_light_client::header::EthereumHeader;
use eth_light_client::pow::EthereumNetworkType;
use eth_light_client::primitives::U256;
use eth_light_client::receipt::{
    EthereumReceipt, EthereumReceiptProof, LogEntry, TransactionOutcome,
};
use eth_light_client::trie::{step_through, to_nibbles, verify_proof, NodeStep};
use eth_light_client::{Config, Module, Origin};

fn receipt(i: u64) -> EthereumReceipt {
    let logs = vec![
        LogEntry {
            address: [i as u8; 20],
            topics: vec![[0xaa; 32], [i as u8 + 1; 32]],
            data: vec![i as u8; (i % 5) as usize],
        },
        LogEntry { address: [0x42; 20], topics: Vec::new(), data: vec![1, 2, 3] },
    ];
    let outcome = if i % 3 == 0 {
        TransactionOutcome::StatusCode((i % 2) as u8)
    } else if i % 3 == 1 {
        TransactionOutcome::StateRoot([i as u8; 32])
    } else {
        TransactionOutcome::Unknown
    };
    EthereumReceipt::new(outcome, U256::from_u64(21_000 * (i + 1)), logs)
}

fn key(index: u64) -> Vec<u8> {
    rlp::encode(&index).to_vec()
}

struct Block {
    root: [u8; 32],
    proofs: Vec<Vec<Vec<u8>>>,
}

fn block_of(count: u64) -> Block {
    let db = Arc::new(MemoryDB::new(true));
    let mut trie = PatriciaTrie::new(db, Arc::new(HasherKeccak::new()));
    for i in 0..count {
        trie.insert(key(i), receipt(i).rlp()).unwrap();
    }
    let mut root = [0u8; 32];
    root.copy_from_slice(&trie.root().unwrap());
    let proofs = (0..count).map(|i| trie.get_proof(&key(i)).unwrap()).collect();
    Block { root, proofs }
}

fn blob(nodes: &[Vec<u8>]) -> Vec<u8> {
    let mut stream = rlp::RlpStream::new_list(nodes.len());
    for node in nodes {
        stream.append(node);
    }
    stream.out().to_vec()
}

fn header(number: u64, receipts_root: [u8; 32]) -> EthereumHeader {
    let mut h = EthereumHeader {
        parent_hash: [0u8; 32],
        timestamp: 1000 + number,
        number,
        author: [0u8; 20],
        transactions_root: [0u8; 32],
        uncles_hash: [0u8; 32],
        extra_data: Vec::new(),
        state_root: [0u8; 32],
        receipts_root,
        log_bloom: [0u8; 256],
        gas_used: U256::zero(),
        gas_limit: U256::zero(),
        difficulty: U256::from_u64(1),
        seal: Vec::new(),
        hash: [0u8; 32],
    };
    h.hash = h.re_compute_hash();
    h
}

fn client_with(block: &Block, number: u64) -> Module {
    let config = Config { network: EthereumNetworkType::Mainnet, confirmations: 10 };
    let mut client = Module::new(config, 1000);
    assert_eq!(client.append_header(&header(number, block.root)), Ok(()));
    client
}

#[test]
fn receipt_encoding_agrees_with_the_rlp_crate() {
    let r = receipt(3);
    let mut stream = rlp::RlpStream::new_list(4);
    stream.append(&1u8);
    stream.append(&84_000u64);
    stream.append(&r.log_bloom.to_vec());
    stream.begin_list(2);
    stream.begin_list(3);
    stream.append(&vec![3u8; 20]);
    stream.begin_list(2);
    stream.append(&vec![0xaau8; 32]);
    stream.append(&vec![4u8; 32]);
    stream.append(&vec![3u8; 3]);
    stream.begin_list(3);
    stream.append(&vec![0x42u8; 20]);
    stream.begin_list(0);
    stream.append(&vec![1u8, 2, 3]);
    assert_eq!(r.rlp(), stream.out().to_vec());
    let unknown = receipt(2);
    assert_eq!(rlp::Rlp::new(&unknown.rlp()).item_count().unwrap(), 3);
    let rooted = receipt(1);
    let encoded = rooted.rlp();
    let item = rlp::Rlp::new(&encoded);
    assert_eq!(item.item_count().unwrap(), 4);
    assert_eq!(item.at(0).unwrap().data().unwrap().to_vec(), vec![1u8; 32]);
    let failed = receipt(0);
    let encoded = failed.rlp();
    assert_eq!(rlp::Rlp::new(&encoded).at(0).unwrap().as_raw().to_vec(), vec![0x80]);
}

#[test]
fn log_encoding_is_a_list_of_three() {
    let log = LogEntry { address: [1; 20], topics: vec![[2; 32]], data: vec![] };
    let mut expected = vec![0xf8, 21 + 34 + 1, 0x94];
    expected.extend_from_slice(&[1; 20]);
    expected.extend_from_slice(&[0xe1, 0xa0]);
    expected.extend_from_slice(&[2; 32]);
    expected.push(0x80);
    assert_eq!(log.rlp(), expected);
}

#[test]
fn bloom_is_that_of_the_logs() {
    let r = receipt(5);
    let mut expected = ethbloom::Bloom::zero();
    for log in &r.logs {
        expected.accrue(ethbloom::Input::Raw(&log.address));
        for topic in &log.topics {
            expected.accrue(ethbloom::Input::Raw(topic));
        }
    }
    assert_eq!(r.log_bloom, expected.0);
    assert_ne!(r.log_bloom, [0u8; 256]);
    let none = EthereumReceipt::new(TransactionOutcome::Unknown, U256::zero(), Vec::new());
    assert_eq!(none.log_bloom, [0u8; 256]);
    assert_eq!(none.gas_used, U256::zero());
    assert_eq!(none.outcome, TransactionOutcome::Unknown);
    let one = EthereumReceipt::new(
        TransactionOutcome::Unknown,
        U256::zero(),
        vec![LogEntry { address: [0x42; 20], topics: Vec::new(), data: Vec::new() }],
    );
    assert_eq!(one.log_bloom.iter().map(|b| b.count_ones()).sum::<u32>(), 3);
}

#[test]
fn a_single_receipt_is_proved() {
    let block = block_of(1);
    assert_eq!(block.proofs[0].len(), 1);
    let client = client_with(&block, 7);
    let proof = EthereumReceiptProof { index: 0, proof: blob(&block.proofs[0]) };
    assert_eq!(client.verify_receipt(Origin::Signed(1), 7, &proof, &receipt(0)), Ok(()));
}

#[test]
fn every_receipt_of_a_block_is_proved() {
    for count in [2u64, 3, 17, 130, 300] {
        let block = block_of(count);
        let client = client_with(&block, 7);
        for i in 0..count {
            let proof = EthereumReceiptProof { index: i, proof: blob(&block.proofs[i as usize]) };
            assert_eq!(proof.nodes(), Some(block.proofs[i as usize].clone()));
            assert_eq!(proof.attested(&block.root), Some(receipt(i).rlp()));
            assert!(receipt(i).is_attested(&block.root, &proof));
            assert_eq!(client.verify_receipt(Origin::Signed(1), 7, &proof, &receipt(i)), Ok(()));
        }
    }
}

#[test]
fn proof_verification_agrees_with_the_trie_crate() {
    let block = block_of(40);
    for i in 0..40u64 {
        let nodes = block.proofs[i as usize].clone();
        let expected =
            cita_trie::verify_proof(&block.root, &key(i), nodes.clone(), HasherKeccak::new())
                .unwrap();
        assert_eq!(verify_proof(&block.root, &key(i), &nodes), expected);
        assert!(expected.is_some());
    }
}

#[test]
fn another_receipt_is_not_proved() {
    let block = block_of(20);
    let client = client_with(&block, 7);
    let proof = EthereumReceiptProof { index: 4, proof: blob(&block.proofs[4]) };
    assert_eq!(
        client.verify_receipt(Origin::Signed(1), 7, &proof, &receipt(5)),
        Err(Error::ReceiptVF)
    );
    let mut changed = receipt(4);
    changed.gas_used = U256::from_u64(1);
    assert_eq!(
        client.verify_receipt(Origin::Signed(1), 7, &proof, &changed),
        Err(Error::ReceiptVF)
    );
    let mut bloom = receipt(4);
    bloom.log_bloom[0] ^= 1;
    assert_eq!(client.verify_receipt(Origin::Signed(1), 7, &proof, &bloom), Err(Error::ReceiptVF));
    let mut logs = receipt(4);
    logs.logs.pop();
    assert_eq!(client.verify_receipt(Origin::Signed(1), 7, &proof, &logs), Err(Error::ReceiptVF));
}

#[test]
fn a_proof_for_another_place_proves_nothing() {
    let block = block_of(20);
    let client = client_with(&block, 7);
    let proof = EthereumReceiptProof { index: 5, proof: blob(&block.proofs[4]) };
    assert_eq!(
        client.verify_receipt(Origin::Signed(1), 7, &proof, &receipt(4)),
        Err(Error::ReceiptVF)
    );
    assert_eq!(
        client.verify_receipt(Origin::Signed(1), 7, &proof, &receipt(5)),
        Err(Error::ReceiptVF)
    );
    let beyond = EthereumReceiptProof { index: 20, proof: blob(&block.proofs[4]) };
    assert_eq!(beyond.attested(&block.root), None);
}

#[test]
fn a_flipped_byte_breaks_the_proof() {
    let block = block_of(20);
    let client = client_with(&block, 7);
    let good = blob(&block.proofs[4]);
    let step = if good.len() > 400 { 7 } else { 1 };
    let mut at = 0;
    while at < good.len() {
        let mut bad = good.clone();
        bad[at] ^= 0x01;
        let proof = EthereumReceiptProof { index: 4, proof: bad };
        assert_eq!(
            client.verify_receipt(Origin::Signed(1), 7, &proof, &receipt(4)),
            Err(Error::ReceiptVF)
        );
        at += step;
    }
}

#[test]
fn a_proof_in_another_form_is_refused() {
    let block = block_of(3);
    let client = client_with(&block, 7);
    for bad in [Vec::new(), vec![0x80], vec![0xc0], vec![0xc1, 0xc0], vec![0xc2, 0x81, 0x05]] {
        let proof = EthereumReceiptProof { index: 0, proof: bad };
        assert_eq!(proof.attested(&block.root), None);
        assert_eq!(
            client.verify_receipt(Origin::Signed(1), 7, &proof, &receipt(0)),
            Err(Error::ReceiptVF)
        );
    }
    let list_in_list = EthereumReceiptProof { index: 0, proof: vec![0xc1, 0xc0] };
    assert_eq!(list_in_list.nodes(), None);
    let empty = EthereumReceiptProof { index: 0, proof: vec![0xc0] };
    assert_eq!(empty.nodes(), Some(Vec::new()));
    let mut trailing = blob(&block.proofs[0]);
    trailing.push(0);
    let proof = EthereumReceiptProof { index: 0, proof: trailing };
    assert_eq!(proof.nodes(), None);
}

#[test]
fn a_proof_under_another_root_proves_nothing() {
    let block = block_of(20);
    let other = block_of(21);
    let client = client_with(&other, 7);
    let proof = EthereumReceiptProof { index: 4, proof: blob(&block.proofs[4]) };
    assert_eq!(
        client.verify_receipt(Origin::Signed(1), 7, &proof, &receipt(4)),
        Err(Error::ReceiptVF)
    );
}

#[test]
fn nodes_out_of_order_prove_nothing() {
    let block = block_of(20);
    let mut nodes = block.proofs[4].clone();
    assert!(nodes.len() >= 2);
    nodes.swap(0, 1);
    assert_eq!(verify_proof(&block.root, &key(4), &nodes), None);
    let mut short = block.proofs[4].clone();
    short.pop();
    assert_eq!(verify_proof(&block.root, &key(4), &short), None);
    assert_eq!(verify_proof(&block.root, &key(4), &Vec::new()), None);
    let mut more = block.proofs[4].clone();
    more.push(vec![1, 2, 3]);
    assert_eq!(verify_proof(&block.root, &key(4), &more), Some(receipt(4).rlp()));
}

#[test]
fn crafted_nodes_are_refused() {
    let path = to_nibbles(&[0x12, 0x34]);
    assert_eq!(path, vec![1, 2, 3, 4]);
    for node in [
        vec![],
        vec![0x80],
        vec![0xc0],
        vec![0xc2, 0x80, 0x80],
        vec![0xc2, 0x00, 0x80],
        vec![0xc2, 0x40, 0x80],
        vec![0xc2, 0x01, 0x80],
        vec![0xc3, 0x20, 0x80, 0x80],
        vec![0xc2, 0xc0, 0x80],
    ] {
        assert!(matches!(step_through(&node, &path, 0), NodeStep::Fail));
    }
    let leaf = vec![0xc6, 0x83, 0x20, 0x12, 0x34, 0x81, 0x99];
    assert!(matches!(step_through(&leaf, &path, 0), NodeStep::Found(v) if v == vec![0x99]));
    assert!(matches!(step_through(&leaf, &path, 1), NodeStep::Fail));
    let odd_leaf = vec![0xc5, 0x82, 0x32, 0x34, 0x81, 0x99];
    assert!(matches!(step_through(&odd_leaf, &path, 1), NodeStep::Found(v) if v == vec![0x99]));
    assert!(matches!(step_through(&odd_leaf, &path, 0), NodeStep::Fail));
    let mut extension = vec![0xe4, 0x82, 0x00, 0x12, 0xa0];
    extension.extend_from_slice(&[7u8; 32]);
    assert!(matches!(
        step_through(&extension, &path, 0),
        NodeStep::Descend(h, 2) if h == [7u8; 32]
    ));
    assert!(matches!(step_through(&extension, &path, 2), NodeStep::Fail));
    let mut branch = vec![0xf1];
    branch.extend_from_slice(&[0x80; 3]);
    branch.push(0xa0);
    branch.extend_from_slice(&[8u8; 32]);
    branch.extend_from_slice(&[0x80; 12]);
    branch.push(0x55);
    assert!(matches!(step_through(&branch, &path, 2), NodeStep::Descend(h, 3) if h == [8u8; 32]));
    assert!(matches!(step_through(&branch, &path, 3), NodeStep::Fail));
    assert!(matches!(step_through(&branch, &path, 4), NodeStep::Found(v) if v == vec![0x55]));
}

#[test]
fn receipts_are_checked_up_to_the_tip() {
    let block = block_of(3);
    let config = Config { network: EthereumNetworkType::Mainnet, confirmations: 10 };
    let mut client = Module::new(config, 1000);
    let proof = EthereumReceiptProof { index: 0, proof: blob(&block.proofs[0]) };
    assert_eq!(
        client.verify_receipt(Origin::Signed(1), 9, &proof, &receipt(0)),
        Err(Error::FinalizedHeaderNE)
    );
    client.store.append(header(9, block.root));
    assert_eq!(client.append_header(&header(5, [1u8; 32])), Ok(()));
    assert_eq!(client.store.header_chain().unwrap().number, 5);
    assert!(client.store.header_by_number(9).is_some());
    assert_eq!(
        client.verify_receipt(Origin::Signed(1), 9, &proof, &receipt(0)),
        Err(Error::TooEarly)
    );
    assert_eq!(
        client.verify_receipt(Origin::Signed(1), 6, &proof, &receipt(0)),
        Err(Error::TooEarly)
    );
    assert_eq!(
        client.verify_receipt(Origin::Signed(1), 4, &proof, &receipt(0)),
        Err(Error::HeaderNE)
    );
    assert_eq!(
        client.verify_receipt(Origin::Signed(1), 5, &proof, &receipt(0)),
        Err(Error::ReceiptVF)
    );
    assert_eq!(client.append_header(&header(9, block.root)), Ok(()));
    assert_eq!(client.verify_receipt(Origin::Signed(1), 9, &proof, &receipt(0)), Ok(()));
}

#[test]
fn receipts_need_a_signed_caller() {
    let block = block_of(3);
    let client = client_with(&block, 7);
    let proof = EthereumReceiptProof { index: 0, proof: blob(&block.proofs[0]) };
    assert_eq!(
        client.verify_receipt(Origin::Root, 7, &proof, &receipt(0)),
        Err(Error::Unauthenticated)
    );
    assert_eq!(
        client.verify_receipt(Origin::Anonymous, 7, &proof, &receipt(0)),
        Err(Error::Unauthenticated)
    );
}

#[test]
fn receipts_are_checked_against_the_header_stored_last() {
    let older = block_of(3);
    let newer = block_of(4);
    let mut client = client_with(&older, 7);
    let old_proof = EthereumReceiptProof { index: 0, proof: blob(&older.proofs[0]) };
    let new_proof = EthereumReceiptProof { index: 3, proof: blob(&newer.proofs[3]) };
    assert_eq!(client.verify_receipt(Origin::Signed(1), 7, &old_proof, &receipt(0)), Ok(()));
    assert_eq!(client.append_header(&header(7, newer.root)), Ok(()));
    assert_eq!(client.verify_receipt(Origin::Signed(1), 7, &new_proof, &receipt(3)), Ok(()));
    assert_eq!(
        client.verify_receipt(Origin::Signed(1), 7, &old_proof, &receipt(0)),
        Err(Error::ReceiptVF)
    );
}

#[test]
fn bloom_bits_come_from_the_digest() {
    let address = [0x42u8; 20];
    let one = EthereumReceipt::new(
        TransactionOutcome::Unknown,
        U256::zero(),
        vec![LogEntry { address, topics: Vec::new(), data: Vec::new() }],
    );
    let digest = keccak_hash::keccak(&address[..]).0;
    let mut expected = [0u8; 256];
    for i in 0..3 {
        let bit = (digest[2 * i] as usize * 256 + digest[2 * i + 1] as usize) % 2048;
        expected[255 - bit / 8] |= 1 << (bit % 8);
    }
    assert_eq!(one.log_bloom, expected);
}
