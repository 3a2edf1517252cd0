use eth_light_client::error::Error;
use eth_light_client::header::EthereumHeader;
use eth_light_client::pow::{EthashPartial, EthashSeal, EthereumNetworkType};
use eth_light_client::primitives::U256;
use eth_light_client::proof_of_work::{epoch_params, light_mix, meets};
use eth_light_client::{Config, Module, Origin};

fn hex(s: &str) -> Vec<u8> {
    let digits: Vec<u8> = s.bytes().map(|c| (c as char).to_digit(16).unwrap() as u8).collect();
    digits.chunks(2).map(|p| p[0] * 16 + p[1]).collect()
}

fn h256(s: &str) -> [u8; 32] {
    let mut out = [0u8; 32];
    out.copy_from_slice(&hex(s));
    out
}

fn address(s: &str) -> [u8; 20] {
    let mut out = [0u8; 20];
    out.copy_from_slice(&hex(s));
    out
}

const EMPTY_LIST_HASH: &str = "1dcc4de8dec75d7aab85b567b6ccd41ad312451b948a7413f0a142fd40d49347";
const EMPTY_TRIE_ROOT: &str = "56e81f171bcc55a6ff8345e692c0f86e5b48e01b996cadc001622fb5e363b421";
const GENESIS_HASH: &str = "d4e56740f876aef8c010b86a40d5f56745a118d0906a34e69aec8c0db1cb8fa3";
const BLOCK_1_HASH: &str = "88e96d4537bea4d9c05d12549907b32561d3bf31f45aae734cdc119f13406cb6";
const BLOCK_1_MIX: &str = "969b900de27b6ac6a67742365dd65f55a0526c41fd18e1b16f1a1215c2e66f59";

fn mainnet_genesis() -> EthereumHeader {
    EthereumHeader {
        parent_hash: [0u8; 32],
        timestamp: 0,
        number: 0,
        author: [0u8; 20],
        transactions_root: h256(EMPTY_TRIE_ROOT),
        uncles_hash: h256(EMPTY_LIST_HASH),
        extra_data: hex("11bbe8db4e347b4e8c937c1c8370e4b5ed33adb3db69cbdb7a38e1e50b1b82fa"),
        state_root: h256("d7f8974fb5ac78d9ac099b9ad5018bedc2ce0a72dad1827a1709da30580f0544"),
        receipts_root: h256(EMPTY_TRIE_ROOT),
        log_bloom: [0u8; 256],
        gas_used: U256::from_u64(0),
        gas_limit: U256::from_u64(5000),
        difficulty: U256::from_u64(0x4_0000_0000),
        seal: vec![
            hex("a00000000000000000000000000000000000000000000000000000000000000000"),
            hex("880000000000000042"),
        ],
        hash: h256(GENESIS_HASH),
    }
}

fn mainnet_block_1() -> EthereumHeader {
    EthereumHeader {
        parent_hash: h256(GENESIS_HASH),
        timestamp: 0x55ba4224,
        number: 1,
        author: address("05a56e2d52c817161883f50c441c3228cfe54d9f"),
        transactions_root: h256(EMPTY_TRIE_ROOT),
        uncles_hash: h256(EMPTY_LIST_HASH),
        extra_data: hex("476574682f76312e302e302f6c696e75782f676f312e342e32"),
        state_root: h256("d67e4d450343046425ae4271474353857ab860dbc0a1dde64b41b5cd3a532bf3"),
        receipts_root: h256(EMPTY_TRIE_ROOT),
        log_bloom: [0u8; 256],
        gas_used: U256::from_u64(0),
        gas_limit: U256::from_u64(5000),
        difficulty: U256::from_u64(0x3_ff80_0000),
        seal: vec![
            hex("a0969b900de27b6ac6a67742365dd65f55a0526c41fd18e1b16f1a1215c2e66f59"),
            hex("88539bd4979fef1ec4"),
        ],
        hash: h256(BLOCK_1_HASH),
    }
}

fn rehashed(mut header: EthereumHeader) -> EthereumHeader {
    header.hash = header.re_compute_hash();
    header
}

fn mainnet_client() -> Module {
    let config = Config { network: EthereumNetworkType::Mainnet, confirmations: 10 };
    let mut client = Module::new(config, 1000);
    assert!(client.set_genesis_header(Origin::Root, mainnet_genesis()).is_ok());
    client
}

#[test]
fn genesis_hash_is_recomputed() {
    assert_eq!(mainnet_genesis().re_compute_hash(), h256(GENESIS_HASH));
}

#[test]
fn block_1_hash_is_recomputed() {
    assert_eq!(mainnet_block_1().re_compute_hash(), h256(BLOCK_1_HASH));
    assert_eq!(mainnet_block_1().hash(), h256(BLOCK_1_HASH));
}

#[test]
fn bare_hash_leaves_the_seal_out() {
    let mut other = mainnet_block_1();
    other.seal = Vec::new();
    assert_eq!(mainnet_block_1().bare_hash(), other.bare_hash());
    assert_eq!(other.bare_hash(), other.re_compute_hash());
    assert_ne!(mainnet_block_1().bare_hash(), mainnet_block_1().re_compute_hash());
}

#[test]
fn block_1_seal_parses() {
    let seal = EthashSeal::parse_seal(&mainnet_block_1().seal).unwrap();
    assert_eq!(seal.mix_hash, h256(BLOCK_1_MIX));
    assert_eq!(seal.nonce, [0x53, 0x9b, 0xd4, 0x97, 0x9f, 0xef, 0x1e, 0xc4]);
}

#[test]
fn malformed_seals_do_not_parse() {
    let good = mainnet_block_1().seal;
    assert_eq!(EthashSeal::parse_seal(&Vec::new()), Err(Error::SealParseErr));
    assert_eq!(EthashSeal::parse_seal(&vec![good[0].clone()]), Err(Error::SealParseErr));
    let three = vec![good[0].clone(), good[1].clone(), good[1].clone()];
    assert_eq!(EthashSeal::parse_seal(&three), Err(Error::SealParseErr));
    let swapped = vec![good[1].clone(), good[0].clone()];
    assert_eq!(EthashSeal::parse_seal(&swapped), Err(Error::SealParseErr));
    let mut short = good.clone();
    short[0].pop();
    assert_eq!(EthashSeal::parse_seal(&short), Err(Error::SealParseErr));
    let mut prefix = good.clone();
    prefix[1][0] = 0x87;
    assert_eq!(EthashSeal::parse_seal(&prefix), Err(Error::SealParseErr));
    let raw = vec![good[0][1..].to_vec(), good[1][1..].to_vec()];
    assert_eq!(EthashSeal::parse_seal(&raw), Err(Error::SealParseErr));
}

#[test]
fn block_1_difficulty_is_prescribed() {
    let params = EthashPartial::production();
    let d = params.calculate_difficulty(&mainnet_block_1(), &mainnet_genesis());
    assert_eq!(d, Some(U256::from_u64(17171480576)));
}

#[test]
fn block_2_difficulty_is_prescribed() {
    let params = EthashPartial::production();
    let mut block_2 = mainnet_block_1();
    block_2.number = 2;
    block_2.timestamp = 1438270017;
    let d = params.calculate_difficulty(&block_2, &mainnet_block_1());
    assert_eq!(d, Some(U256::from_u64(17163096064)));
}

#[test]
fn frontier_difficulty_rises_for_a_quick_block() {
    let params = EthashPartial::production();
    let mut quick = mainnet_block_1();
    quick.timestamp = 12;
    let d = params.calculate_difficulty(&quick, &mainnet_genesis());
    assert_eq!(d, Some(U256::from_u64(17179869184 + 8388608)));
    quick.timestamp = 13;
    let d = params.calculate_difficulty(&quick, &mainnet_genesis());
    assert_eq!(d, Some(U256::from_u64(17179869184 - 8388608)));
}

fn parent_at(number: u64, difficulty: u64, timestamp: u64) -> EthereumHeader {
    let mut parent = mainnet_genesis();
    parent.number = number;
    parent.difficulty = U256::from_u64(difficulty);
    parent.timestamp = timestamp;
    parent
}

fn child_at(number: u64, timestamp: u64) -> EthereumHeader {
    let mut child = mainnet_block_1();
    child.number = number;
    child.timestamp = timestamp;
    child
}

#[test]
fn homestead_difficulty_follows_the_block_time() {
    let params = EthashPartial::production();
    let parent = parent_at(1_999_999, 1_000_000, 1000);
    let bomb = 1u64 << 18;
    let d = params.calculate_difficulty(&child_at(2_000_000, 1005), &parent);
    assert_eq!(d, Some(U256::from_u64(1_000_000 + 488 + bomb)));
    let d = params.calculate_difficulty(&child_at(2_000_000, 1010), &parent);
    assert_eq!(d, Some(U256::from_u64(1_000_000 + bomb)));
    let d = params.calculate_difficulty(&child_at(2_000_000, 1025), &parent);
    assert_eq!(d, Some(U256::from_u64(1_000_000 - 488 + bomb)));
    let d = params.calculate_difficulty(&child_at(2_000_000, 1000 + 10 * 150), &parent);
    assert_eq!(d, Some(U256::from_u64(1_000_000 - 99 * 488 + bomb)));
}

#[test]
fn difficulty_is_never_below_the_minimum() {
    let params = EthashPartial::production();
    let parent = parent_at(1_999_999, 131_072, 1000);
    let d = params.calculate_difficulty(&child_at(2_000_000, 1000 + 10 * 150), &parent);
    assert_eq!(d, Some(U256::from_u64(131_072 + (1 << 18))));
}

#[test]
fn uncles_raise_the_difficulty_after_the_transition() {
    let params = EthashPartial::production();
    let mut parent = parent_at(4_999_999, 1_000_000, 1000);
    let bomb = 1u64 << 18;
    let d = params.calculate_difficulty(&child_at(5_000_000, 1005), &parent);
    assert_eq!(d, Some(U256::from_u64(1_000_000 + 488 + bomb)));
    parent.uncles_hash = [7u8; 32];
    let d = params.calculate_difficulty(&child_at(5_000_000, 1005), &parent);
    assert_eq!(d, Some(U256::from_u64(1_000_000 + 2 * 488 + bomb)));
    let d = params.calculate_difficulty(&child_at(5_000_000, 1009), &parent);
    assert_eq!(d, Some(U256::from_u64(1_000_000 + 488 + bomb)));
    let d = params.calculate_difficulty(&child_at(4_000_000, 1005), &parent);
    assert_eq!(d, Some(U256::from_u64(1_000_000 + 488 + (1u64 << 38))));
}

#[test]
fn delays_set_the_exponential_term_back() {
    let params = EthashPartial::production();
    let parent = parent_at(9_999_999, 1_000_000, 1000);
    let d = params.calculate_difficulty(&child_at(10_000_000, 1009), &parent);
    assert_eq!(d, Some(U256::from_u64(1_000_000 + (1 << 8))));
    let ropsten = EthashPartial::ropsten_testnet();
    let parent = parent_at(99, 1_000_000, 1000);
    let d = ropsten.calculate_difficulty(&child_at(100, 1005), &parent);
    assert_eq!(d, Some(U256::from_u64(1_000_000 + 488)));
}

#[test]
fn a_difficulty_beyond_256_bits_is_none() {
    let mut params = EthashPartial::production();
    params.difficulty_bound_divisor = U256::from_u64(1);
    assert!(params.is_well_formed());
    let mut parent = parent_at(0, 0, 0);
    parent.difficulty = U256::max_value();
    assert_eq!(params.calculate_difficulty(&child_at(1, 5), &parent), None);
    params.difficulty_bound_divisor = U256::from_u64(0);
    assert!(!params.is_well_formed());
}

#[test]
fn block_1_keeps_basic_rules() {
    let params = EthashPartial::production();
    assert_eq!(params.verify_block_basic(&mainnet_block_1()), Ok(()));
    assert_eq!(params.verify_block_family(&mainnet_block_1(), &mainnet_genesis()), Ok(()));
}

#[test]
fn basic_rules_reject() {
    let params = EthashPartial::production();
    let mut early = mainnet_block_1();
    early.timestamp = 0;
    assert_eq!(params.verify_block_family(&early, &mainnet_genesis()), Err(Error::BlockBasicVF));
    let mut later = mainnet_block_1();
    later.timestamp = 1;
    assert_eq!(params.verify_block_family(&later, &mainnet_genesis()), Ok(()));
    let mut easy = mainnet_block_1();
    easy.difficulty = U256::from_u64(131071);
    assert_eq!(params.verify_block_basic(&easy), Err(Error::BlockBasicVF));
    easy.seal = Vec::new();
    assert_eq!(params.verify_block_basic(&easy), Err(Error::BlockBasicVF));
    easy.difficulty = U256::from_u64(131072);
    assert_eq!(params.verify_block_basic(&easy), Ok(()));
    let mut hard = mainnet_block_1();
    hard.difficulty = U256::max_value();
    assert_eq!(params.verify_block_basic(&hard), Err(Error::BlockBasicVF));
    let mut other_nonce = mainnet_block_1();
    other_nonce.seal[1][8] ^= 1;
    assert_eq!(params.verify_block_basic(&other_nonce), Err(Error::BlockBasicVF));
    let mut unsealed = mainnet_block_1();
    unsealed.seal = Vec::new();
    assert_eq!(params.verify_block_basic(&unsealed), Ok(()));
}

#[test]
fn basic_rules_of_the_header_come_before_the_parent() {
    let client = mainnet_client();
    let params = EthashPartial::production();
    let mut easy = mainnet_block_1();
    easy.seal = Vec::new();
    easy.difficulty = U256::from_u64(131071);
    easy.parent_hash = [9u8; 32];
    assert_eq!(client.check_difficulty(&easy, &params), Err(Error::BlockBasicVF));
    let mut weak = mainnet_block_1();
    weak.parent_hash = [9u8; 32];
    assert_eq!(client.check_difficulty(&weak, &params), Err(Error::BlockBasicVF));
    let mut early = mainnet_block_1();
    early.seal = Vec::new();
    early.timestamp = 0;
    early.parent_hash = [9u8; 32];
    assert_eq!(client.check_difficulty(&early, &params), Err(Error::HeaderNE));
    early.parent_hash = h256(GENESIS_HASH);
    assert_eq!(client.check_difficulty(&early, &params), Err(Error::BlockBasicVF));
    early.difficulty = U256::from_u64(5);
    assert_eq!(client.check_difficulty(&early, &params), Err(Error::BlockBasicVF));
    early.difficulty = U256::from_u64(0x3_ff80_0001);
    early.timestamp = 0x55ba4224;
    assert_eq!(client.check_difficulty(&early, &params), Err(Error::DifficultyVF));
}

#[test]
fn the_hash_of_the_content_can_be_given() {
    let client = mainnet_client();
    let header = mainnet_block_1();
    assert_eq!(client.verify_header_basic_with(&header, &h256(BLOCK_1_HASH)), Ok(()));
    assert_eq!(
        client.verify_header_basic_with(&header, &h256(GENESIS_HASH)),
        Err(Error::HeaderHashMismatch)
    );
    let mut other = mainnet_block_1();
    other.hash = [3u8; 32];
    other.number = 2;
    assert_eq!(
        client.verify_header_basic_with(&other, &[3u8; 32]),
        Err(Error::BlockNumberMismatch)
    );
    assert_eq!(client.verify_header_basic(&other), Err(Error::HeaderHashMismatch));
}

#[test]
fn the_hash_of_the_empty_list_can_be_given() {
    let params = EthashPartial::production();
    let parent = parent_at(4_999_999, 1_000_000, 1000);
    let child = child_at(5_000_000, 1005);
    let bomb = 1u64 << 18;
    let d = params.calculate_difficulty_with(&child, &parent, &h256(EMPTY_LIST_HASH));
    assert_eq!(d, Some(U256::from_u64(1_000_000 + 488 + bomb)));
    assert_eq!(d, params.calculate_difficulty(&child, &parent));
    let d = params.calculate_difficulty_with(&child, &parent, &[1u8; 32]);
    assert_eq!(d, Some(U256::from_u64(1_000_000 + 2 * 488 + bomb)));
}

#[test]
fn proof_of_work_meets_difficulty_up_to_the_boundary() {
    let two = U256::from_u64(2);
    let half = U256([0, 0, 0, 1 << 63]);
    let above = U256([1, 0, 0, 1 << 63]);
    assert!(meets(&half, &two));
    assert!(!meets(&above, &two));
    assert!(meets(&U256::max_value(), &U256::from_u64(1)));
    assert!(meets(&U256::max_value(), &U256::from_u64(0)));
    let three = U256::from_u64(3);
    let third = U256([0x5555_5555_5555_5555; 4]);
    let more = U256([0x5555_5555_5555_5556, 0x5555_5555_5555_5555, 0x5555_5555_5555_5555, 0x5555_5555_5555_5555]);
    assert!(meets(&third, &three));
    assert!(!meets(&more, &three));
    assert!(meets(&U256::from_u64(1), &U256::max_value()));
    assert!(!meets(&U256::from_u64(2), &U256::max_value()));
}

#[test]
fn epochs_have_their_seed_and_sizes() {
    let first = epoch_params(29_999).unwrap();
    assert_eq!(first.seed, [0u8; 32]);
    assert_eq!(first.cache_bytes, 16776896);
    assert_eq!(first.full_bytes, 1073739904);
    let second = epoch_params(30_000).unwrap();
    assert_eq!(
        second.seed,
        h256("290decd9548b62a8d60345a988386fc84ba6bc95484008f6362f93160ef3e563")
    );
    assert_eq!(second.cache_bytes, 16907456);
    assert_eq!(second.full_bytes, 1082130304);
    assert!(epoch_params(2048 * 30_000 - 1).is_some());
    assert_eq!(epoch_params(2048 * 30_000), None);
    assert_eq!(epoch_params(u64::MAX), None);
}

#[test]
fn light_computation_yields_the_known_mix_hash() {
    let bare = h256("c9149cc0386e689d789a1c2f3d5d169a61a6218ed30e74414dc736e442ef3d1f");
    let mix = light_mix(&bare, &[0u8; 8], &[0u8; 32], 1024, 32 * 1024);
    assert_eq!(
        mix,
        Some(h256("e4073cffaef931d37117cefd9afd27ea0f1cad6a981dd2605c4a1ac97c519800"))
    );
}

#[test]
fn light_computation_depends_on_each_argument() {
    let bare = h256("c9149cc0386e689d789a1c2f3d5d169a61a6218ed30e74414dc736e442ef3d1f");
    let base = light_mix(&bare, &[0u8; 8], &[0u8; 32], 1024, 32 * 1024).unwrap();
    assert_ne!(base, bare);
    assert_ne!(light_mix(&[1u8; 32], &[0u8; 8], &[0u8; 32], 1024, 32 * 1024).unwrap(), base);
    assert_ne!(light_mix(&bare, &[1u8; 8], &[0u8; 32], 1024, 32 * 1024).unwrap(), base);
    assert_ne!(light_mix(&bare, &[0u8; 8], &[1u8; 32], 1024, 32 * 1024).unwrap(), base);
    assert_ne!(light_mix(&bare, &[0u8; 8], &[0u8; 32], 2048, 32 * 1024).unwrap(), base);
    assert_ne!(light_mix(&bare, &[0u8; 8], &[0u8; 32], 1024, 64 * 1024).unwrap(), base);
    let mut cache = vec![0u8; 1024];
    ethash::make_cache(&mut cache, ethereum_types::H256([0u8; 32]));
    let direct = ethash::hashimoto_light(
        ethereum_types::H256(bare),
        ethereum_types::H64([0u8; 8]),
        32 * 1024,
        &cache,
    );
    assert_eq!(base, direct.0 .0);
}

#[test]
fn light_computation_refuses_unusable_sizes() {
    let bare = [3u8; 32];
    assert_eq!(light_mix(&bare, &[0u8; 8], &[0u8; 32], 0, 32 * 1024), None);
    assert_eq!(light_mix(&bare, &[0u8; 8], &[0u8; 32], 1000, 32 * 1024), None);
    assert_eq!(light_mix(&bare, &[0u8; 8], &[0u8; 32], 1024, 127), None);
    assert!(light_mix(&bare, &[0u8; 8], &[0u8; 32], 64, 128).is_some());
    assert_eq!(light_mix(&bare, &[0u8; 8], &[0u8; 32], 0x1100_0040, 32 * 1024), None);
    assert_eq!(light_mix(&bare, &[0u8; 8], &[0u8; 32], usize::MAX - 63, 32 * 1024), None);
}

#[test]
fn mix_hashes_are_compared() {
    let mix = h256(BLOCK_1_MIX);
    assert_eq!(Module::check_mix_hash(&mix, &mix), Ok(()));
    let mut other = mix;
    other[31] ^= 1;
    assert_eq!(Module::check_mix_hash(&mix, &other), Err(Error::MixHashVF));
}

#[test]
fn proof_of_work_needs_a_seal_that_parses() {
    let params = EthashPartial::production();
    let mut header = mainnet_block_1();
    header.seal[0][0] = 0xa1;
    assert_eq!(Module::check_pow(&header, &params), Err(Error::SealParseErr));
    assert_eq!(params.calculate_mixhash(&header), Err(Error::SealParseErr));
    header.seal = Vec::new();
    assert_eq!(Module::check_pow(&header, &params), Err(Error::SealParseErr));
}

#[test]
fn proof_of_work_is_not_computed_beyond_the_last_epoch() {
    let params = EthashPartial::production();
    let mut header = mainnet_block_1();
    header.number = 2048 * 30_000;
    assert_eq!(Module::check_pow(&header, &params), Err(Error::MixHashCF));
    assert_eq!(params.calculate_mixhash(&header), Err(Error::MixHashCF));
}

#[test]
fn block_1_passes_the_checks_before_the_proof_of_work() {
    let client = mainnet_client();
    let params = EthashPartial::for_network(EthereumNetworkType::Mainnet);
    assert_eq!(client.verify_header_basic(&mainnet_block_1()), Ok(()));
    assert_eq!(client.check_difficulty(&mainnet_block_1(), &params), Ok(()));
}

#[test]
fn submission_needs_a_signed_caller() {
    let mut client = mainnet_client();
    let r = client.maintain_header_chain(Origin::Root, mainnet_block_1());
    assert_eq!(r, Err(Error::Unauthenticated));
    let r = client.maintain_header_chain(Origin::Anonymous, mainnet_block_1());
    assert_eq!(r, Err(Error::Unauthenticated));
    assert_eq!(client.store.header_chain(), None);
}

#[test]
fn submission_checks_the_hash_first() {
    let mut client = mainnet_client();
    let mut header = mainnet_block_1();
    header.extra_data.push(0);
    header.parent_hash = [9u8; 32];
    header.seal = Vec::new();
    header.number = 5000;
    let r = client.maintain_header_chain(Origin::Signed(1), header);
    assert_eq!(r, Err(Error::HeaderHashMismatch));
    let mut declared = mainnet_block_1();
    declared.hash[0] ^= 0x80;
    let r = client.maintain_header_chain(Origin::Signed(1), declared);
    assert_eq!(r, Err(Error::HeaderHashMismatch));
    assert_eq!(client.store.header_chain(), None);
    assert!(client.store.header(&h256(BLOCK_1_HASH)).is_none());
}

#[test]
fn submission_needs_a_genesis_header() {
    let config = Config { network: EthereumNetworkType::Mainnet, confirmations: 10 };
    let mut client = Module::new(config, 1000);
    let r = client.maintain_header_chain(Origin::Signed(1), mainnet_block_1());
    assert_eq!(r, Err(Error::GenesisHeaderNE));
}

#[test]
fn submission_rejects_a_block_before_genesis() {
    let config = Config { network: EthereumNetworkType::Mainnet, confirmations: 10 };
    let mut client = Module::new(config, 1000);
    let mut genesis = mainnet_genesis();
    genesis.number = 5;
    assert!(client.set_genesis_header(Origin::Root, genesis).is_ok());
    let mut header = mainnet_block_1();
    header.number = 4;
    let r = client.maintain_header_chain(Origin::Signed(1), rehashed(header));
    assert_eq!(r, Err(Error::TooEarly));
}

#[test]
fn submission_needs_the_parent() {
    let mut client = mainnet_client();
    let mut header = mainnet_block_1();
    header.parent_hash = [9u8; 32];
    let r = client.maintain_header_chain(Origin::Signed(1), rehashed(header));
    assert_eq!(r, Err(Error::PrevHeaderNE));
}

#[test]
fn submission_checks_the_number_against_the_parent() {
    let mut client = mainnet_client();
    let mut header = mainnet_block_1();
    header.number = 2;
    let r = client.maintain_header_chain(Origin::Signed(1), rehashed(header));
    assert_eq!(r, Err(Error::BlockNumberMismatch));
    let mut same = mainnet_block_1();
    same.number = 0;
    let r = client.maintain_header_chain(Origin::Signed(1), rehashed(same));
    assert_eq!(r, Err(Error::BlockNumberMismatch));
}

#[test]
fn submission_checks_the_basic_rules() {
    let mut client = mainnet_client();
    let mut header = mainnet_block_1();
    header.timestamp = 0;
    let r = client.maintain_header_chain(Origin::Signed(1), rehashed(header));
    assert_eq!(r, Err(Error::BlockBasicVF));
}

#[test]
fn submission_checks_the_difficulty() {
    let mut client = mainnet_client();
    let mut header = mainnet_block_1();
    header.seal = Vec::new();
    header.difficulty = U256::from_u64(0x3_ff80_0001);
    let r = client.maintain_header_chain(Origin::Signed(1), rehashed(header));
    assert_eq!(r, Err(Error::DifficultyVF));
    let params = EthashPartial::production();
    let mut lower = mainnet_block_1();
    lower.seal = Vec::new();
    lower.difficulty = U256::from_u64(0x3_ff7f_ffff);
    assert_eq!(client.check_difficulty(&lower, &params), Err(Error::DifficultyVF));
}

#[test]
fn difficulty_check_needs_the_parent() {
    let client = mainnet_client();
    let params = EthashPartial::production();
    let mut header = mainnet_block_1();
    header.seal = Vec::new();
    header.parent_hash = [9u8; 32];
    assert_eq!(client.check_difficulty(&header, &params), Err(Error::HeaderNE));
}

#[test]
fn submission_rejects_a_seal_that_does_not_parse() {
    let mut client = mainnet_client();
    let mut header = mainnet_block_1();
    header.seal = vec![hex("a0"), hex("88")];
    let r = client.maintain_header_chain(Origin::Signed(1), rehashed(header));
    assert_eq!(r, Err(Error::SealParseErr));
    assert_eq!(client.store.header_chain(), None);
}

#[test]
fn submission_fails_where_the_mix_hash_cannot_be_computed() {
    let config = Config { network: EthereumNetworkType::Ropsten, confirmations: 10 };
    let mut client = Module::new(config, u64::MAX);
    let number = 2048 * 30_000;
    let mut genesis = mainnet_genesis();
    genesis.number = number - 1;
    genesis.difficulty = U256::from_u64(131_072);
    genesis.timestamp = 1000;
    assert!(client.set_genesis_header(Origin::Root, genesis).is_ok());
    let mut header = mainnet_block_1();
    header.number = number;
    header.timestamp = 1009;
    header.seal = vec![hex(&format!("a0{}", BLOCK_1_MIX)), hex("880000000000000000")];
    let params = EthashPartial::ropsten_testnet();
    header.difficulty =
        params.calculate_difficulty(&header, client.store.genesis_header().unwrap()).unwrap();
    header.seal[1] = {
        let mut s = vec![0x88u8];
        s.extend_from_slice(&111_977u64.to_be_bytes());
        s
    };
    assert_eq!(params.verify_block_basic(&header), Ok(()));
    let r = client.maintain_header_chain(Origin::Signed(1), rehashed(header));
    assert_eq!(r, Err(Error::MixHashCF));
}

#[test]
fn block_1_passes_every_stage_with_its_own_mix_hash() {
    let mut client = mainnet_client();
    let params = EthashPartial::for_network(client.config.network);
    let header = mainnet_block_1();
    assert_eq!(client.verify_header_basic(&header), Ok(()));
    assert_eq!(client.check_difficulty(&header, &params), Ok(()));
    let seal = EthashSeal::parse_seal(header.seal()).unwrap();
    assert_eq!(Module::check_mix_hash(&seal.mix_hash, &h256(BLOCK_1_MIX)), Ok(()));
    assert!(client.store.can_accumulate(header.difficulty()));
    assert_eq!(client.append_header(&header), Ok(()));
    let tip = client.store.header_chain().unwrap();
    assert_eq!(tip.hash, h256(BLOCK_1_HASH));
    assert_eq!(tip.number, 1);
    assert_eq!(tip.parent_hash, h256(GENESIS_HASH));
    assert_eq!(tip.total_difficulty, U256::from_u64(17171480576));
    assert_eq!(client.store.header(&h256(BLOCK_1_HASH)), Some(&header));
}
