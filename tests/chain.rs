use nock_wallet::{
    calculate_merkle_root, difficulty_to_target, search_nonce, Block, BlockHeader,
    BlockchainConfig, NockchainTransaction, OutPoint, TransactionInput, TransactionOutput,
    WalletError,
};
use sha2::{Digest, Sha256};

fn tx(data: &[u8]) -> NockchainTransaction {
    let mut t = NockchainTransaction::new(data.to_vec());
    t.inputs.push(TransactionInput {
        previous_output: OutPoint { transaction_id: "prev".to_string(), output_index: 0 },
        signature: vec![1, 2],
        public_key: [3; 32],
        amount: 10,
    });
    t.outputs.push(TransactionOutput {
        amount: 9,
        recipient_address: "someone".to_string(),
        script_pubkey: vec![],
    });
    t.fee = 1;
    t
}

fn pair(a: &[u8; 32], b: &[u8; 32]) -> [u8; 32] {
    let mut h = Sha256::new();
    h.update(a);
    h.update(b);
    h.finalize().into()
}

#[test]
fn transaction_hash_is_sha256_of_data() {
    let t = NockchainTransaction::new(b"abc".to_vec());
    assert_eq!(
        hex::encode(&t.hash),
        "ba7816bf8f01cfea414140de5dae2223b00361a396177a9cb410ff61f20015ad"
    );
    assert!(t.inputs.is_empty() && t.outputs.is_empty() && t.signatures.is_empty());
}

#[test]
fn merkle_root_of_no_transactions_is_zero() {
    assert_eq!(calculate_merkle_root(&[]), [0u8; 32]);
}

#[test]
fn merkle_root_of_one_transaction_is_its_hash() {
    let t = tx(b"one");
    let mut expected = [0u8; 32];
    expected.copy_from_slice(&t.hash);
    assert_eq!(calculate_merkle_root(&[t]), expected);

    let mut short = tx(b"short");
    short.hash = vec![7, 8, 9];
    let mut padded = [0u8; 32];
    padded[..3].copy_from_slice(&[7, 8, 9]);
    assert_eq!(calculate_merkle_root(&[short]), padded);

    let mut long = tx(b"long");
    long.hash = (0u8..40).collect();
    let mut cut = [0u8; 32];
    for i in 0..32 {
        cut[i] = i as u8;
    }
    assert_eq!(calculate_merkle_root(&[long]), cut);
}

#[test]
fn merkle_root_pairs_and_duplicates_odd_last() {
    let txs = vec![tx(b"a"), tx(b"b"), tx(b"c")];
    let leaf = |t: &NockchainTransaction| {
        let mut h = [0u8; 32];
        h.copy_from_slice(&t.hash);
        h
    };
    let (a, b, c) = (leaf(&txs[0]), leaf(&txs[1]), leaf(&txs[2]));
    let expected = pair(&pair(&a, &b), &pair(&c, &c));
    assert_eq!(calculate_merkle_root(&txs), expected);
    assert_eq!(calculate_merkle_root(&txs), calculate_merkle_root(&txs));

    let reordered = vec![tx(b"b"), tx(b"a"), tx(b"c")];
    assert_ne!(calculate_merkle_root(&reordered), expected);
}

#[test]
fn compact_bits_genesis_target() {
    let t = difficulty_to_target(0x1d00ffff);
    let mut expected = [0u8; 32];
    expected[4] = 0xff;
    expected[5] = 0xff;
    assert_eq!(t, expected);
    assert_eq!(
        hex::encode(t),
        "00000000ffff0000000000000000000000000000000000000000000000000000"
    );
}

#[test]
fn compact_bits_known_block_target() {
    assert_eq!(
        hex::encode(difficulty_to_target(0x1b0404cb)),
        "00000000000404cb000000000000000000000000000000000000000000000000"
    );
}

#[test]
fn compact_bits_small_and_large_exponents() {
    let t = difficulty_to_target(0x03123456);
    assert_eq!(&t[29..], &[0x12, 0x34, 0x56]);
    assert!(t[..29].iter().all(|b| *b == 0));
    let t = difficulty_to_target(0x02123456);
    assert_eq!(&t[29..], &[0x00, 0x12, 0x34]);
    let t = difficulty_to_target(0x01123456);
    assert_eq!(&t[29..], &[0x00, 0x00, 0x12]);
    assert_eq!(difficulty_to_target(0x20ffffff), [0u8; 32]);
    assert_eq!(difficulty_to_target(0x00123456), [0u8; 32]);
}

fn header(bits: u32) -> BlockHeader {
    BlockHeader {
        version: 1,
        previous_hash: [5; 32],
        merkle_root: [0; 32],
        timestamp: 1_700_000_000,
        bits,
        nonce: 0,
        height: 3,
    }
}

#[test]
fn header_hash_is_sha256_of_le_fields() {
    let h = header(0x1d00ffff);
    let mut s = Sha256::new();
    s.update(1u32.to_le_bytes());
    s.update([5u8; 32]);
    s.update([0u8; 32]);
    s.update(1_700_000_000u64.to_le_bytes());
    s.update(0x1d00ffffu32.to_le_bytes());
    s.update(0u64.to_le_bytes());
    s.update(3u64.to_le_bytes());
    let expected: [u8; 32] = s.finalize().into();
    assert_eq!(h.hash(), expected);
}

#[test]
fn meets_difficulty_compares_big_endian() {
    let mut h = header(0x1f7fffff);
    let found = search_nonce(&h, 0, 1_000_000).expect("a nonce under an easy target");
    h.nonce = found;
    assert!(h.meets_difficulty());
    let hash = h.hash();
    assert_eq!(hash[0], 0);
    assert!(hash[1] <= 0x7f);
    for n in 0..found {
        let mut other = h;
        other.nonce = n;
        assert!(!other.meets_difficulty());
    }
    let mut impossible = header(0x01000000);
    assert!(search_nonce(&impossible, 0, 50).is_none());
    impossible.nonce = 7;
    assert!(!impossible.meets_difficulty());
}

#[test]
fn mined_block_validates() {
    let mut block = Block::new([9; 32], vec![tx(b"x"), tx(b"y")], 1, 0x1f7fffff);
    assert_eq!(block.header.nonce, 0);
    assert_eq!(block.header.merkle_root, calculate_merkle_root(&block.transactions));
    block.mine().unwrap();
    assert!(block.header.meets_difficulty());
    assert_eq!(block.validate(), Ok(()));
    assert_eq!(block.hash(), block.header.hash());
}

#[test]
fn block_with_bad_proof_of_work_is_rejected() {
    let block = Block::new([9; 32], vec![tx(b"x")], 1, 0x01000000);
    assert_eq!(
        block.validate(),
        Err(WalletError::BlockValidation("Invalid proof of work".to_string()))
    );
}

#[test]
fn altered_transaction_breaks_merkle_root() {
    let mut block = Block::new([9; 32], vec![tx(b"x"), tx(b"y")], 1, 0x1f7fffff);
    block.mine().unwrap();
    block.transactions[1].hash[0] ^= 1;
    assert_eq!(
        block.validate(),
        Err(WalletError::BlockValidation("Invalid merkle root".to_string()))
    );
}

#[test]
fn block_with_empty_transaction_is_rejected() {
    let mut empty = tx(b"z");
    empty.outputs.clear();
    let mut block = Block::new([9; 32], vec![empty], 1, 0x1f7fffff);
    block.mine().unwrap();
    assert_eq!(
        block.validate(),
        Err(WalletError::BlockValidation("Transaction has no outputs".to_string()))
    );
    let mut no_inputs = tx(b"w");
    no_inputs.inputs.clear();
    let mut block = Block::new([9; 32], vec![no_inputs], 1, 0x1f7fffff);
    block.mine().unwrap();
    assert_eq!(
        block.validate(),
        Err(WalletError::BlockValidation("Transaction has no inputs".to_string()))
    );
}

#[test]
fn blockchain_config_defaults() {
    let c = BlockchainConfig::default();
    assert_eq!(c.initial_difficulty, 0x1d00ffff);
    assert_eq!(c.target_block_time, 600);
    assert_eq!(c.difficulty_adjustment_interval, 2016);
    assert_eq!(c.max_block_size, 1_000_000);
    assert_eq!(c.genesis_hash, [0u8; 32]);
}

#[test]
fn echo_returns_input() {
    assert_eq!(nock_wallet::echo_string("hello".to_string()), "hello");
}

#[test]
fn mining_stops_when_asked() {
    let mut block = Block::new([9; 32], vec![tx(b"x")], 1, 0x01000000);
    let before = block.header;
    assert_eq!(block.mine_until(|| true), Ok(false));
    assert_eq!(block.header.nonce, 0);
    assert_eq!(block.header.merkle_root, before.merkle_root);
    assert_eq!(block.header.bits, before.bits);

    let mut easy = Block::new([9; 32], vec![tx(b"x")], 1, 0x1f7fffff);
    assert_eq!(easy.mine_until(|| false), Ok(true));
    assert!(easy.header.meets_difficulty());
}

#[test]
fn mining_keeps_nonce_zero_when_it_already_meets() {
    let mut block = Block::new([9; 32], vec![tx(b"x")], 1, 0x1f7fffff);
    let found = search_nonce(&block.header, 0, 1_000_000).unwrap();
    block.header.nonce = found;
    let mut start = block.header;
    start.nonce = 0;
    if start.meets_difficulty() {
        let before = block.header;
        block.header.nonce = 0;
        block.mine().unwrap();
        assert_eq!(block.header.nonce, 0);
        assert_eq!(block.header.timestamp, before.timestamp);
    }
    let mut shifted = Block::new([9; 32], vec![tx(b"x")], 1, 0x1f7fffff);
    shifted.header.timestamp = 1;
    let mut probe = shifted.header;
    let mut t = 1u64;
    loop {
        probe.timestamp = t;
        probe.nonce = 0;
        if probe.meets_difficulty() {
            break;
        }
        t += 1;
    }
    shifted.header.timestamp = t;
    shifted.mine().unwrap();
    assert_eq!(shifted.header.nonce, 0);
    assert_eq!(shifted.header.timestamp, t);
}
