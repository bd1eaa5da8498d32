use blockchain::Block;
use blockchain::Hashable;
use blockchain::Output;
use blockchain::Transaction;
use blockchain::check_difficulty;
use blockchain::encode::u128_bytes;
use std::time::{SystemTime, UNIX_EPOCH};

fn now() -> u128 {
    SystemTime::now()
        .duration_since(UNIX_EPOCH)
        .expect("system clock before epoch")
        .as_nanos()
}

#[test]
fn test_new_block() {
    let inputs = vec![Output {
        to_addr: String::from("0x0"),
        value: 0,
    }];
    let outputs = vec![Output {
        to_addr: String::from("0x1"),
        value: 1,
    }];
    let transaction = Transaction { inputs, outputs };
    let block = Block::new(0, now(), vec![0], vec![transaction], 1);
    assert_eq!(block.index, 0);
    assert_eq!(block.difficulty, 1);
    assert_ne!(block.bytes(), vec![0]);
}

#[test]
fn test_mine() {
    let inputs = vec![Output {
        to_addr: String::from("0x0"),
        value: 0,
    }];
    let outputs = vec![Output {
        to_addr: String::from("0x1"),
        value: 1,
    }];
    let transaction = Transaction { inputs, outputs };
    let mut block = Block::new(0, now(), vec![0], vec![transaction], 1 << 0xf * 8);
    block.mine();
    println!("{:?}", block);
    assert_eq!(check_difficulty(&block.hash, block.difficulty), true);
}

#[test]
fn test_hash() {
    // an entity whose canonical bytes are an id followed by a 128-bit
    // big-endian amount
    let id = String::from("0x00");
    let amount: u128 = 1000000;
    let mut bytes: Vec<u8> = Vec::new();
    bytes.extend(id.as_bytes());
    bytes.extend(u128_bytes(amount));
    assert_ne!(bytes, vec![0]);
}

#[test]
fn empty_transaction_hashes_like_no_bytes() {
    let tx = Transaction {
        inputs: vec![],
        outputs: vec![],
    };
    assert_eq!(tx.bytes(), Vec::<u8>::new());
    assert_eq!(
        hex::encode(tx.hash()),
        "e3b0c44298fc1c149afbf4c8996fb92427ae41e4649b934ca495991b7852b855"
    );
}

#[test]
fn output_hash_matches_direct_digest() {
    let o = Output {
        to_addr: String::from("alice"),
        value: 7,
    };
    let mut expected_bytes = "alice".as_bytes().to_vec();
    expected_bytes.extend(vec![0, 0, 0, 0, 0, 0, 0, 7]);
    assert_eq!(o.bytes(), expected_bytes);
    let expected = crypto_hash::digest(crypto_hash::Algorithm::SHA256, &expected_bytes);
    assert_eq!(o.hash(), expected);
    assert_eq!(o.hash().len(), 32);
}

#[test]
fn identical_outputs_hash_identically() {
    let a = Output {
        to_addr: String::from("alice"),
        value: 7,
    };
    let b = Output {
        to_addr: String::from("alice"),
        value: 7,
    };
    let c = Output {
        to_addr: String::from("alice"),
        value: 8,
    };
    assert_eq!(a.hash(), b.hash());
    assert_ne!(a.hash(), c.hash());
}

#[test]
fn hash_hex_renders_lowercase_pairs() {
    let mut block = Block::new(0, 0, vec![0u8; 32], vec![], 1);
    assert_eq!(block.hash_hex(), "0".repeat(64));
    block.hash = (0u8..32).collect();
    assert_eq!(
        block.hash_hex(),
        "000102030405060708090a0b0c0d0e0f101112131415161718191a1b1c1d1e1f"
    );
}

#[test]
fn mined_block_meets_its_difficulty() {
    let transaction = Transaction {
        inputs: vec![Output {
            to_addr: String::from("0x0"),
            value: 0,
        }],
        outputs: vec![Output {
            to_addr: String::from("0x1"),
            value: 1,
        }],
    };
    let mut block = Block::new(0, 42, vec![0u8; 32], vec![transaction], 1 << 120);
    assert!(block.mine());
    assert!(check_difficulty(&block.hash, block.difficulty));
    // the stored hash is the digest of the block's own canonical bytes
    assert_eq!(block.hash, block.hash());
}
