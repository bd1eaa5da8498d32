use blockchain::Block;
use blockchain::BlockValidationErr;
use blockchain::Blockchain;
use blockchain::Hashable;
use blockchain::Output;
use blockchain::Transaction;

const EASY: u128 = 1 << 120;

fn out(addr: &str, value: u64) -> Output {
    Output {
        to_addr: String::from(addr),
        value,
    }
}

fn coinbase(addr: &str, reward: u64) -> Transaction {
    Transaction {
        inputs: vec![out("sentinel", 0)],
        outputs: vec![out(addr, reward)],
    }
}

fn mined(index: u32, timestamp: u128, prev: Vec<u8>, txs: Vec<Transaction>) -> Block {
    let mut b = Block::new(index, timestamp, prev, txs, EASY);
    assert!(b.mine());
    b
}

/// A chain whose genesis block pays alice 50; returns it with the
/// genesis block's hash.
fn chain_with_genesis() -> (Blockchain, Vec<u8>) {
    let mut chain = Blockchain::new();
    let genesis = mined(
        0,
        100,
        vec![0u8; 32],
        vec![Transaction {
            inputs: vec![out("sentinel", 0)],
            outputs: vec![out("alice", 50)],
        }],
    );
    let genesis_hash = genesis.hash.clone();
    assert_eq!(chain.update_with_block(genesis), Ok(()));
    (chain, genesis_hash)
}

fn alice_output() -> Output {
    out("alice", 50)
}

#[test]
fn genesis_end_to_end() {
    let mut chain = Blockchain::new();
    let cb = Transaction {
        inputs: vec![out("0x0", 0)],
        outputs: vec![out("0x1", 1)],
    };
    let reward_hash = cb.outputs[0].hash();
    let mut block = Block::new(0, 1_690_000_000_000, vec![0u8; 32], vec![cb], EASY);
    assert!(block.mine());
    assert_eq!(chain.update_with_block(block), Ok(()));
    assert_eq!(chain.blocks.len(), 1);
    assert_eq!(chain.unspent_count(), 1);
    assert!(chain.is_unspent(&reward_hash));
}

#[test]
fn earlier_timestamp_rejected() {
    let (mut chain, genesis_hash) = chain_with_genesis();
    let late = mined(1, 99, genesis_hash, vec![coinbase("miner", 1)]);
    assert_eq!(
        chain.update_with_block(late),
        Err(BlockValidationErr::AchronologicalTimestamp)
    );
    assert_eq!(chain.blocks.len(), 1);
}

#[test]
fn wrong_index_rejected_regardless() {
    let (mut chain, genesis_hash) = chain_with_genesis();
    let skewed = mined(5, 200, genesis_hash, vec![coinbase("miner", 1)]);
    assert_eq!(
        chain.update_with_block(skewed),
        Err(BlockValidationErr::MismatchedIndex)
    );
    // an empty chain only takes index zero
    let mut fresh = Blockchain::new();
    let eager = mined(1, 100, vec![0u8; 32], vec![coinbase("miner", 1)]);
    assert_eq!(
        fresh.update_with_block(eager),
        Err(BlockValidationErr::MismatchedIndex)
    );
}

#[test]
fn impossible_difficulty_rejected() {
    let mut chain = Blockchain::new();
    // difficulty zero accepts no hash at all, so the block cannot pass
    let block = Block::new(0, 100, vec![0u8; 32], vec![coinbase("miner", 1)], 0);
    assert_eq!(
        chain.update_with_block(block),
        Err(BlockValidationErr::InvalidHash)
    );
    assert_eq!(chain.blocks.len(), 0);
}

#[test]
fn genesis_needs_zero_prev_hash() {
    let mut chain = Blockchain::new();
    let block = mined(0, 100, vec![1u8; 32], vec![coinbase("miner", 1)]);
    assert_eq!(
        chain.update_with_block(block),
        Err(BlockValidationErr::InvalidGenesisBlockFormat)
    );
}

#[test]
fn wrong_prev_hash_rejected() {
    let (mut chain, _genesis_hash) = chain_with_genesis();
    let unlinked = mined(1, 200, vec![0u8; 32], vec![coinbase("miner", 1)]);
    assert_eq!(
        chain.update_with_block(unlinked),
        Err(BlockValidationErr::MismatchedPreviousHash)
    );
}

#[test]
fn first_transaction_must_be_coinbase() {
    let (mut chain, genesis_hash) = chain_with_genesis();
    let not_coinbase = Transaction {
        inputs: vec![alice_output()],
        outputs: vec![out("bob", 50)],
    };
    let block = mined(1, 200, genesis_hash, vec![not_coinbase]);
    assert_eq!(
        chain.update_with_block(block),
        Err(BlockValidationErr::InvalidCoinbaseTransaction)
    );
}

#[test]
fn unknown_input_rejected() {
    let (mut chain, genesis_hash) = chain_with_genesis();
    let ghost_spend = Transaction {
        inputs: vec![out("nobody", 9)],
        outputs: vec![],
    };
    let block = mined(1, 200, genesis_hash, vec![coinbase("miner", 1), ghost_spend]);
    assert_eq!(
        chain.update_with_block(block),
        Err(BlockValidationErr::InvalidInput)
    );
}

#[test]
fn double_spend_within_block_rejected() {
    let (mut chain, genesis_hash) = chain_with_genesis();
    let first_spend = Transaction {
        inputs: vec![alice_output()],
        outputs: vec![out("bob", 50)],
    };
    let second_spend = Transaction {
        inputs: vec![alice_output()],
        outputs: vec![out("carol", 50)],
    };
    let block = mined(
        1,
        200,
        genesis_hash,
        vec![coinbase("miner", 1), first_spend, second_spend],
    );
    assert_eq!(
        chain.update_with_block(block),
        Err(BlockValidationErr::InvalidInput)
    );
    // nothing moved: the chain and the UTXO set are untouched
    assert_eq!(chain.blocks.len(), 1);
    assert!(chain.is_unspent(&alice_output().hash()));
    assert_eq!(chain.unspent_count(), 1);
}

#[test]
fn overspending_transaction_rejected() {
    let (mut chain, genesis_hash) = chain_with_genesis();
    let overspend = Transaction {
        inputs: vec![alice_output()],
        outputs: vec![out("bob", 60)],
    };
    let block = mined(1, 200, genesis_hash, vec![coinbase("miner", 1), overspend]);
    assert_eq!(
        chain.update_with_block(block),
        Err(BlockValidationErr::InsufficientInputValue)
    );
}

#[test]
fn underpaid_coinbase_rejected() {
    let (mut chain, genesis_hash) = chain_with_genesis();
    // the spend leaves a fee of 10, but the coinbase only claims 5
    let spend = Transaction {
        inputs: vec![alice_output()],
        outputs: vec![out("bob", 40)],
    };
    let block = mined(1, 200, genesis_hash, vec![coinbase("miner", 5), spend]);
    assert_eq!(
        chain.update_with_block(block),
        Err(BlockValidationErr::InvalidCoinbaseTransaction)
    );
}

#[test]
fn spend_moves_utxo() {
    let (mut chain, genesis_hash) = chain_with_genesis();
    let spend = Transaction {
        inputs: vec![alice_output()],
        outputs: vec![out("bob", 40)],
    };
    let block = mined(1, 200, genesis_hash, vec![coinbase("miner", 10), spend]);
    assert_eq!(chain.update_with_block(block), Ok(()));
    assert_eq!(chain.blocks.len(), 2);
    assert!(!chain.is_unspent(&alice_output().hash()));
    assert!(chain.is_unspent(&out("bob", 40).hash()));
    assert!(chain.is_unspent(&out("miner", 10).hash()));
    assert_eq!(chain.unspent_count(), 2);
}

#[test]
fn block_without_transactions_rejected() {
    let (mut chain, genesis_hash) = chain_with_genesis();
    let empty = mined(1, 200, genesis_hash, vec![]);
    assert_eq!(
        chain.update_with_block(empty),
        Err(BlockValidationErr::InvalidCoinbaseTransaction)
    );
    assert_eq!(chain.blocks.len(), 1);
    assert!(chain.is_unspent(&alice_output().hash()));
    assert_eq!(chain.unspent_count(), 1);
}
