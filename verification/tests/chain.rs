use powchain::calculate_hash;
use powchain::hash_to_hex;
use powchain::App;
use powchain::Block;
use powchain::ChainError;
use powchain::Transaction;

const DIFFICULTY: u64 = 2;

fn mined_block(id: u64, previous_hash: &str, data: &str) -> Block {
    Block::new_at(
        DIFFICULTY,
        id,
        previous_hash.to_string(),
        data.to_string(),
        Vec::new(),
        1_700_000_000,
    )
    .expect("some nonce meets a two-bit difficulty")
}

#[test]
fn append_then_validate_scenario() {
    let genesis = Block::genesis();
    assert_eq!(genesis.id, 0);
    assert_eq!(genesis.previous_hash, "genesis");
    let block1 = mined_block(1, &genesis.hash, "A");
    let mut chain = App::new(DIFFICULTY);
    assert!(chain.append(genesis).is_ok());
    assert!(chain.append(block1).is_ok());
    assert_eq!(chain.len(), 2);
    assert_eq!(chain.tip().id, 1);
    assert!(chain.validate().is_ok());
}

#[test]
fn append_rejects_skipped_id() {
    let mut chain = App::new(DIFFICULTY);
    assert!(chain.append(Block::genesis()).is_ok());
    let skipping = mined_block(2, &chain.tip().hash.clone(), "B");
    assert_eq!(chain.append(skipping), Err(ChainError::InvalidSequence));
    assert_eq!(chain.len(), 1);
}

#[test]
fn append_rejects_broken_link() {
    let mut chain = App::new(DIFFICULTY);
    assert!(chain.append(Block::genesis()).is_ok());
    let unlinked = mined_block(1, "not the tip hash", "B");
    assert_eq!(chain.append(unlinked), Err(ChainError::InvalidLink));
    assert_eq!(chain.len(), 1);
}

#[test]
fn append_rejects_weak_proof_of_work() {
    let mut chain = App::new(DIFFICULTY);
    assert!(chain.append(Block::genesis()).is_ok());
    let weak = Block {
        id: 1,
        // 'f' opens with a one bit, so this hash meets no positive difficulty.
        hash: "f".repeat(64),
        previous_hash: chain.tip().hash.clone(),
        timestamp: 1_700_000_000,
        data: "B".to_string(),
        nonce: 0,
        transactions: Vec::new(),
    };
    assert_eq!(chain.append(weak), Err(ChainError::InvalidProofOfWork));
    assert_eq!(chain.len(), 1);
}

#[test]
fn append_on_empty_chain_wants_id_zero() {
    let mut chain = App::new(DIFFICULTY);
    let not_genesis = mined_block(1, "genesis", "B");
    assert_eq!(chain.append(not_genesis), Err(ChainError::InvalidSequence));
    assert_eq!(chain.len(), 0);
}

#[test]
fn validate_detects_mutated_link() {
    let genesis = Block::genesis();
    let block1 = mined_block(1, &genesis.hash, "A");
    let block2 = mined_block(2, &block1.hash, "B");
    let mut chain = App::new(DIFFICULTY);
    assert!(chain.append(genesis).is_ok());
    assert!(chain.append(block1).is_ok());
    assert!(chain.append(block2).is_ok());
    assert!(chain.validate().is_ok());
    chain.blocks[1].previous_hash = "tampered".to_string();
    assert_eq!(chain.validate(), Err(ChainError::InvalidLink));
}

#[test]
fn validate_accepts_empty_chain() {
    let chain = App::new(DIFFICULTY);
    assert!(chain.validate().is_ok());
}

#[test]
fn mutating_data_changes_the_hash() {
    let genesis = Block::genesis();
    let block1 = mined_block(1, &genesis.hash, "A");
    let stored_recomputed = hash_to_hex(&calculate_hash(
        block1.id,
        block1.timestamp,
        &block1.previous_hash,
        "A",
        block1.nonce,
    ));
    assert_eq!(stored_recomputed, block1.hash);
    let mutated = hash_to_hex(&calculate_hash(
        block1.id,
        block1.timestamp,
        &block1.previous_hash,
        "B",
        block1.nonce,
    ));
    assert_ne!(mutated, block1.hash);
}

#[test]
fn fork_choice_prefers_strictly_longer() {
    let genesis = Block::genesis();
    let block1 = mined_block(1, &genesis.hash, "A");
    let mut short = App::new(DIFFICULTY);
    assert!(short.append(genesis.clone()).is_ok());
    let mut long = App::new(DIFFICULTY);
    assert!(long.append(genesis).is_ok());
    assert!(long.append(block1).is_ok());
    assert!(short.should_adopt(&long));
    assert!(!long.should_adopt(&short));
    assert!(!long.should_adopt(&long));
}

#[test]
fn transaction_new_sets_fields() {
    let t = Transaction::new("alice".to_string(), "note".to_string(), 12345u128);
    assert_eq!(t.from, "alice");
    assert_eq!(t.record, "note");
    assert_eq!(t.nonce, 12345u128);
    assert!(t.signature.is_none());
}

#[test]
fn block_new_carries_its_transactions() {
    let genesis = Block::genesis();
    let t = Transaction::new("bob".to_string(), "entry".to_string(), 1u128);
    let block = Block::new(
        DIFFICULTY,
        1,
        genesis.hash.clone(),
        "A".to_string(),
        vec![t],
    )
    .expect("some nonce meets a two-bit difficulty");
    assert_eq!(block.transactions.len(), 1);
    assert_eq!(block.transactions[0].record, "entry");
    let mut chain = App::new(DIFFICULTY);
    assert!(chain.append(genesis).is_ok());
    assert!(chain.append(block).is_ok());
    assert!(chain.validate().is_ok());
}
