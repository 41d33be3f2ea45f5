use powchain::Block;

#[test]
fn test_genesis_block() {
    //create blockchain
    let blockchain = vec![Block::genesis()];
    assert_eq!(blockchain[0].id, 0);
}

#[test]
fn genesis_fields_are_fixed() {
    let g = Block::genesis();
    assert_eq!(g.previous_hash, "genesis");
    assert_eq!(g.data, "genesis!");
    assert!(g.transactions.is_empty());
    assert_eq!(g.hash.len(), 64);
}

#[test]
fn genesis_at_is_deterministic() {
    let a = Block::genesis_at(1_700_000_000, 42);
    let b = Block::genesis_at(1_700_000_000, 42);
    assert_eq!(a.hash, b.hash);
    assert_eq!(a.id, 0);
    assert_eq!(a.timestamp, 1_700_000_000);
    assert_eq!(a.nonce, 42);
}
