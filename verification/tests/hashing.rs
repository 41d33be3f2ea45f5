use powchain::calculate_hash;
use powchain::check_difficulty;
use powchain::hash_to_binary_representation;
use powchain::hash_to_hex;
use powchain::mine_block;
use powchain::MineOutcome;
use sha2::Digest;
use sha2::Sha256;

#[test]
fn calculate_hash_digests_canonical_form() {
    let got = calculate_hash(1, 1000, "prev", "A", 5);
    let canonical = "{\"data\":\"A\",\"id\":1,\"nonce\":5,\"previous_hash\":\"prev\",\"timestamp\":1000}";
    let expected = Sha256::digest(canonical.as_bytes()).to_vec();
    assert_eq!(got, expected);
}

#[test]
fn hash_to_hex_exact() {
    let hx = hash_to_hex(&vec![0u8, 255u8, 16u8, 171u8]);
    assert_eq!(hx, "00ff10ab");
}

#[test]
fn binary_representation_pads_every_byte() {
    let bits: String = hash_to_binary_representation(&[0b0000_0011u8, 0xffu8])
        .into_iter()
        .collect();
    assert_eq!(bits, "0000001111111111");
}

#[test]
fn binary_representation_of_empty_is_empty() {
    assert!(hash_to_binary_representation(&[]).is_empty());
}

#[test]
fn check_difficulty_counts_leading_zero_bits() {
    // '3' is 0011, so exactly two leading zero bits.
    let h = format!("3{}", "f".repeat(63));
    assert!(check_difficulty(&h, 0));
    assert!(check_difficulty(&h, 2));
    assert!(!check_difficulty(&h, 3));
    let all_zero = "0".repeat(64);
    assert!(check_difficulty(&all_zero, 256));
    assert!(!check_difficulty(&all_zero, 257));
}

#[test]
fn check_difficulty_rejects_malformed_hashes() {
    assert!(!check_difficulty("00", 2));
    let upper = format!("3{}", "F".repeat(63));
    assert!(!check_difficulty(&upper, 2));
    let with_junk = format!("3{}g", "f".repeat(62));
    assert!(!check_difficulty(&with_junk, 2));
    assert!(!check_difficulty("", 0));
}

#[test]
fn mine_block_finds_the_least_winning_nonce() {
    match mine_block(2, 1, 1000, "prev", "A", None) {
        MineOutcome::Found { nonce, hash } => {
            let recomputed = hash_to_hex(&calculate_hash(1, 1000, "prev", "A", nonce));
            assert_eq!(hash, recomputed);
            assert!(check_difficulty(&hash, 2));
            for earlier in 0..nonce {
                let h = hash_to_hex(&calculate_hash(1, 1000, "prev", "A", earlier));
                assert!(!check_difficulty(&h, 2));
            }
        }
        MineOutcome::Cancelled => panic!("an unbounded search reported cancellation"),
    }
}

#[test]
fn mine_block_zero_difficulty_wins_immediately() {
    match mine_block(0, 0, 0, "", "", None) {
        MineOutcome::Found { nonce, .. } => assert_eq!(nonce, 0),
        MineOutcome::Cancelled => panic!("difficulty zero must always succeed"),
    }
}

#[test]
fn mine_block_reports_cancellation_when_budget_runs_out() {
    // 256 leading zero bits asks for an all-zero digest; no small budget finds one.
    match mine_block(256, 0, 0, "", "", Some(10)) {
        MineOutcome::Found { .. } => panic!("ten nonces cannot produce an all-zero digest"),
        MineOutcome::Cancelled => {}
    }
}
