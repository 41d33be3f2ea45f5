//! Integrity core of a minimal proof-of-work ledger: deterministic block
//! hashing over a canonical field-keyed form, a brute-force nonce search
//! against a difficulty target, and a chain that only admits blocks whose
//! link, sequence number and proof of work check out.

pub mod block;
pub mod chain;
pub mod encoding;
pub mod hashing;

pub use chain::App;
pub use chain::ChainError;

pub use block::mine_block;
pub use block::Block;
pub use block::MineOutcome;
pub use block::Transaction;
pub use encoding::canonical_chars;
pub use hashing::calculate_hash;
pub use hashing::check_difficulty;
pub use hashing::hash_to_binary_representation;
pub use hashing::hash_to_hex;
