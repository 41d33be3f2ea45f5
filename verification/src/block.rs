//! Blocks and their construction: an ordinary block is mined (its nonce is
//! the first one whose digest meets the difficulty predicate), the genesis
//! block is stamped with a random nonce and exempt from the predicate, and
//! transactions are opaque records attached at construction time.

use vstd::prelude::*;
use vstd::string::StringExecFns;

use crate::encoding::canonical_of;
use crate::hashing::calculate_hash;
use crate::hashing::check_difficulty;
use crate::hashing::hash_meets_difficulty;
use crate::hashing::hash_to_hex;
use crate::hashing::hex_of;
use crate::hashing::sha256_of;

verus! {

/// An opaque record attached to a block; not a value transfer and not
/// authenticated by this core.
#[derive(Clone, Debug)]
pub struct Transaction {
    /// Caller-supplied anti-replay value.
    pub nonce: u128,
    /// Opaque identifier of the originator.
    pub from: String,
    /// Creation instant, seconds since the epoch.
    pub created_at: i64,
    /// The payload being recorded.
    pub record: String,
    /// Optional opaque signature; its presence is not verified here.
    pub signature: Option<String>,
}

/// One unit of the ledger.
#[derive(Clone, Debug)]
pub struct Block {
    /// Sequence position, starting at zero for genesis.
    pub id: u64,
    /// Hexadecimal digest of the canonical form of the other hashed fields.
    pub hash: String,
    /// The hash of the preceding block; a fixed sentinel for genesis.
    pub previous_hash: String,
    /// Creation instant, seconds since the epoch.
    pub timestamp: i64,
    /// Arbitrary payload.
    pub data: String,
    /// The winning value found by the miner.
    pub nonce: u64,
    /// Records attached at construction time; order is preserved.
    pub transactions: Vec<Transaction>,
}

/// The outcome of a bounded nonce search.
#[derive(Clone, Debug)]
pub enum MineOutcome {
    /// The first nonce whose digest meets the difficulty predicate, with the
    /// hexadecimal digest it produces.
    Found { nonce: u64, hash: String },
    /// The attempt budget was exhausted without a winning nonce.
    Cancelled,
}

/// Whether `nonce` wins the puzzle for the given fields and difficulty.
pub open spec fn attempt_ok(
    difficulty: u64,
    id: u64,
    timestamp: i64,
    previous_hash: Seq<char>,
    data: Seq<char>,
    nonce: u64,
) -> bool {
    hash_meets_difficulty(
        hex_of(sha256_of(canonical_of(id, timestamp, previous_hash, data, nonce))),
        difficulty as nat,
    )
}

/// The invariant of every constructed block: the stored hash is the digest
/// of the block's own fields.
pub open spec fn block_hash_consistent(b: Block) -> bool {
    b.hash@ == hex_of(
        sha256_of(canonical_of(b.id, b.timestamp, b.previous_hash@, b.data@, b.nonce)),
    )
}

/// Whether `k` is within the attempt budget.
pub open spec fn in_budget(budget: Option<u64>, k: u64) -> bool {
    match budget {
        Some(b) => k < b,
        None => true,
    }
}

/// Relies on chrono::Utc::now: the current time in whole seconds since the
/// Unix epoch; nothing is assumed of the value.
#[verifier::external_body]
fn now_seconds() -> i64 {
    chrono::Utc::now().timestamp()
}

/// Relies on rand::random: an arbitrary machine-chosen value; nothing is
/// assumed of it.
#[verifier::external_body]
fn random_u64() -> u64 {
    rand::random()
}

/// Brute-force search for the least winning nonce, from zero upward.  A
/// budget of `Some(b)` tries the nonces below `b` and reports `Cancelled`
/// once they are exhausted, so a caller can bound each slice of work; `None`
/// tries every nonce there is.
pub fn mine_block(
    difficulty: u64,
    id: u64,
    timestamp: i64,
    previous_hash: &str,
    data: &str,
    budget: Option<u64>,
) -> (r: MineOutcome)
    ensures
        match r {
            MineOutcome::Found { nonce, hash } => {
                &&& attempt_ok(difficulty, id, timestamp, previous_hash@, data@, nonce)
                &&& hash@ == hex_of(
                    sha256_of(canonical_of(id, timestamp, previous_hash@, data@, nonce)),
                )
                &&& in_budget(budget, nonce)
                &&& forall|k: u64|
                    k < nonce ==> !attempt_ok(difficulty, id, timestamp, previous_hash@, data@, k)
            },
            MineOutcome::Cancelled => forall|k: u64|
                in_budget(budget, k) ==> !#[trigger] attempt_ok(
                    difficulty,
                    id,
                    timestamp,
                    previous_hash@,
                    data@,
                    k,
                ),
        },
{
    let bound: u64 = match budget {
        Some(b) => {
            if b == 0 {
                return MineOutcome::Cancelled;
            }
            b - 1
        },
        None => u64::MAX,
    };
    let mut nonce: u64 = 0;
    loop
        invariant
            nonce <= bound,
            match budget {
                Some(b) => b >= 1 && bound == b - 1,
                None => bound == u64::MAX,
            },
            forall|k: u64|
                k < nonce ==> !attempt_ok(difficulty, id, timestamp, previous_hash@, data@, k),
        decreases bound - nonce,
    {
        let digest: Vec<u8> = calculate_hash(id, timestamp, previous_hash, data, nonce);
        let hx: String = hash_to_hex(&digest);
        if check_difficulty(hx.as_str(), difficulty) {
            return MineOutcome::Found { nonce, hash: hx };
        }
        if nonce == bound {
            return MineOutcome::Cancelled;
        }
        nonce = nonce + 1;
    }
}

impl Block {
    /// Assembles and mines a block for a given moment: the nonce is the
    /// least winner, and `None` comes back only if no nonce at all meets the
    /// difficulty predicate for these fields.
    pub fn new_at(
        difficulty: u64,
        id: u64,
        previous_hash: String,
        data: String,
        transactions: Vec<Transaction>,
        timestamp: i64,
    ) -> (r: Option<Block>)
        ensures
            match r {
                Some(b) => {
                    &&& b.id == id
                    &&& b.timestamp == timestamp
                    &&& b.previous_hash@ == previous_hash@
                    &&& b.data@ == data@
                    &&& b.transactions@ == transactions@
                    &&& block_hash_consistent(b)
                    &&& hash_meets_difficulty(b.hash@, difficulty as nat)
                    &&& attempt_ok(difficulty, id, timestamp, previous_hash@, data@, b.nonce)
                    &&& forall|k: u64|
                        k < b.nonce ==> !attempt_ok(
                            difficulty,
                            id,
                            timestamp,
                            previous_hash@,
                            data@,
                            k,
                        )
                },
                None => forall|k: u64|
                    !attempt_ok(difficulty, id, timestamp, previous_hash@, data@, k),
            },
    {
        let outcome: MineOutcome = mine_block(
            difficulty,
            id,
            timestamp,
            previous_hash.as_str(),
            data.as_str(),
            None,
        );
        match outcome {
            MineOutcome::Found { nonce, hash } => Some(
                Block { id, hash, timestamp, previous_hash, data, nonce, transactions },
            ),
            MineOutcome::Cancelled => None,
        }
    }

    /// Stamps the current time and mines.  The clock chooses the timestamp,
    /// so whether a winning nonce exists depends on it; whatever moment was
    /// stamped, a returned block carries the requested fields, is internally
    /// consistent, and meets the difficulty predicate.
    pub fn new(
        difficulty: u64,
        id: u64,
        previous_hash: String,
        data: String,
        transactions: Vec<Transaction>,
    ) -> (r: Option<Block>)
        ensures
            match r {
                Some(b) => {
                    &&& b.id == id
                    &&& b.previous_hash@ == previous_hash@
                    &&& b.data@ == data@
                    &&& b.transactions@ == transactions@
                    &&& block_hash_consistent(b)
                    &&& hash_meets_difficulty(b.hash@, difficulty as nat)
                },
                None => true,
            },
    {
        let timestamp: i64 = now_seconds();
        Self::new_at(difficulty, id, previous_hash, data, transactions, timestamp)
    }

    /// Assembles the genesis block for a given moment and nonce: position
    /// zero, the sentinel predecessor and a fixed payload, hashed like any
    /// other block but deliberately not held to the difficulty predicate.
    pub fn genesis_at(timestamp: i64, nonce: u64) -> (r: Block)
        ensures
            r.id == 0,
            r.timestamp == timestamp,
            r.nonce == nonce,
            r.previous_hash@ == "genesis"@,
            r.data@ == "genesis!"@,
            r.transactions@ == Seq::<Transaction>::empty(),
            block_hash_consistent(r),
    {
        let previous_hash: String = String::from_str("genesis");
        let data: String = String::from_str("genesis!");
        let digest: Vec<u8> = calculate_hash(
            0,
            timestamp,
            previous_hash.as_str(),
            data.as_str(),
            nonce,
        );
        let hash: String = hash_to_hex(&digest);
        Block { id: 0, hash, timestamp, previous_hash, data, nonce, transactions: Vec::new() }
    }

    /// Seeds a chain: the genesis block for the current time and a randomly
    /// chosen nonce.
    pub fn genesis() -> (r: Block)
        ensures
            r.id == 0,
            r.previous_hash@ == "genesis"@,
            r.data@ == "genesis!"@,
            r.transactions@ == Seq::<Transaction>::empty(),
            block_hash_consistent(r),
    {
        let timestamp: i64 = now_seconds();
        let nonce: u64 = random_u64();
        Self::genesis_at(timestamp, nonce)
    }
}

impl Transaction {
    /// A standalone record stamped with the current time; the signature is
    /// absent until an outer layer supplies one.
    pub fn new(from: String, transaction_data: String, nonce: u128) -> (r: Transaction)
        ensures
            r.from@ == from@,
            r.record@ == transaction_data@,
            r.nonce == nonce,
            r.signature is None,
    {
        let created_at: i64 = now_seconds();
        Transaction { from, nonce, record: transaction_data, created_at, signature: None }
    }
}

} // verus!
