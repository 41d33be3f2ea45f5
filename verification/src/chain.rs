//! The chain: an ordered sequence of blocks in which every block's id is its
//! position, every non-genesis block links to its predecessor's hash, and
//! every non-genesis block's hash meets the difficulty predicate.  `append`
//! admits one candidate against the current tip; `validate` re-checks the
//! whole sequence, as when a chain arrives from a peer.

use vstd::prelude::*;

use crate::block::Block;
use crate::hashing::bits_of_bytes;
use crate::hashing::check_difficulty;
use crate::hashing::hash_meets_difficulty;
use crate::hashing::hex_of;
use crate::hashing::leading_zeros;
use crate::hashing::lemma_bits_of_hex_of_bytes;

verus! {

/// Why a candidate block or a received chain is rejected.  Rejection leaves
/// the chain unmodified; it is a value, never an abort.
#[derive(Clone, Copy, Debug, PartialEq, Eq, Structural)]
pub enum ChainError {
    /// The candidate's `previous_hash` does not match the tip's `hash`.
    InvalidLink,
    /// The candidate's `id` is not exactly one greater than the tip's.
    InvalidSequence,
    /// The candidate's hash does not meet the difficulty predicate.
    InvalidProofOfWork,
    /// A builder was handed missing or out-of-range fields.
    MalformedInput,
}

/// Position `i` of the chain is properly formed: its id is its position
/// and, past genesis, it links to its predecessor and its hash meets the
/// difficulty predicate.
pub open spec fn block_ok(blocks: Seq<Block>, difficulty: nat, i: int) -> bool {
    &&& blocks[i].id as int == i
    &&& (i > 0 ==> blocks[i].previous_hash@ == blocks[i - 1].hash@ && hash_meets_difficulty(
        blocks[i].hash@,
        difficulty,
    ))
}

/// Every position is properly formed: ids count up from zero at genesis,
/// every later block links to its predecessor, and every later block's hash
/// meets the difficulty predicate (genesis is exempt).
pub open spec fn chain_valid(blocks: Seq<Block>, difficulty: nat) -> bool {
    forall|i: int| 0 <= i < blocks.len() ==> #[trigger] block_ok(blocks, difficulty, i)
}

/// The candidate continues the id sequence: zero on an empty chain, one more
/// than the tip otherwise.
pub open spec fn append_seq_ok(blocks: Seq<Block>, c: Block) -> bool {
    if blocks.len() == 0 {
        c.id == 0
    } else {
        c.id as int == blocks.last().id as int + 1
    }
}

/// The candidate links to the tip's hash; vacuous on an empty chain.
pub open spec fn append_link_ok(blocks: Seq<Block>, c: Block) -> bool {
    blocks.len() == 0 || c.previous_hash@ == blocks.last().hash@
}

/// The candidate carries proof of work; vacuous on an empty chain, since
/// genesis is exempt.
pub open spec fn append_pow_ok(blocks: Seq<Block>, c: Block, difficulty: nat) -> bool {
    blocks.len() == 0 || hash_meets_difficulty(c.hash@, difficulty)
}

/// What a full walk reports from position `i` on: the first violation wins,
/// and within one position the id is checked before the link and the link
/// before the proof of work.
pub open spec fn validate_from(blocks: Seq<Block>, difficulty: nat, i: int) -> Result<
    (),
    ChainError,
>
    decreases blocks.len() - i,
{
    if i >= blocks.len() {
        Ok(())
    } else if blocks[i].id as int != i {
        Err(ChainError::InvalidSequence)
    } else if i > 0 && blocks[i].previous_hash@ != blocks[i - 1].hash@ {
        Err(ChainError::InvalidLink)
    } else if i > 0 && !hash_meets_difficulty(blocks[i].hash@, difficulty) {
        Err(ChainError::InvalidProofOfWork)
    } else {
        validate_from(blocks, difficulty, i + 1)
    }
}

/// The walk from position `i` succeeds exactly when every position from `i`
/// on is properly formed.
pub proof fn lemma_validate_from_ok(blocks: Seq<Block>, difficulty: nat, i: int)
    requires
        0 <= i,
    ensures
        validate_from(blocks, difficulty, i) is Ok <==> (forall|j: int|
            i <= j < blocks.len() ==> block_ok(blocks, difficulty, j)),
    decreases blocks.len() - i,
{
    if i < blocks.len() {
        lemma_validate_from_ok(blocks, difficulty, i + 1);
        if validate_from(blocks, difficulty, i) is Ok {
            assert(block_ok(blocks, difficulty, i));
            assert forall|j: int| i <= j < blocks.len() implies block_ok(blocks, difficulty, j) by {
                if j > i {
                    assert(block_ok(blocks, difficulty, j));
                }
            }
        } else {
            if forall|j: int| i <= j < blocks.len() ==> block_ok(blocks, difficulty, j) {
                assert(block_ok(blocks, difficulty, i));
                assert(validate_from(blocks, difficulty, i + 1) is Ok);
                assert(false);
            }
        }
    }
}

/// Positions already known to be properly formed can be skipped: the walk
/// reports the same thing from either end of a clean stretch.
pub proof fn lemma_validate_from_skip(blocks: Seq<Block>, difficulty: nat, lo: int, hi: int)
    requires
        0 <= lo <= hi <= blocks.len(),
        forall|j: int| lo <= j < hi ==> block_ok(blocks, difficulty, j),
    ensures
        validate_from(blocks, difficulty, lo) == validate_from(blocks, difficulty, hi),
    decreases hi - lo,
{
    if lo < hi {
        assert(block_ok(blocks, difficulty, lo));
        lemma_validate_from_skip(blocks, difficulty, lo + 1, hi);
    }
}

/// A chain grown solely by successful appends stays valid: a candidate that
/// passes the three admission checks against a valid chain yields a valid
/// chain, so `validate` succeeds on it.
pub proof fn lemma_append_keeps_valid(blocks: Seq<Block>, c: Block, difficulty: nat)
    requires
        chain_valid(blocks, difficulty),
        append_seq_ok(blocks, c),
        append_link_ok(blocks, c),
        append_pow_ok(blocks, c, difficulty),
    ensures
        chain_valid(blocks.push(c), difficulty),
{
    let nb = blocks.push(c);
    assert forall|i: int| 0 <= i < nb.len() implies #[trigger] block_ok(nb, difficulty, i) by {
        if i < blocks.len() {
            assert(block_ok(blocks, difficulty, i));
            assert(nb[i] == blocks[i]);
            if i > 0 {
                assert(nb[i - 1] == blocks[i - 1]);
            }
        } else {
            if blocks.len() > 0 {
                assert(block_ok(blocks, difficulty, blocks.len() - 1));
                assert(nb[i - 1] == blocks.last());
            }
        }
    }
}

/// Tampering with a stored link is detected: changing the `previous_hash` of
/// any non-genesis block of a valid chain (keeping its id and hash) makes
/// the walk report `InvalidLink`, and the chain is no longer valid.
pub proof fn lemma_tampered_link_detected(blocks: Seq<Block>, difficulty: nat, i: int, b: Block)
    requires
        chain_valid(blocks, difficulty),
        1 <= i < blocks.len(),
        b.id == blocks[i].id,
        b.hash@ == blocks[i].hash@,
        b.previous_hash@ != blocks[i - 1].hash@,
    ensures
        validate_from(blocks.update(i, b), difficulty, 0) == Err::<(), ChainError>(
            ChainError::InvalidLink,
        ),
        !chain_valid(blocks.update(i, b), difficulty),
{
    let nb = blocks.update(i, b);
    assert forall|j: int| 0 <= j < i implies block_ok(nb, difficulty, j) by {
        assert(block_ok(blocks, difficulty, j));
        assert(nb[j] == blocks[j]);
        if j > 0 {
            assert(nb[j - 1] == blocks[j - 1]);
        }
    }
    lemma_validate_from_skip(nb, difficulty, 0, i);
    assert(block_ok(blocks, difficulty, i));
    assert(nb[i] == b && nb[i - 1] == blocks[i - 1]);
    assert(validate_from(nb, difficulty, i) == Err::<(), ChainError>(ChainError::InvalidLink));
    assert(!block_ok(nb, difficulty, i));
}

/// Every accepted block past genesis carries proof of work: on a valid
/// chain, a stored hash that renders some digest bytes attests that the
/// padded binary representation of those bytes begins with the difficulty's
/// run of zero bits.  Genesis, at position zero, is exempt.
pub proof fn lemma_accepted_block_pow(blocks: Seq<Block>, difficulty: nat, i: int, digest: Seq<u8>)
    requires
        chain_valid(blocks, difficulty),
        1 <= i < blocks.len(),
        blocks[i].hash@ == hex_of(digest),
    ensures
        hash_meets_difficulty(blocks[i].hash@, difficulty),
        leading_zeros(bits_of_bytes(digest), difficulty),
{
    assert(block_ok(blocks, difficulty, i));
    lemma_bits_of_hex_of_bytes(digest);
}

/// The ordered collection of accepted blocks, with the difficulty that every
/// non-genesis block must meet.
pub struct App {
    /// The accepted blocks, genesis first.
    pub blocks: Vec<Block>,
    /// The difficulty target, in leading zero bits.
    pub difficulty: u64,
}

impl App {
    /// An empty chain that will hold blocks to the given difficulty.
    pub fn new(difficulty: u64) -> (r: App)
        ensures
            r.blocks@ == Seq::<Block>::empty(),
            r.difficulty == difficulty,
    {
        App { blocks: Vec::new(), difficulty }
    }

    /// How many blocks have been accepted.
    pub fn len(&self) -> (r: usize)
        ensures
            r == self.blocks@.len(),
    {
        self.blocks.len()
    }

    /// The last accepted block.
    pub fn tip(&self) -> (r: &Block)
        requires
            self.blocks@.len() > 0,
        ensures
            *r == self.blocks@.last(),
    {
        &self.blocks[self.blocks.len() - 1]
    }

    /// Fork choice: a strictly longer chain is preferred over this one; a
    /// tie is left to the caller to adjudicate.
    pub fn should_adopt(&self, other: &App) -> (r: bool)
        ensures
            r == (other.blocks@.len() > self.blocks@.len()),
    {
        other.blocks.len() > self.blocks.len()
    }

    /// Admits `candidate` only if its sequence number, link and proof of
    /// work all check out against the current tip; an empty chain admits
    /// only a block with id zero (its genesis), which is exempt from the
    /// link and difficulty checks.  On rejection the chain is unchanged and
    /// the error names the first failed check, the sequence number being
    /// checked before the link and the link before the proof of work.
    pub fn append(&mut self, candidate: Block) -> (r: Result<(), ChainError>)
        ensures
            final(self).difficulty == old(self).difficulty,
            match r {
                Ok(()) => {
                    &&& append_seq_ok(old(self).blocks@, candidate)
                    &&& append_link_ok(old(self).blocks@, candidate)
                    &&& append_pow_ok(old(self).blocks@, candidate, old(self).difficulty as nat)
                    &&& final(self).blocks@ == old(self).blocks@.push(candidate)
                },
                Err(ChainError::InvalidSequence) => {
                    &&& *final(self) == *old(self)
                    &&& !append_seq_ok(old(self).blocks@, candidate)
                },
                Err(ChainError::InvalidLink) => {
                    &&& *final(self) == *old(self)
                    &&& append_seq_ok(old(self).blocks@, candidate)
                    &&& !append_link_ok(old(self).blocks@, candidate)
                },
                Err(ChainError::InvalidProofOfWork) => {
                    &&& *final(self) == *old(self)
                    &&& append_seq_ok(old(self).blocks@, candidate)
                    &&& append_link_ok(old(self).blocks@, candidate)
                    &&& !append_pow_ok(old(self).blocks@, candidate, old(self).difficulty as nat)
                },
                Err(ChainError::MalformedInput) => false,
            },
            r is Ok && chain_valid(old(self).blocks@, old(self).difficulty as nat) ==> chain_valid(
                final(self).blocks@,
                final(self).difficulty as nat,
            ),
    {
        let n: usize = self.blocks.len();
        if n == 0 {
            if candidate.id != 0 {
                return Err(ChainError::InvalidSequence);
            }
            proof {
                if chain_valid(self.blocks@, self.difficulty as nat) {
                    lemma_append_keeps_valid(self.blocks@, candidate, self.difficulty as nat);
                }
            }
            self.blocks.push(candidate);
            return Ok(());
        }
        let tip_id: u64 = self.blocks[n - 1].id;
        if tip_id == u64::MAX || candidate.id != tip_id + 1 {
            return Err(ChainError::InvalidSequence);
        }
        if candidate.previous_hash != self.blocks[n - 1].hash {
            return Err(ChainError::InvalidLink);
        }
        if !check_difficulty(candidate.hash.as_str(), self.difficulty) {
            return Err(ChainError::InvalidProofOfWork);
        }
        proof {
            if chain_valid(self.blocks@, self.difficulty as nat) {
                lemma_append_keeps_valid(self.blocks@, candidate, self.difficulty as nat);
            }
        }
        self.blocks.push(candidate);
        Ok(())
    }

    /// Walks the whole sequence from genesis and reports the first failure:
    /// the result is exactly `validate_from` at position zero, so success is
    /// equivalent to `chain_valid`.  Accepting a chain received from a peer
    /// goes through this check first.
    pub fn validate(&self) -> (r: Result<(), ChainError>)
        ensures
            r == validate_from(self.blocks@, self.difficulty as nat, 0),
            r is Ok <==> chain_valid(self.blocks@, self.difficulty as nat),
    {
        proof {
            lemma_validate_from_ok(self.blocks@, self.difficulty as nat, 0);
        }
        let n: usize = self.blocks.len();
        let mut i: usize = 0;
        while i < n
            invariant
                i <= n,
                n == self.blocks@.len(),
                validate_from(self.blocks@, self.difficulty as nat, 0) == validate_from(
                    self.blocks@,
                    self.difficulty as nat,
                    i as int,
                ),
            decreases n - i,
        {
            proof {
                lemma_validate_from_ok(self.blocks@, self.difficulty as nat, 0);
            }
            if self.blocks[i].id != i as u64 {
                return Err(ChainError::InvalidSequence);
            }
            if i > 0 {
                if self.blocks[i].previous_hash != self.blocks[i - 1].hash {
                    return Err(ChainError::InvalidLink);
                }
                if !check_difficulty(self.blocks[i].hash.as_str(), self.difficulty) {
                    return Err(ChainError::InvalidProofOfWork);
                }
            }
            i = i + 1;
        }
        Ok(())
    }
}

} // verus!
