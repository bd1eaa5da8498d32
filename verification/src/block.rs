use vstd::prelude::*;

use crate::encode::{
    lemma_pow256_16, lemma_pow256_increases, lemma_prefix_val_bounds, pow256, prefix_val, u128_be,
    u128_bytes, u32_be, u32_bytes, u64_be, u64_bytes,
};
use crate::hashable::{Hashable, hex_encode, hex_of, sha256_digest, sha256_of};
use crate::transaction::{Transaction, tx_bytes};
use crate::zero_hash;
use vstd::slice::slice_to_vec;

verus! {

/// An indexed, timestamped container of transactions, linked to its
/// predecessor by hash and mined against a difficulty target.
#[derive(Clone, Debug)]
pub struct Block {
    pub index: u32,
    pub timestamp: u128,
    pub hash: crate::Hash,
    pub prev_block_hash: crate::Hash,
    pub nonce: u64,
    pub transactions: Vec<Transaction>,
    pub difficulty: u128,
}

/// Canonical bytes of a run of transactions: each transaction's bytes in
/// order.
pub open spec fn txs_bytes(ts: Seq<Transaction>) -> Seq<u8>
    decreases ts.len(),
{
    if ts.len() == 0 {
        Seq::empty()
    } else {
        txs_bytes(ts.drop_last()) + tx_bytes(ts.last())
    }
}

/// Canonical bytes of a block: index, timestamp, predecessor hash, nonce,
/// every transaction's bytes, then the difficulty, integers in fixed
/// big-endian widths. The block's own `hash` field is not part of them.
pub open spec fn block_bytes(b: Block) -> Seq<u8> {
    u32_be(b.index) + u128_be(b.timestamp) + b.prev_block_hash@ + u64_be(b.nonce) + txs_bytes(
        b.transactions@,
    ) + u128_be(b.difficulty)
}

/// The same block with another nonce: what each mining attempt hashes.
pub open spec fn with_nonce(b: Block, n: u64) -> Block {
    Block { nonce: n, ..b }
}

/// The proof-of-work acceptance rule: the leading 16 bytes of the hash,
/// read as one big-endian integer, must lie strictly below `difficulty`.
/// A larger `difficulty` therefore accepts more hashes — easier, not
/// harder, the inverse of the conventional proof-of-work framing. The
/// comparison is kept exactly this way round on purpose.
pub open spec fn spec_check_difficulty(hash: Seq<u8>, difficulty: u128) -> bool {
    difficulty > prefix_val(hash, 16)
}

/// Decides whether `hash` meets the difficulty target (see
/// `spec_check_difficulty` for the rule and its inverted sense).
pub fn check_difficulty(hash: &crate::Hash, difficulty: u128) -> (r: bool)
    requires
        hash@.len() >= 16,
    ensures
        r == spec_check_difficulty(hash@, difficulty),
{
    let mut v: u128 = 0;
    let mut i: usize = 0;
    while i < 16
        invariant
            i <= 16,
            hash@.len() >= 16,
            v as int == prefix_val(hash@, i as int),
        decreases 16 - i,
    {
        proof {
            lemma_prefix_val_bounds(hash@, i as int);
            lemma_pow256_increases(i as nat, 15);
            lemma_pow256_16();
            assert(pow256(16) == 0x100 * pow256(15));
        }
        v = v * 0x100 + hash[i] as u128;
        i = i + 1;
    }
    difficulty > v
}

impl Block {
    /// Builds a block whose `hash` is the 32-byte all-zero sentinel and
    /// whose nonce search has not started.
    pub fn new(
        index: u32,
        timestamp: u128,
        prev_block_hash: crate::Hash,
        transactions: Vec<Transaction>,
        difficulty: u128,
    ) -> (r: Block)
        ensures
            r.index == index,
            r.timestamp == timestamp,
            r.hash@ == zero_hash(),
            r.prev_block_hash == prev_block_hash,
            r.nonce == 0,
            r.transactions == transactions,
            r.difficulty == difficulty,
    {
        Block {
            index,
            timestamp,
            hash: crate::make_zero_hash(),
            prev_block_hash,
            nonce: 0,
            transactions,
            difficulty,
        }
    }

    /// Searches nonce values from zero upward and keeps the first one
    /// whose hash meets the difficulty target, storing that nonce and
    /// hash. Returns false only when every nonce below `u64::MAX` has
    /// been tried in vain; the block is then left unmined, its hash
    /// untouched.
    pub fn mine(&mut self) -> (found: bool)
        ensures
            final(self).index == old(self).index,
            final(self).timestamp == old(self).timestamp,
            final(self).prev_block_hash == old(self).prev_block_hash,
            final(self).transactions == old(self).transactions,
            final(self).difficulty == old(self).difficulty,
            found ==> {
                &&& final(self).hash@ == sha256_of(block_bytes(*final(self)))
                &&& final(self).hash@.len() == 32
                &&& spec_check_difficulty(final(self).hash@, final(self).difficulty)
                &&& forall|m: u64|
                    m < final(self).nonce ==> !spec_check_difficulty(
                        sha256_of(block_bytes(with_nonce(*old(self), m))),
                        old(self).difficulty,
                    )
            },
            !found ==> {
                &&& final(self).hash == old(self).hash
                &&& forall|m: u64|
                    m < u64::MAX ==> !spec_check_difficulty(
                        sha256_of(block_bytes(with_nonce(*old(self), m))),
                        old(self).difficulty,
                    )
            },
    {
        let mut nonce: u64 = 0;
        while nonce < u64::MAX
            invariant
                self.index == old(self).index,
                self.timestamp == old(self).timestamp,
                self.hash == old(self).hash,
                self.prev_block_hash == old(self).prev_block_hash,
                self.transactions == old(self).transactions,
                self.difficulty == old(self).difficulty,
                forall|m: u64|
                    m < nonce ==> !spec_check_difficulty(
                        sha256_of(block_bytes(with_nonce(*old(self), m))),
                        old(self).difficulty,
                    ),
            decreases u64::MAX - nonce,
        {
            self.nonce = nonce;
            proof {
                assert(*self == with_nonce(*old(self), nonce));
            }
            let h: crate::Hash = self.hash();
            if check_difficulty(&h, self.difficulty) {
                self.hash = h;
                proof {
                    assert(block_bytes(*self) == block_bytes(with_nonce(*old(self), nonce)));
                }
                return true;
            }
            nonce = nonce + 1;
        }
        false
    }

    /// The block's stored hash in lowercase hexadecimal, for display.
    pub fn hash_hex(&self) -> (r: String)
        ensures
            r@ == hex_of(self.hash@),
    {
        hex_encode(&self.hash)
    }
}

/// Appends the canonical bytes of every transaction in `ts` to `dst`.
fn append_txs(dst: &mut Vec<u8>, ts: &Vec<Transaction>)
    ensures
        final(dst)@ == old(dst)@ + txs_bytes(ts@),
{
    let n: usize = ts.len();
    let mut i: usize = 0;
    while i < n
        invariant
            i <= n,
            n == ts@.len(),
            dst@ == old(dst)@ + txs_bytes(ts@.take(i as int)),
        decreases n - i,
    {
        let mut piece: Vec<u8> = ts[i].bytes();
        dst.append(&mut piece);
        proof {
            assert(ts@.take(i + 1).drop_last() =~= ts@.take(i as int));
            assert(ts@.take(i + 1).last() == ts@[i as int]);
            assert(old(dst)@ + txs_bytes(ts@.take(i as int)) + tx_bytes(ts@[i as int]) =~= old(
                dst,
            )@ + txs_bytes(ts@.take(i + 1)));
        }
        i = i + 1;
    }
    proof {
        assert(ts@.take(n as int) =~= ts@);
    }
}

/// Content addressing: two blocks with the same canonical bytes carry
/// the same content hash, whatever else may differ between them.
pub proof fn lemma_block_hash_content_addressed(a: Block, b: Block)
    requires
        block_bytes(a) == block_bytes(b),
    ensures
        sha256_of(block_bytes(a)) == sha256_of(block_bytes(b)),
{
}

impl Hashable for Block {
    open spec fn canon(&self) -> Seq<u8> {
        block_bytes(*self)
    }

    fn bytes(&self) -> (r: Vec<u8>) {
        let mut v: Vec<u8> = u32_bytes(self.index);
        let mut piece: Vec<u8> = u128_bytes(self.timestamp);
        v.append(&mut piece);
        let mut prev: Vec<u8> = slice_to_vec(self.prev_block_hash.as_slice());
        v.append(&mut prev);
        let mut nonce_piece: Vec<u8> = u64_bytes(self.nonce);
        v.append(&mut nonce_piece);
        append_txs(&mut v, &self.transactions);
        let mut diff_piece: Vec<u8> = u128_bytes(self.difficulty);
        v.append(&mut diff_piece);
        proof {
            assert(v@ =~= block_bytes(*self));
        }
        v
    }

    fn hash(&self) -> (r: crate::Hash) {
        sha256_digest(&self.bytes())
    }
}

} // verus!
