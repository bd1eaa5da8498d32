pub mod block;
pub mod blockchain;
pub mod encode;
pub mod hashable;
pub mod transaction;

pub use block::Block;
pub use block::check_difficulty;
pub use blockchain::BlockValidationErr;
pub use blockchain::Blockchain;
pub use hashable::Hashable;
pub use transaction::Output;
pub use transaction::Transaction;

use vstd::prelude::*;

verus! {

/// A content digest or a block link: a sequence of bytes, 32 bytes long
/// once produced by hashing.
pub type Hash = Vec<u8>;

/// The all-zero 32-byte sentinel: the `prev_block_hash` of a genesis block
/// and the `hash` of a block that has not been mined yet.
pub open spec fn zero_hash() -> Seq<u8> {
    Seq::new(32, |i: int| 0u8)
}

/// Builds the 32-byte all-zero sentinel.
pub fn make_zero_hash() -> (r: Hash)
    ensures
        r@ == zero_hash(),
{
    let mut v: Vec<u8> = Vec::new();
    let mut i: usize = 0;
    while i < 32
        invariant
            i <= 32,
            v@ =~= Seq::new(i as nat, |j: int| 0u8),
        decreases 32 - i,
    {
        v.push(0u8);
        i = i + 1;
    }
    assert(v@ =~= zero_hash());
    v
}

} // verus!
