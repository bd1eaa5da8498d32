use vstd::prelude::*;

use crate::block::{Block, block_bytes, check_difficulty, spec_check_difficulty};
use crate::hashable::{Hashable, sha256_of};
use crate::transaction::{
    Output, Transaction, hashes_of, input_hash_set, output_hash, output_hash_set, spec_is_coinbase,
    sum_values,
};
use crate::zero_hash;
use vstd::slice::slice_to_vec;

verus! {

/// The reasons a block is rejected; each check of `update_with_block`
/// owns one of them, and the first failing check wins.
#[derive(Clone, Copy, Debug, PartialEq, Eq, Structural)]
pub enum BlockValidationErr {
    MismatchedIndex,
    InvalidHash,
    AchronologicalTimestamp,
    MismatchedPreviousHash,
    InvalidGenesisBlockFormat,
    InvalidInput,
    InsufficientInputValue,
    InvalidCoinbaseTransaction,
}

/// The set of byte strings held by a run of stored hashes.
#[verifier::opaque]
pub open spec fn hash_set_of(s: Seq<crate::Hash>) -> Set<Seq<u8>> {
    Set::new(|x: Seq<u8>| exists|i: int| 0 <= i < s.len() && s[i]@ == x)
}

/// No two stored hashes hold the same bytes.
pub open spec fn distinct_views(s: Seq<crate::Hash>) -> bool {
    forall|i: int, j: int|
        0 <= i < s.len() && 0 <= j < s.len() && i != j ==> s[i]@ != s[j]@
}

proof fn lemma_hash_set_of_empty()
    ensures
        hash_set_of(Seq::<crate::Hash>::empty()) == Set::<Seq<u8>>::empty(),
{
    reveal(hash_set_of);
    assert(hash_set_of(Seq::<crate::Hash>::empty()) =~= Set::<Seq<u8>>::empty());
}

/// Membership in the byte-string set is exactly having some stored hash
/// with those bytes.
proof fn lemma_hash_set_of_contains(s: Seq<crate::Hash>, x: Seq<u8>)
    ensures
        hash_set_of(s).contains(x) <==> exists|i: int| 0 <= i < s.len() && s[i]@ == x,
{
    reveal(hash_set_of);
}

/// A transaction may spend only outputs that are currently spendable and
/// that no earlier transaction of the same block has already consumed.
pub open spec fn tx_inputs_ok(utxo: Set<Seq<u8>>, spent: Set<Seq<u8>>, t: Transaction) -> bool {
    forall|k: int|
        0 <= k < t.inputs@.len() ==> {
            &&& utxo.contains(#[trigger] output_hash(t.inputs@[k]))
            &&& !spent.contains(output_hash(t.inputs@[k]))
        }
}

/// Walks the non-coinbase transactions in order, accumulating the hashes
/// spent and created within the block and the running fee, and stops at
/// the first transaction that fails a check.
pub open spec fn scan(
    utxo: Set<Seq<u8>>,
    txs: Seq<Transaction>,
    spent: Set<Seq<u8>>,
    created: Set<Seq<u8>>,
    fee: int,
) -> Result<(Set<Seq<u8>>, Set<Seq<u8>>, int), BlockValidationErr>
    decreases txs.len(),
{
    if txs.len() == 0 {
        Ok((spent, created, fee))
    } else if !tx_inputs_ok(utxo, spent, txs[0]) {
        Err(BlockValidationErr::InvalidInput)
    } else if sum_values(txs[0].outputs@) > sum_values(txs[0].inputs@) {
        Err(BlockValidationErr::InsufficientInputValue)
    } else {
        scan(
            utxo,
            txs.drop_first(),
            spent + input_hash_set(txs[0]),
            created + output_hash_set(txs[0]),
            fee + sum_values(txs[0].inputs@) - sum_values(txs[0].outputs@),
        )
    }
}

/// What appending `b` to a chain with the given blocks and UTXO set must
/// do: either the new UTXO set, or the exact error of the first failing
/// check, in validation order.
pub open spec fn block_decision(blocks: Seq<Block>, utxo: Set<Seq<u8>>, b: Block) -> Result<
    Set<Seq<u8>>,
    BlockValidationErr,
> {
    if b.index as int != blocks.len() {
        Err(BlockValidationErr::MismatchedIndex)
    } else if !spec_check_difficulty(sha256_of(block_bytes(b)), b.difficulty) {
        Err(BlockValidationErr::InvalidHash)
    } else if blocks.len() > 0 && b.timestamp <= blocks.last().timestamp {
        Err(BlockValidationErr::AchronologicalTimestamp)
    } else if blocks.len() > 0 && b.prev_block_hash@ != blocks.last().hash@ {
        Err(BlockValidationErr::MismatchedPreviousHash)
    } else if blocks.len() == 0 && b.prev_block_hash@ != zero_hash() {
        Err(BlockValidationErr::InvalidGenesisBlockFormat)
    } else if b.transactions@.len() == 0 || !spec_is_coinbase(b.transactions@[0]) {
        // a block must open with a coinbase; an empty block has none
        Err(BlockValidationErr::InvalidCoinbaseTransaction)
    } else {
        match scan(utxo, b.transactions@.drop_first(), Set::empty(), Set::empty(), 0) {
            Err(e) => Err(e),
            Ok((spent, created, fee)) => {
                if sum_values(b.transactions@[0].outputs@) < fee {
                    Err(BlockValidationErr::InvalidCoinbaseTransaction)
                } else {
                    Ok(utxo.difference(spent) + created + output_hash_set(b.transactions@[0]))
                }
            },
        }
    }
}

proof fn lemma_hash_set_of_push(s: Seq<crate::Hash>, h: crate::Hash)
    ensures
        hash_set_of(s.push(h)) == hash_set_of(s).insert(h@),
{
    reveal(hash_set_of);
    assert forall|x: Seq<u8>| hash_set_of(s.push(h)).contains(x) implies hash_set_of(s).insert(
        h@,
    ).contains(x) by {
        let i = choose|i: int| 0 <= i < s.push(h).len() && s.push(h)[i]@ == x;
        if i < s.len() {
            assert(s[i]@ == x);
        }
    }
    assert forall|x: Seq<u8>| hash_set_of(s).insert(h@).contains(x) implies hash_set_of(
        s.push(h),
    ).contains(x) by {
        if hash_set_of(s).contains(x) {
            let i = choose|i: int| 0 <= i < s.len() && s[i]@ == x;
            assert(s.push(h)[i]@ == x);
        } else {
            assert(s.push(h)[s.len() as int]@ == x);
        }
    }
    assert(hash_set_of(s.push(h)) =~= hash_set_of(s).insert(h@));
}

proof fn lemma_hash_set_of_take_snoc(s: Seq<crate::Hash>, j: int)
    requires
        0 <= j < s.len(),
    ensures
        hash_set_of(s.take(j + 1)) == hash_set_of(s.take(j)).insert(s[j]@),
{
    assert(s.take(j + 1) =~= s.take(j).push(s[j]));
    lemma_hash_set_of_push(s.take(j), s[j]);
}

proof fn lemma_hash_set_of_append(a: Seq<crate::Hash>, b: Seq<crate::Hash>)
    ensures
        hash_set_of(a + b) == hash_set_of(a) + hash_set_of(b),
{
    reveal(hash_set_of);
    assert forall|x: Seq<u8>| hash_set_of(a + b).contains(x) implies (hash_set_of(a) + hash_set_of(
        b,
    )).contains(x) by {
        let i = choose|i: int| 0 <= i < (a + b).len() && (a + b)[i]@ == x;
        if i < a.len() {
            assert(a[i]@ == x);
        } else {
            assert(b[i - a.len()]@ == x);
        }
    }
    assert forall|x: Seq<u8>| (hash_set_of(a) + hash_set_of(b)).contains(x) implies hash_set_of(
        a + b,
    ).contains(x) by {
        if hash_set_of(a).contains(x) {
            let i = choose|i: int| 0 <= i < a.len() && a[i]@ == x;
            assert((a + b)[i]@ == x);
        } else {
            let i = choose|i: int| 0 <= i < b.len() && b[i]@ == x;
            assert((a + b)[a.len() + i]@ == x);
        }
    }
    assert(hash_set_of(a + b) =~= hash_set_of(a) + hash_set_of(b));
}

/// A run of stored hashes whose views are the hashes of a run of
/// outputs matches it element by element and covers exactly its hash set.
proof fn lemma_hash_set_matches(hs: Seq<crate::Hash>, os: Seq<Output>)
    requires
        hs.map_values(|h: crate::Hash| h@) == hashes_of(os),
    ensures
        hs.len() == os.len(),
        forall|k: int| 0 <= k < hs.len() ==> hs[k]@ == output_hash(os[k]),
        hash_set_of(hs) == hashes_of(os).to_set(),
{
    reveal(hash_set_of);
    assert(hs.map_values(|h: crate::Hash| h@).len() == hs.len());
    assert(hashes_of(os).len() == os.len());
    assert forall|k: int| 0 <= k < hs.len() implies hs[k]@ == output_hash(os[k]) by {
        assert(hs.map_values(|h: crate::Hash| h@)[k] == hashes_of(os)[k]);
    }
    let target = hashes_of(os).to_set();
    assert forall|x: Seq<u8>| hash_set_of(hs).contains(x) implies target.contains(x) by {
        let i = choose|i: int| 0 <= i < hs.len() && hs[i]@ == x;
        assert(hashes_of(os)[i] == x);
    }
    assert forall|x: Seq<u8>| target.contains(x) implies hash_set_of(hs).contains(x) by {
        let i = choose|i: int|
            0 <= i < hashes_of(os).len() && hashes_of(os)[i] == x;
        assert(hs[i]@ == x);
    }
    assert(hash_set_of(hs) =~= target);
}

/// Compares two stored hashes byte for byte.
fn hash_eq(a: &crate::Hash, b: &crate::Hash) -> (r: bool)
    ensures
        r == (a@ == b@),
{
    let r: bool = *a == *b;
    proof {
        if r {
            assert(a@ =~= b@);
        }
    }
    r
}

/// Whether `v` holds a hash with the same bytes as `h`.
fn contains_hash(v: &Vec<crate::Hash>, h: &crate::Hash) -> (r: bool)
    ensures
        r == hash_set_of(v@).contains(h@),
{
    let n: usize = v.len();
    let mut i: usize = 0;
    while i < n
        invariant
            i <= n,
            n == v@.len(),
            forall|j: int| 0 <= j < i ==> v@[j]@ != h@,
        decreases n - i,
    {
        if hash_eq(&v[i], h) {
            proof {
                reveal(hash_set_of);
                assert(v@[i as int]@ == h@);
            }
            return true;
        }
        i = i + 1;
    }
    proof {
        reveal(hash_set_of);
    }
    false
}

/// Copies the hashes of `src` whose bytes lie outside `remove`, in order.
fn filter_out(src: &Vec<crate::Hash>, remove: &Vec<crate::Hash>) -> (r: Vec<crate::Hash>)
    ensures
        hash_set_of(r@) == hash_set_of(src@).difference(hash_set_of(remove@)),
        distinct_views(src@) ==> distinct_views(r@),
{
    let n: usize = src.len();
    let mut r: Vec<crate::Hash> = Vec::new();
    proof {
        lemma_hash_set_of_empty();
        assert(r@ =~= Seq::<crate::Hash>::empty());
        assert(src@.take(0) =~= Seq::<crate::Hash>::empty());
        assert(Set::<Seq<u8>>::empty() =~= Set::<Seq<u8>>::empty().difference(
            hash_set_of(remove@),
        ));
    }
    let mut i: usize = 0;
    while i < n
        invariant
            i <= n,
            n == src@.len(),
            hash_set_of(r@) == hash_set_of(src@.take(i as int)).difference(hash_set_of(remove@)),
            distinct_views(src@) ==> distinct_views(r@),
        decreases n - i,
    {
        proof {
            lemma_hash_set_of_take_snoc(src@, i as int);
        }
        if !contains_hash(remove, &src[i]) {
            let copy: Vec<u8> = slice_to_vec(src[i].as_slice());
            proof {
                lemma_hash_set_of_push(r@, copy);
                lemma_hash_set_of_contains(r@, copy@);
                if distinct_views(src@) {
                    if hash_set_of(r@).contains(src@[i as int]@) {
                        lemma_hash_set_of_contains(src@.take(i as int), src@[i as int]@);
                        let j = choose|j: int|
                            0 <= j < src@.take(i as int).len() && src@.take(i as int)[j]@ == src@[
                                i as int
                            ]@;
                        assert(false);
                    }
                }
            }
            r.push(copy);
        }
        proof {
            assert(hash_set_of(r@) =~= hash_set_of(src@.take(i + 1)).difference(
                hash_set_of(remove@),
            ));
        }
        i = i + 1;
    }
    proof {
        assert(src@.take(n as int) =~= src@);
    }
    r
}

/// Adds to `dst` every hash of `add` whose bytes it does not hold yet.
fn add_hashes(dst: &mut Vec<crate::Hash>, add: &Vec<crate::Hash>)
    ensures
        hash_set_of(final(dst)@) == hash_set_of(old(dst)@) + hash_set_of(add@),
        distinct_views(old(dst)@) ==> distinct_views(final(dst)@),
{
    let n: usize = add.len();
    proof {
        lemma_hash_set_of_empty();
        assert(add@.take(0) =~= Seq::<crate::Hash>::empty());
        assert(hash_set_of(dst@) =~= hash_set_of(old(dst)@) + Set::<Seq<u8>>::empty());
    }
    let mut i: usize = 0;
    while i < n
        invariant
            i <= n,
            n == add@.len(),
            hash_set_of(dst@) == hash_set_of(old(dst)@) + hash_set_of(add@.take(i as int)),
            distinct_views(old(dst)@) ==> distinct_views(dst@),
        decreases n - i,
    {
        proof {
            lemma_hash_set_of_take_snoc(add@, i as int);
        }
        if !contains_hash(dst, &add[i]) {
            let copy: Vec<u8> = slice_to_vec(add[i].as_slice());
            proof {
                lemma_hash_set_of_push(dst@, copy);
                lemma_hash_set_of_contains(dst@, copy@);
            }
            dst.push(copy);
        }
        proof {
            assert(hash_set_of(dst@) =~= hash_set_of(old(dst)@) + hash_set_of(add@.take(i + 1)));
        }
        i = i + 1;
    }
    proof {
        assert(add@.take(n as int) =~= add@);
    }
}

/// Whether every hash in `hs` is present in `unspent` and absent from
/// `spent`: the spendability test one transaction must pass.
fn inputs_spendable(
    unspent: &Vec<crate::Hash>,
    spent: &Vec<crate::Hash>,
    hs: &Vec<crate::Hash>,
) -> (r: bool)
    ensures
        r == forall|k: int|
            0 <= k < hs@.len() ==> {
                &&& hash_set_of(unspent@).contains(#[trigger] hs@[k]@)
                &&& !hash_set_of(spent@).contains(hs@[k]@)
            },
{
    let n: usize = hs.len();
    let mut k: usize = 0;
    while k < n
        invariant
            k <= n,
            n == hs@.len(),
            forall|j: int|
                0 <= j < k ==> {
                    &&& hash_set_of(unspent@).contains(#[trigger] hs@[j]@)
                    &&& !hash_set_of(spent@).contains(hs@[j]@)
                },
        decreases n - k,
    {
        if !contains_hash(unspent, &hs[k]) {
            return false;
        }
        if contains_hash(spent, &hs[k]) {
            return false;
        }
        k = k + 1;
    }
    true
}

/// Runs every non-coinbase transaction of a block through the
/// spendability and value checks, in order, against the spendable set
/// `unspent`. On success hands back the hashes spent and created within
/// the block and the accumulated fee, clamped to what 128 bits hold.
#[verifier::rlimit(60)]
#[verifier::loop_isolation(false)]
fn process_transactions(unspent: &Vec<crate::Hash>, txs: &Vec<Transaction>) -> (r: Result<
    (Vec<crate::Hash>, Vec<crate::Hash>, u128),
    BlockValidationErr,
>)
    requires
        txs@.len() >= 1,
    ensures
        ({
            let s = scan(hash_set_of(unspent@), txs@.drop_first(), Set::empty(), Set::empty(), 0);
            match r {
                Ok(triple) => {
                    &&& s is Ok
                    &&& hash_set_of(triple.0@) == s->Ok_0.0
                    &&& hash_set_of(triple.1@) == s->Ok_0.1
                    &&& (s->Ok_0.2 <= u128::MAX as int ==> triple.2 as int == s->Ok_0.2)
                    &&& (s->Ok_0.2 > u128::MAX as int ==> triple.2 == u128::MAX)
                    &&& triple.2 as int <= s->Ok_0.2
                },
                Err(e) => s == Err::<(Set<Seq<u8>>, Set<Seq<u8>>, int), BlockValidationErr>(e),
            }
        }),
{
    let ghost g_utxo: Set<Seq<u8>> = hash_set_of(unspent@);
    let ntx: usize = txs.len();
    let mut block_spent: Vec<crate::Hash> = Vec::new();
    let mut block_created: Vec<crate::Hash> = Vec::new();
    let mut total_fee: u128 = 0;
    let ghost mut fee_acc: int = 0;
    let ghost tail: Seq<Transaction> = txs@.drop_first();
    proof {
        lemma_hash_set_of_empty();
        assert(block_spent@ =~= Seq::<crate::Hash>::empty());
        assert(block_created@ =~= Seq::<crate::Hash>::empty());
        assert(txs@.skip(1) =~= tail);
    }

    let mut txi: usize = 1;
    while txi < ntx
        invariant
            1 <= txi <= ntx,
            scan(g_utxo, tail, Set::empty(), Set::empty(), 0) == scan(
                g_utxo,
                txs@.skip(txi as int),
                hash_set_of(block_spent@),
                hash_set_of(block_created@),
                fee_acc,
            ),
            0 <= fee_acc,
            fee_acc <= u128::MAX as int ==> total_fee as int == fee_acc,
            fee_acc > u128::MAX as int ==> total_fee == u128::MAX,
            total_fee as int <= fee_acc,
        decreases ntx - txi,
    {
        let t = &txs[txi];
        let mut in_hashes: Vec<crate::Hash> = t.input_hashes();
        let ghost cur: Seq<Transaction> = txs@.skip(txi as int);
        proof {
            assert(cur[0] == txs@[txi as int]);
            assert(cur.drop_first() =~= txs@.skip(txi as int + 1));
            lemma_hash_set_matches(in_hashes@, t.inputs@);
        }
        if !inputs_spendable(unspent, &block_spent, &in_hashes) {
            proof {
                if tx_inputs_ok(g_utxo, hash_set_of(block_spent@), cur[0]) {
                    assert forall|k: int| 0 <= k < in_hashes@.len() implies {
                        &&& hash_set_of(unspent@).contains(#[trigger] in_hashes@[k]@)
                        &&& !hash_set_of(block_spent@).contains(in_hashes@[k]@)
                    } by {
                        assert(in_hashes@[k]@ == output_hash(t.inputs@[k]));
                        assert(g_utxo.contains(output_hash(t.inputs@[k])));
                    }
                    assert(false);
                }
            }
            return Err(BlockValidationErr::InvalidInput);
        }
        proof {
            assert forall|k: int| 0 <= k < cur[0].inputs@.len() implies {
                &&& g_utxo.contains(#[trigger] output_hash(cur[0].inputs@[k]))
                &&& !hash_set_of(block_spent@).contains(output_hash(cur[0].inputs@[k]))
            } by {
                assert(in_hashes@[k]@ == output_hash(t.inputs@[k]));
            }
            assert(tx_inputs_ok(g_utxo, hash_set_of(block_spent@), cur[0]));
        }
        let in_val: u128 = t.input_value();
        let out_val: u128 = t.output_value();
        if out_val > in_val {
            return Err(BlockValidationErr::InsufficientInputValue);
        }
        let fee: u128 = in_val - out_val;
        let ghost s_old: Set<Seq<u8>> = hash_set_of(block_spent@);
        let ghost c_old: Set<Seq<u8>> = hash_set_of(block_created@);
        let ghost f_old: int = fee_acc;
        proof {
            fee_acc = fee_acc + fee as int;
        }
        if fee > u128::MAX - total_fee {
            total_fee = u128::MAX;
        } else {
            total_fee = total_fee + fee;
        }
        let mut out_hashes: Vec<crate::Hash> = t.output_hashes();
        proof {
            lemma_hash_set_of_append(block_spent@, in_hashes@);
            lemma_hash_set_matches(in_hashes@, t.inputs@);
            lemma_hash_set_of_append(block_created@, out_hashes@);
            lemma_hash_set_matches(out_hashes@, t.outputs@);
        }
        block_spent.append(&mut in_hashes);
        block_created.append(&mut out_hashes);
        proof {
            assert(hash_set_of(block_spent@) == s_old + input_hash_set(cur[0]));
            assert(hash_set_of(block_created@) == c_old + output_hash_set(cur[0]));
            assert(scan(g_utxo, cur, s_old, c_old, f_old) == scan(
                g_utxo,
                txs@.skip(txi as int + 1),
                hash_set_of(block_spent@),
                hash_set_of(block_created@),
                fee_acc,
            ));
        }
        txi = txi + 1;
    }

    proof {
        assert(txs@.skip(ntx as int) =~= Seq::<Transaction>::empty());
    }
    Ok((block_spent, block_created, total_fee))
}


/// Every transaction that an accepted scan ran spent nothing from
/// `spent`, and no two of them consumed the same output hash.
proof fn lemma_scan_untouched(
    utxo: Set<Seq<u8>>,
    txs: Seq<Transaction>,
    spent: Set<Seq<u8>>,
    created: Set<Seq<u8>>,
    fee: int,
)
    requires
        scan(utxo, txs, spent, created, fee) is Ok,
    ensures
        forall|j: int, h: Seq<u8>|
            0 <= j < txs.len() && #[trigger] input_hash_set(txs[j]).contains(h) ==> !spent.contains(
                h,
            ),
        forall|i: int, j: int, h: Seq<u8>|
            #![trigger input_hash_set(txs[i]).contains(h), input_hash_set(txs[j]).contains(h)]
            0 <= i < j < txs.len() && input_hash_set(txs[i]).contains(h) ==> !input_hash_set(
                txs[j],
            ).contains(h),
    decreases txs.len(),
{
    if txs.len() > 0 {
        let t0 = txs[0];
        let tail = txs.drop_first();
        lemma_scan_untouched(
            utxo,
            tail,
            spent + input_hash_set(t0),
            created + output_hash_set(t0),
            fee + sum_values(t0.inputs@) - sum_values(t0.outputs@),
        );
        assert forall|h: Seq<u8>| #[trigger] input_hash_set(t0).contains(h) implies !spent.contains(
            h,
        ) by {
            let k = choose|k: int|
                0 <= k < hashes_of(t0.inputs@).len() && hashes_of(t0.inputs@)[k] == h;
            assert(output_hash(t0.inputs@[k]) == h);
            assert(tx_inputs_ok(utxo, spent, t0));
            assert(!spent.contains(output_hash(t0.inputs@[k])));
        }
        assert forall|j: int, h: Seq<u8>|
            0 <= j < txs.len() && #[trigger] input_hash_set(txs[j]).contains(h) implies !spent.contains(
            h,
        ) by {
            if j > 0 {
                assert(txs[j] == tail[j - 1]);
                assert(input_hash_set(tail[j - 1]).contains(h));
                assert(!(spent + input_hash_set(t0)).contains(h));
            }
        }
        assert forall|i: int, j: int, h: Seq<u8>|
            #![trigger input_hash_set(txs[i]).contains(h), input_hash_set(txs[j]).contains(h)]
            0 <= i < j < txs.len() && input_hash_set(txs[i]).contains(h) implies !input_hash_set(
            txs[j],
        ).contains(h) by {
            assert(txs[j] == tail[j - 1]);
            if i == 0 {
                if input_hash_set(tail[j - 1]).contains(h) {
                    assert(!(spent + input_hash_set(t0)).contains(h));
                }
            } else {
                assert(txs[i] == tail[i - 1]);
                assert(input_hash_set(tail[i - 1]).contains(h));
            }
        }
    }
}

/// Every transaction that an accepted scan ran created no more value
/// than it consumed.
proof fn lemma_scan_values(
    utxo: Set<Seq<u8>>,
    txs: Seq<Transaction>,
    spent: Set<Seq<u8>>,
    created: Set<Seq<u8>>,
    fee: int,
)
    requires
        scan(utxo, txs, spent, created, fee) is Ok,
    ensures
        forall|j: int|
            0 <= j < txs.len() ==> sum_values(#[trigger] txs[j].outputs@) <= sum_values(
                txs[j].inputs@,
            ),
    decreases txs.len(),
{
    if txs.len() > 0 {
        let t0 = txs[0];
        let tail = txs.drop_first();
        lemma_scan_values(
            utxo,
            tail,
            spent + input_hash_set(t0),
            created + output_hash_set(t0),
            fee + sum_values(t0.inputs@) - sum_values(t0.outputs@),
        );
        assert forall|j: int|
            0 <= j < txs.len() implies sum_values(#[trigger] txs[j].outputs@) <= sum_values(
            txs[j].inputs@,
        ) by {
            if j > 0 {
                assert(txs[j] == tail[j - 1]);
                assert(sum_values(tail[j - 1].outputs@) <= sum_values(tail[j - 1].inputs@));
            }
        }
    }
}

/// A block whose index is not the chain length is always rejected as
/// `MismatchedIndex`, whatever its other fields hold.
pub proof fn lemma_mismatched_index_rejected(blocks: Seq<Block>, utxo: Set<Seq<u8>>, b: Block)
    requires
        b.index as int != blocks.len(),
    ensures
        block_decision(blocks, utxo, b) == Err::<Set<Seq<u8>>, BlockValidationErr>(
            BlockValidationErr::MismatchedIndex,
        ),
{
}

/// A genesis block is accepted only with the all-zero predecessor hash;
/// one that meets its proof of work but names any other predecessor is
/// rejected as `InvalidGenesisBlockFormat`.
pub proof fn lemma_genesis_needs_zero_prev(blocks: Seq<Block>, utxo: Set<Seq<u8>>, b: Block)
    requires
        blocks.len() == 0,
        b.index == 0,
    ensures
        block_decision(blocks, utxo, b) is Ok ==> b.prev_block_hash@ == zero_hash(),
        spec_check_difficulty(sha256_of(block_bytes(b)), b.difficulty) && b.prev_block_hash@
            != zero_hash() ==> block_decision(blocks, utxo, b) == Err::<
            Set<Seq<u8>>,
            BlockValidationErr,
        >(BlockValidationErr::InvalidGenesisBlockFormat),
{
}

/// Two transactions of one block that both spend the same output hash
/// can never both pass: such a block is always rejected.
pub proof fn lemma_double_spend_rejected(
    blocks: Seq<Block>,
    utxo: Set<Seq<u8>>,
    b: Block,
    i: int,
    j: int,
    h: Seq<u8>,
)
    requires
        1 <= i < j < b.transactions@.len(),
        input_hash_set(b.transactions@[i]).contains(h),
        input_hash_set(b.transactions@[j]).contains(h),
    ensures
        !(block_decision(blocks, utxo, b) is Ok),
{
    if block_decision(blocks, utxo, b) is Ok {
        let tail = b.transactions@.drop_first();
        lemma_scan_untouched(utxo, tail, Set::empty(), Set::empty(), 0);
        assert(tail[i - 1] == b.transactions@[i]);
        assert(tail[j - 1] == b.transactions@[j]);
        assert(input_hash_set(tail[i - 1]).contains(h));
        assert(input_hash_set(tail[j - 1]).contains(h));
        assert(false);
    }
}

/// A non-coinbase transaction that creates more value than it consumes
/// always has its block rejected.
pub proof fn lemma_insufficient_input_rejected(
    blocks: Seq<Block>,
    utxo: Set<Seq<u8>>,
    b: Block,
    j: int,
)
    requires
        1 <= j < b.transactions@.len(),
        sum_values(b.transactions@[j].outputs@) > sum_values(b.transactions@[j].inputs@),
    ensures
        !(block_decision(blocks, utxo, b) is Ok),
{
    if block_decision(blocks, utxo, b) is Ok {
        let tail = b.transactions@.drop_first();
        lemma_scan_values(utxo, tail, Set::empty(), Set::empty(), 0);
        assert(tail[j - 1] == b.transactions@[j]);
        assert(sum_values(tail[j - 1].outputs@) <= sum_values(tail[j - 1].inputs@));
    }
}

/// An accepted block pays its coinbase at least the block's total fee:
/// the surplus of consumed over created value across the other
/// transactions, as the scan accumulates it. A coinbase that pays less
/// has the whole block rejected.
pub proof fn lemma_coinbase_covers_fees(blocks: Seq<Block>, utxo: Set<Seq<u8>>, b: Block)
    ensures
        block_decision(blocks, utxo, b) is Ok ==> ({
            let s = scan(utxo, b.transactions@.drop_first(), Set::empty(), Set::empty(), 0);
            &&& s is Ok
            &&& sum_values(b.transactions@[0].outputs@) >= s->Ok_0.2
        }),
{
}

/// An ordered run of validated blocks and the set of output hashes that
/// are still spendable. The only mutation path is `update_with_block`.
pub struct Blockchain {
    pub blocks: Vec<Block>,
    unspent_outputs: Vec<crate::Hash>,
}

impl Blockchain {
    /// The blocks committed so far, in order.
    pub closed spec fn chain(self) -> Seq<Block> {
        self.blocks@
    }

    /// The current UTXO set: the byte strings of the spendable output
    /// hashes.
    pub closed spec fn utxo(self) -> Set<Seq<u8>> {
        hash_set_of(self.unspent_outputs@)
    }

    /// The stored UTXO hashes hold no byte string twice.
    pub closed spec fn wf(self) -> bool {
        distinct_views(self.unspent_outputs@)
    }

    /// An empty chain with an empty UTXO set.
    pub fn new() -> (r: Blockchain)
        ensures
            r.chain() == Seq::<Block>::empty(),
            r.utxo() == Set::<Seq<u8>>::empty(),
            r.wf(),
    {
        let r = Blockchain { blocks: Vec::new(), unspent_outputs: Vec::new() };
        proof {
            lemma_hash_set_of_empty();
            assert(r.unspent_outputs@ =~= Seq::<crate::Hash>::empty());
        }
        r
    }

    /// Whether an output hash is currently spendable.
    pub fn is_unspent(&self, hash: &crate::Hash) -> (r: bool)
        ensures
            r == self.utxo().contains(hash@),
    {
        contains_hash(&self.unspent_outputs, hash)
    }

    /// Validates `block` against the chain and, only if every check
    /// passes, commits it: the block is appended and the UTXO set moves
    /// to exactly the outputs created and not consumed. A rejected block
    /// leaves the chain and the UTXO set untouched and names the first
    /// failing check. `block_decision` states the whole rule.
    #[verifier::rlimit(60)]
    pub fn update_with_block(&mut self, block: Block) -> (r: Result<(), BlockValidationErr>)
        requires
            old(self).wf(),
        ensures
            final(self).wf(),
            ({
                let d = block_decision(old(self).chain(), old(self).utxo(), block);
                &&& (r is Ok <==> d is Ok)
                &&& (r is Ok ==> final(self).chain() == old(self).chain().push(block)
                    && final(self).utxo() == d->Ok_0)
                &&& (r is Err ==> r->Err_0 == d->Err_0 && *final(self) == *old(self))
            }),
    {
        let ghost g_utxo: Set<Seq<u8>> = old(self).utxo();

        let i: usize = self.blocks.len();
        if block.index as usize != i {
            return Err(BlockValidationErr::MismatchedIndex);
        }
        let computed: crate::Hash = block.hash();
        if !check_difficulty(&computed, block.difficulty) {
            return Err(BlockValidationErr::InvalidHash);
        }
        if i != 0 {
            if block.timestamp <= self.blocks[i - 1].timestamp {
                return Err(BlockValidationErr::AchronologicalTimestamp);
            }
            if !hash_eq(&block.prev_block_hash, &self.blocks[i - 1].hash) {
                return Err(BlockValidationErr::MismatchedPreviousHash);
            }
        } else {
            let zero: crate::Hash = crate::make_zero_hash();
            if !hash_eq(&block.prev_block_hash, &zero) {
                return Err(BlockValidationErr::InvalidGenesisBlockFormat);
            }
        }

        let ntx: usize = block.transactions.len();
        if ntx == 0 {
            // no transactions means no coinbase to lead them
            return Err(BlockValidationErr::InvalidCoinbaseTransaction);
        }
        if !block.transactions[0].is_coinbase() {
            return Err(BlockValidationErr::InvalidCoinbaseTransaction);
        }

        let scanned = process_transactions(&self.unspent_outputs, &block.transactions);
        let (mut block_spent, mut block_created, total_fee): (
            Vec<crate::Hash>,
            Vec<crate::Hash>,
            u128,
        ) = match scanned {
            Err(e) => {
                return Err(e);
            },
            Ok(triple) => triple,
        };

        let cb_out: u128 = block.transactions[0].output_value();
        let cb_len: usize = block.transactions[0].outputs.len();
        proof {
            crate::transaction::lemma_sum_values_bound(block.transactions@[0].outputs@);
            assert(block.transactions@[0].outputs@.len() == cb_len as int);
            assert(cb_out < u128::MAX);
        }
        if cb_out < total_fee {
            return Err(BlockValidationErr::InvalidCoinbaseTransaction);
        }

        let mut out_hashes0: Vec<crate::Hash> = block.transactions[0].output_hashes();
        let ghost spent_set: Set<Seq<u8>> = hash_set_of(block_spent@);
        let ghost created_set: Set<Seq<u8>> = hash_set_of(block_created@);
        proof {
            lemma_hash_set_of_append(block_created@, out_hashes0@);
            lemma_hash_set_matches(out_hashes0@, block.transactions@[0].outputs@);
        }
        block_created.append(&mut out_hashes0);

        let filtered: Vec<crate::Hash> = filter_out(&self.unspent_outputs, &block_spent);
        self.unspent_outputs = filtered;
        add_hashes(&mut self.unspent_outputs, &block_created);
        self.blocks.push(block);
        proof {
            assert(self.utxo() =~= g_utxo.difference(spent_set) + created_set + output_hash_set(
                block.transactions@[0],
            ));
        }
        Ok(())
    }

    /// How many outputs are currently spendable.
    pub fn unspent_count(&self) -> (r: usize)
        requires
            self.wf(),
        ensures
            r == self.utxo().len(),
    {
        proof {
            reveal(hash_set_of);
            let s = self.unspent_outputs@;
            let vs = s.map_values(|h: crate::Hash| h@);
            assert(vs.no_duplicates());
            vs.unique_seq_to_set();
            assert forall|x: Seq<u8>| self.utxo().contains(x) implies vs.to_set().contains(x) by {
                let i = choose|i: int| 0 <= i < s.len() && s[i]@ == x;
                assert(vs[i] == x);
            }
            assert forall|x: Seq<u8>| vs.to_set().contains(x) implies self.utxo().contains(x) by {
                let i = choose|i: int| 0 <= i < vs.len() && vs[i] == x;
                assert(s[i]@ == x);
            }
            assert(self.utxo() =~= vs.to_set());
        }
        self.unspent_outputs.len()
    }
}

} // verus!
