use vstd::prelude::*;

verus! {

/// Big-endian bytes of a 32-bit integer: most significant byte first.
#[verifier::opaque]
pub open spec fn u32_be(x: u32) -> Seq<u8> {
    seq![
        ((x as int / 0x1000000) % 0x100) as u8,
        ((x as int / 0x10000) % 0x100) as u8,
        ((x as int / 0x100) % 0x100) as u8,
        ((x as int) % 0x100) as u8,
    ]
}

/// Big-endian bytes of a 64-bit integer.
#[verifier::opaque]
pub open spec fn u64_be(x: u64) -> Seq<u8> {
    seq![
        ((x as int / 0x100000000000000) % 0x100) as u8,
        ((x as int / 0x1000000000000) % 0x100) as u8,
        ((x as int / 0x10000000000) % 0x100) as u8,
        ((x as int / 0x100000000) % 0x100) as u8,
        ((x as int / 0x1000000) % 0x100) as u8,
        ((x as int / 0x10000) % 0x100) as u8,
        ((x as int / 0x100) % 0x100) as u8,
        ((x as int) % 0x100) as u8,
    ]
}

/// Big-endian bytes of a 128-bit integer.
#[verifier::opaque]
pub open spec fn u128_be(x: u128) -> Seq<u8> {
    seq![
        ((x as int / 0x1000000000000000000000000000000) % 0x100) as u8,
        ((x as int / 0x10000000000000000000000000000) % 0x100) as u8,
        ((x as int / 0x100000000000000000000000000) % 0x100) as u8,
        ((x as int / 0x1000000000000000000000000) % 0x100) as u8,
        ((x as int / 0x10000000000000000000000) % 0x100) as u8,
        ((x as int / 0x100000000000000000000) % 0x100) as u8,
        ((x as int / 0x1000000000000000000) % 0x100) as u8,
        ((x as int / 0x10000000000000000) % 0x100) as u8,
        ((x as int / 0x100000000000000) % 0x100) as u8,
        ((x as int / 0x1000000000000) % 0x100) as u8,
        ((x as int / 0x10000000000) % 0x100) as u8,
        ((x as int / 0x100000000) % 0x100) as u8,
        ((x as int / 0x1000000) % 0x100) as u8,
        ((x as int / 0x10000) % 0x100) as u8,
        ((x as int / 0x100) % 0x100) as u8,
        ((x as int) % 0x100) as u8,
    ]
}

/// Serializes a 32-bit integer to its four big-endian bytes.
pub fn u32_bytes(x: u32) -> (r: Vec<u8>)
    ensures
        r@ == u32_be(x),
{
    let mut v: Vec<u8> = Vec::new();
    v.push((x / 0x1000000 % 0x100) as u8);
    v.push((x / 0x10000 % 0x100) as u8);
    v.push((x / 0x100 % 0x100) as u8);
    v.push((x % 0x100) as u8);
    proof {
        reveal(u32_be);
        assert(v@ =~= u32_be(x));
    }
    v
}

/// Serializes a 64-bit integer to its eight big-endian bytes.
pub fn u64_bytes(x: u64) -> (r: Vec<u8>)
    ensures
        r@ == u64_be(x),
{
    let mut v: Vec<u8> = Vec::new();
    v.push((x / 0x100000000000000 % 0x100) as u8);
    v.push((x / 0x1000000000000 % 0x100) as u8);
    v.push((x / 0x10000000000 % 0x100) as u8);
    v.push((x / 0x100000000 % 0x100) as u8);
    v.push((x / 0x1000000 % 0x100) as u8);
    v.push((x / 0x10000 % 0x100) as u8);
    v.push((x / 0x100 % 0x100) as u8);
    v.push((x % 0x100) as u8);
    proof {
        reveal(u64_be);
        assert(v@ =~= u64_be(x));
    }
    v
}

/// Serializes a 128-bit integer to its sixteen big-endian bytes.
pub fn u128_bytes(x: u128) -> (r: Vec<u8>)
    ensures
        r@ == u128_be(x),
{
    let mut v: Vec<u8> = Vec::new();
    v.push((x / 0x1000000000000000000000000000000 % 0x100) as u8);
    v.push((x / 0x10000000000000000000000000000 % 0x100) as u8);
    v.push((x / 0x100000000000000000000000000 % 0x100) as u8);
    v.push((x / 0x1000000000000000000000000 % 0x100) as u8);
    v.push((x / 0x10000000000000000000000 % 0x100) as u8);
    v.push((x / 0x100000000000000000000 % 0x100) as u8);
    v.push((x / 0x1000000000000000000 % 0x100) as u8);
    v.push((x / 0x10000000000000000 % 0x100) as u8);
    v.push((x / 0x100000000000000 % 0x100) as u8);
    v.push((x / 0x1000000000000 % 0x100) as u8);
    v.push((x / 0x10000000000 % 0x100) as u8);
    v.push((x / 0x100000000 % 0x100) as u8);
    v.push((x / 0x1000000 % 0x100) as u8);
    v.push((x / 0x10000 % 0x100) as u8);
    v.push((x / 0x100 % 0x100) as u8);
    v.push((x % 0x100) as u8);
    proof {
        reveal(u128_be);
        assert(v@ =~= u128_be(x));
    }
    v
}

/// The value of the first `n` bytes of `s`, read as one big-endian integer.
pub open spec fn prefix_val(s: Seq<u8>, n: int) -> int
    decreases n,
{
    if n <= 0 {
        0
    } else {
        prefix_val(s, n - 1) * 0x100 + s[n - 1]
    }
}

/// The n-th power of 256: the number of values that n bytes can hold.
pub open spec fn pow256(n: nat) -> int
    decreases n,
{
    if n == 0 {
        1
    } else {
        0x100 * pow256((n - 1) as nat)
    }
}

pub proof fn lemma_pow256_pos(n: nat)
    ensures
        pow256(n) >= 1,
    decreases n,
{
    if n > 0 {
        lemma_pow256_pos((n - 1) as nat);
    }
}

pub proof fn lemma_pow256_increases(a: nat, b: nat)
    requires
        a <= b,
    ensures
        pow256(a) <= pow256(b),
    decreases b,
{
    if a < b {
        lemma_pow256_increases(a, (b - 1) as nat);
        lemma_pow256_pos((b - 1) as nat);
    }
}

/// A big-endian reading of n bytes always lies below 256^n.
pub proof fn lemma_prefix_val_bounds(s: Seq<u8>, n: int)
    requires
        0 <= n,
    ensures
        0 <= prefix_val(s, n) < pow256(n as nat),
    decreases n,
{
    if n > 0 {
        lemma_prefix_val_bounds(s, n - 1);
    }
}

pub proof fn lemma_pow256_16()
    ensures
        pow256(16) == 0x100000000000000000000000000000000int,
{
    reveal_with_fuel(pow256, 17);
}

} // verus!
