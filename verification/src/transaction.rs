use vstd::prelude::*;


use crate::encode::{u64_be, u64_bytes};
use crate::hashable::{Hashable, sha256_digest, sha256_of};
use vstd::string::StrSliceExecFns;

verus! {

/// A value transfer target: an opaque address and a non-negative amount.
/// An output is identified by the hash of its own canonical bytes; that
/// hash is the key under which it can be spent.
#[derive(Clone, Debug)]
pub struct Output {
    pub to_addr: String,
    pub value: u64,
}

/// Canonical bytes of an output: the UTF-8 bytes of its address followed
/// by its value in big-endian form.
#[verifier::opaque]
pub open spec fn output_bytes(o: Output) -> Seq<u8> {
    vstd::utf8::encode_utf8(o.to_addr@) + u64_be(o.value)
}

/// The content hash of an output: the UTXO key under which it is spent.
pub open spec fn output_hash(o: Output) -> Seq<u8> {
    sha256_of(output_bytes(o))
}

/// Canonical bytes of a run of outputs: each output's bytes in order.
pub open spec fn outputs_bytes(s: Seq<Output>) -> Seq<u8>
    decreases s.len(),
{
    if s.len() == 0 {
        Seq::empty()
    } else {
        outputs_bytes(s.drop_last()) + output_bytes(s.last())
    }
}

/// The total value held by a run of outputs.
pub open spec fn sum_values(s: Seq<Output>) -> int
    decreases s.len(),
{
    if s.len() == 0 {
        0
    } else {
        sum_values(s.drop_last()) + s.last().value
    }
}

/// The content hashes of a run of outputs, in order.
pub open spec fn hashes_of(s: Seq<Output>) -> Seq<Seq<u8>> {
    s.map_values(|o: Output| output_hash(o))
}

/// The total value of a run of outputs never exceeds one maximal value
/// per output.
pub proof fn lemma_sum_values_bound(s: Seq<Output>)
    ensures
        0 <= sum_values(s) <= s.len() * 0xffffffffffffffff,
    decreases s.len(),
{
    if s.len() > 0 {
        lemma_sum_values_bound(s.drop_last());
    }
}

/// Content addressing: two outputs with the same canonical bytes carry
/// the same content hash, and so the same UTXO key.
pub proof fn lemma_output_hash_content_addressed(a: Output, b: Output)
    requires
        output_bytes(a) == output_bytes(b),
    ensures
        output_hash(a) == output_hash(b),
{
}

impl Hashable for Output {
    open spec fn canon(&self) -> Seq<u8> {
        output_bytes(*self)
    }

    fn bytes(&self) -> (r: Vec<u8>) {
        let mut v: Vec<u8> = self.to_addr.as_str().as_bytes_vec();
        let mut tail: Vec<u8> = u64_bytes(self.value);
        v.append(&mut tail);
        proof {
            reveal(output_bytes);
        }
        v
    }

    fn hash(&self) -> (r: crate::Hash) {
        sha256_digest(&self.bytes())
    }
}

/// Appends the canonical bytes of every output in `outs` to `dst`.
fn append_outputs(dst: &mut Vec<u8>, outs: &Vec<Output>)
    ensures
        final(dst)@ == old(dst)@ + outputs_bytes(outs@),
{
    let n: usize = outs.len();
    let mut i: usize = 0;
    while i < n
        invariant
            i <= n,
            n == outs@.len(),
            dst@ == old(dst)@ + outputs_bytes(outs@.take(i as int)),
        decreases n - i,
    {
        let mut piece: Vec<u8> = outs[i].bytes();
        dst.append(&mut piece);
        proof {
            assert(outs@.take(i + 1).drop_last() =~= outs@.take(i as int));
            assert(outs@.take(i + 1).last() == outs@[i as int]);
            assert(old(dst)@ + outputs_bytes(outs@.take(i as int)) + output_bytes(outs@[i as int])
                =~= old(dst)@ + outputs_bytes(outs@.take(i + 1)));
        }
        i = i + 1;
    }
    proof {
        assert(outs@.take(n as int) =~= outs@);
    }
}

/// Sums the values of `outs`. The result is exact: a sum of 64-bit values
/// over one vector always fits in 128 bits.
fn sum_outputs(outs: &Vec<Output>) -> (r: u128)
    ensures
        r as int == sum_values(outs@),
{
    let n: usize = outs.len();
    let mut sum: u128 = 0;
    let mut i: usize = 0;
    while i < n
        invariant
            i <= n,
            n == outs@.len(),
            sum as int == sum_values(outs@.take(i as int)),
        decreases n - i,
    {
        proof {
            lemma_sum_values_bound(outs@.take(i as int));
            assert(outs@.take(i + 1).drop_last() =~= outs@.take(i as int));
            assert(outs@.take(i + 1).last() == outs@[i as int]);
        }
        sum = sum + outs[i].value as u128;
        i = i + 1;
    }
    proof {
        assert(outs@.take(n as int) =~= outs@);
    }
    sum
}

/// Computes the content hash of every output in `outs`, in order.
fn hash_outputs(outs: &Vec<Output>) -> (r: Vec<crate::Hash>)
    ensures
        r@.map_values(|h: crate::Hash| h@) == hashes_of(outs@),
{
    let n: usize = outs.len();
    let mut r: Vec<crate::Hash> = Vec::new();
    let mut i: usize = 0;
    while i < n
        invariant
            i <= n,
            n == outs@.len(),
            r@.len() == i,
            forall|k: int| 0 <= k < i ==> r@[k]@ == output_hash(outs@[k]),
        decreases n - i,
    {
        let h: crate::Hash = outs[i].hash();
        r.push(h);
        i = i + 1;
    }
    proof {
        assert(r@.map_values(|h: crate::Hash| h@) =~= hashes_of(outs@));
    }
    r
}

/// A movement of value: a run of outputs being consumed and a run of
/// outputs being created.
#[derive(Clone, Debug)]
pub struct Transaction {
    pub inputs: Vec<Output>,
    pub outputs: Vec<Output>,
}

/// Canonical bytes of a transaction: the bytes of its inputs, then the
/// bytes of its outputs.
pub open spec fn tx_bytes(t: Transaction) -> Seq<u8> {
    outputs_bytes(t.inputs@) + outputs_bytes(t.outputs@)
}

/// The coinbase recognition rule of this ledger: a transaction is a
/// coinbase exactly when it has a single sentinel input of value zero.
/// The sentinel's address is a free-form placeholder and is not inspected.
pub open spec fn spec_is_coinbase(t: Transaction) -> bool {
    t.inputs@.len() == 1 && t.inputs@[0].value == 0
}

/// The set of UTXO keys a transaction consumes.
pub open spec fn input_hash_set(t: Transaction) -> Set<Seq<u8>> {
    hashes_of(t.inputs@).to_set()
}

/// The set of UTXO keys a transaction creates.
pub open spec fn output_hash_set(t: Transaction) -> Set<Seq<u8>> {
    hashes_of(t.outputs@).to_set()
}

impl Transaction {
    /// The total value consumed by this transaction.
    pub fn input_value(&self) -> (r: u128)
        ensures
            r as int == sum_values(self.inputs@),
    {
        sum_outputs(&self.inputs)
    }

    /// The total value created by this transaction.
    pub fn output_value(&self) -> (r: u128)
        ensures
            r as int == sum_values(self.outputs@),
    {
        sum_outputs(&self.outputs)
    }

    /// The content hashes of the outputs this transaction consumes.
    pub fn input_hashes(&self) -> (r: Vec<crate::Hash>)
        ensures
            r@.map_values(|h: crate::Hash| h@) == hashes_of(self.inputs@),
    {
        hash_outputs(&self.inputs)
    }

    /// The content hashes of the outputs this transaction creates.
    pub fn output_hashes(&self) -> (r: Vec<crate::Hash>)
        ensures
            r@.map_values(|h: crate::Hash| h@) == hashes_of(self.outputs@),
    {
        hash_outputs(&self.outputs)
    }

    /// Whether this transaction is a coinbase: one sentinel input of
    /// value zero.
    pub fn is_coinbase(&self) -> (r: bool)
        ensures
            r == spec_is_coinbase(*self),
    {
        self.inputs.len() == 1 && self.inputs[0].value == 0
    }
}

/// Content addressing: two transactions with the same canonical bytes
/// carry the same content hash.
pub proof fn lemma_tx_hash_content_addressed(a: Transaction, b: Transaction)
    requires
        tx_bytes(a) == tx_bytes(b),
    ensures
        sha256_of(tx_bytes(a)) == sha256_of(tx_bytes(b)),
{
}

impl Hashable for Transaction {
    open spec fn canon(&self) -> Seq<u8> {
        tx_bytes(*self)
    }

    fn bytes(&self) -> (r: Vec<u8>) {
        let mut v: Vec<u8> = Vec::new();
        append_outputs(&mut v, &self.inputs);
        append_outputs(&mut v, &self.outputs);
        proof {
            assert(v@ =~= tx_bytes(*self));
        }
        v
    }

    fn hash(&self) -> (r: crate::Hash) {
        sha256_digest(&self.bytes())
    }
}

} // verus!
