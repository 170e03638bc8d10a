//! A bloom filter: a probabilistic set-membership structure backed by a
//! packed bit array and a family of hash functions derived from one seeded
//! 32-bit hash. Queries may report a value as possibly present when it was
//! never inserted (a false positive), but a value once inserted is never
//! reported absent.

use vstd::prelude::*;

pub mod bit_vec;
pub mod murmur3;

verus! {

use vstd::string::StringSliceAdditionalSpecFns;
use crate::bit_vec::BitVec;
use crate::murmur3::{murmur3_32_seeded, spec_murmur3_32};

/// The bit position probed for a key under a given seed: the 32-bit hash of
/// the key bytes, reduced into the array's index range by modulo.
pub open spec fn bloom_index(key_bytes: Seq<u8>, seed: u32, num_bits: nat) -> int
    recommends
        num_bits >= 1,
{
    spec_murmur3_32(key_bytes, seed) as int % num_bits as int
}

/// Whether a bit state holds every bit that the first `num_hashes` seeds
/// derive for a key. This is exactly the condition a membership query tests.
pub open spec fn covers(bits: Seq<bool>, key_bytes: Seq<u8>, num_hashes: nat) -> bool
    recommends
        bits.len() >= 1,
{
    forall|i: int|
        0 <= i < num_hashes ==> bits[#[trigger] bloom_index(key_bytes, i as u32, bits.len())]
}

/// A probed bit position always lands inside the array.
pub proof fn lemma_bloom_index_in_range(key_bytes: Seq<u8>, seed: u32, num_bits: nat)
    requires
        num_bits >= 1,
    ensures
        0 <= bloom_index(key_bytes, seed, num_bits) < num_bits,
{
    vstd::arithmetic::div_mod::lemma_mod_bound(
        spec_murmur3_32(key_bytes, seed) as int,
        num_bits as int,
    );
}

/// A probabilistic set-membership structure: one packed bit array and a
/// count of hash rounds. Supports `insert` and `maybe_present`.
pub struct BloomFilter {
    bits: BitVec,
    num_hashes: usize,
}

impl BloomFilter {
    /// The abstract bit state of the owned bit array.
    pub closed spec fn bit_state(&self) -> Seq<bool> {
        self.bits@
    }

    /// The number of hash rounds, fixed at construction.
    pub closed spec fn hash_count(&self) -> nat {
        self.num_hashes as nat
    }

    /// The filter's invariant: a well-formed bit array of at least one bit,
    /// and at least one hash round whose seeds all fit in 32 bits.
    pub closed spec fn wf(&self) -> bool {
        &&& self.bits.wf()
        &&& self.bits@.len() >= 1
        &&& 1 <= self.num_hashes <= u32::MAX
    }

    /// Construct a filter over `num_bits` zeroed bits with `num_hashes`
    /// hash rounds. The parameters are the already-derived sizing values;
    /// deriving them from an expected insert count and a false positive
    /// rate takes floating-point logarithms, which the host application
    /// supplies.
    pub fn new(num_bits: usize, num_hashes: usize) -> (filter: BloomFilter)
        requires
            1 <= num_bits <= usize::MAX - 7,
            1 <= num_hashes <= u32::MAX,
        ensures
            filter.wf(),
            filter.bit_state().len() == num_bits,
            forall|j: int| 0 <= j < num_bits ==> !filter.bit_state()[j],
            filter.hash_count() == num_hashes,
    {
        BloomFilter { bits: BitVec::new(num_bits), num_hashes }
    }

    /// Insert a value: set the bit derived from each seed in turn. Exactly
    /// the probed bits become set, every bit already set stays set, and
    /// afterwards the filter covers the value.
    pub fn insert(&mut self, value: &str)
        requires
            old(self).wf(),
        ensures
            final(self).wf(),
            final(self).bit_state().len() == old(self).bit_state().len(),
            final(self).hash_count() == old(self).hash_count(),
            covers(final(self).bit_state(), value.spec_bytes(), final(self).hash_count()),
            forall|j: int|
                0 <= j < old(self).bit_state().len() && old(self).bit_state()[j]
                    ==> final(self).bit_state()[j],
            forall|j: int|
                0 <= j < final(self).bit_state().len() && final(self).bit_state()[j] ==> (old(
                self).bit_state()[j] || (exists|i: int|
                    0 <= i < final(self).hash_count() && j == #[trigger] bloom_index(
                        value.spec_bytes(),
                        i as u32,
                        final(self).bit_state().len(),
                    ))),
    {
        let num_bits: usize = self.bits.size();
        let ghost key_bytes = value.spec_bytes();
        let ghost m = self.bits@.len();
        let mut i: usize = 0;
        while i < self.num_hashes
            invariant
                self.bits.wf(),
                self.bits@.len() == m == old(self).bit_state().len(),
                self.num_hashes == old(self).num_hashes,
                old(self).wf(),
                num_bits == m,
                key_bytes == value.spec_bytes(),
                i <= self.num_hashes,
                forall|t: int|
                    0 <= t < i ==> self.bits@[#[trigger] bloom_index(key_bytes, t as u32, m)],
                forall|j: int| 0 <= j < m && old(self).bits@[j] ==> self.bits@[j],
                forall|j: int|
                    0 <= j < m && self.bits@[j] ==> (old(self).bits@[j] || (exists|t: int|
                        0 <= t < i && j == #[trigger] bloom_index(key_bytes, t as u32, m))),
            decreases self.num_hashes - i,
        {
            let hash: u32 = murmur3_32_seeded(value, i as u32);
            let bit_index: usize = (hash as usize) % num_bits;
            proof {
                lemma_bloom_index_in_range(key_bytes, i as u32, m);
                assert(bit_index as int == bloom_index(key_bytes, i as u32, m));
            }
            self.bits.set(bit_index);
            i = i + 1;
        }
    }

    /// Test whether a value is possibly present: probe the bit derived from
    /// each seed, answering false as soon as one is clear. The answer is
    /// true exactly when the filter covers the value, so a false answer
    /// proves the value was never inserted, while a true answer may be a
    /// false positive.
    pub fn maybe_present(&self, value: &str) -> (present: bool)
        requires
            self.wf(),
        ensures
            present == covers(self.bit_state(), value.spec_bytes(), self.hash_count()),
    {
        let num_bits: usize = self.bits.size();
        let ghost key_bytes = value.spec_bytes();
        let ghost m = self.bits@.len();
        let mut i: usize = 0;
        while i < self.num_hashes
            invariant
                self.wf(),
                self.bits@.len() == m,
                num_bits == m,
                key_bytes == value.spec_bytes(),
                i <= self.num_hashes,
                forall|t: int|
                    0 <= t < i ==> self.bits@[#[trigger] bloom_index(key_bytes, t as u32, m)],
            decreases self.num_hashes - i,
        {
            let hash: u32 = murmur3_32_seeded(value, i as u32);
            let bit_index: usize = (hash as usize) % num_bits;
            proof {
                lemma_bloom_index_in_range(key_bytes, i as u32, m);
                assert(bit_index as int == bloom_index(key_bytes, i as u32, m));
            }
            if !self.bits.is_set(bit_index) {
                proof {
                    assert(!self.bits@[bloom_index(key_bytes, i as u32, m)]);
                }
                return false;
            }
            i = i + 1;
        }
        true
    }
}

/// No false negatives: once a bit state covers a value, any later state
/// that has lost no set bit still covers it. Together with `insert`'s
/// postconditions, a value once inserted keeps answering possibly-present
/// through any number of further inserts.
pub proof fn lemma_no_false_negative(
    pre: Seq<bool>,
    post: Seq<bool>,
    key_bytes: Seq<u8>,
    num_hashes: nat,
)
    requires
        pre.len() == post.len(),
        pre.len() >= 1,
        covers(pre, key_bytes, num_hashes),
        forall|j: int| 0 <= j < pre.len() && pre[j] ==> post[j],
    ensures
        covers(post, key_bytes, num_hashes),
{
    assert forall|i: int|
        0 <= i < num_hashes implies post[#[trigger] bloom_index(
        key_bytes,
        i as u32,
        post.len(),
    )] by {
        lemma_bloom_index_in_range(key_bytes, i as u32, post.len());
    }
}

/// An all-clear bit state covers no value: the bit probed for seed zero is
/// clear, so a freshly constructed filter answers possibly-present false
/// for every value.
pub proof fn lemma_empty_filter_covers_nothing(num_bits: nat, key_bytes: Seq<u8>, num_hashes: nat)
    requires
        num_bits >= 1,
        num_hashes >= 1,
    ensures
        !covers(Seq::new(num_bits, |j: int| false), key_bytes, num_hashes),
{
    let bits = Seq::new(num_bits, |j: int| false);
    lemma_bloom_index_in_range(key_bytes, 0u32, num_bits);
    assert(!bits[bloom_index(key_bytes, 0 as u32, bits.len())]);
}

/// Inserting a value the filter already covers changes nothing: a bit
/// state that grew only by bits the value had already set is the same bit
/// state, so a repeated insert is idempotent.
pub proof fn lemma_insert_idempotent(
    pre: Seq<bool>,
    post: Seq<bool>,
    key_bytes: Seq<u8>,
    num_hashes: nat,
)
    requires
        pre.len() == post.len(),
        pre.len() >= 1,
        covers(pre, key_bytes, num_hashes),
        forall|j: int| 0 <= j < pre.len() && pre[j] ==> post[j],
        forall|j: int|
            0 <= j < post.len() && post[j] ==> (pre[j] || (exists|i: int|
                0 <= i < num_hashes && j == #[trigger] bloom_index(key_bytes, i as u32, post.len()))),
    ensures
        post == pre,
{
    assert forall|j: int| 0 <= j < post.len() implies post[j] == pre[j] by {
        if post[j] && !pre[j] {
            let i = choose|i: int|
                0 <= i < num_hashes && j == #[trigger] bloom_index(key_bytes, i as u32, post.len());
            assert(pre[bloom_index(key_bytes, i as u32, pre.len())]);
        }
    }
    assert(post =~= pre);
}

} // verus!
