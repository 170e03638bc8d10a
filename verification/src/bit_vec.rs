//! A packed bit array: a fixed-size buffer of bytes in which every bit is
//! individually addressable. Bit `pos` lives in byte `pos / 8` at offset
//! `pos % 8`, least-significant bit first. All accesses are bounds-checked
//! by contract: an index at or beyond the bit count is excluded.

use vstd::prelude::*;

verus! {

/// Whether bit `pos` is set in a packed byte sequence, reading byte
/// `pos / 8` at offset `pos % 8` from the least-significant bit.
pub open spec fn bit_at(bytes: Seq<u8>, pos: int) -> bool
    recommends
        0 <= pos,
        pos / 8 < bytes.len(),
{
    1u8 & (bytes[pos / 8] >> ((pos % 8) as u8)) == 1
}

/// A byte index and offset stay inside a buffer of `(size + 7) / 8` bytes,
/// and the position is recovered from them.
proof fn lemma_bit_index(pos: int, size: int)
    requires
        0 <= pos < size,
    ensures
        0 <= pos / 8,
        pos / 8 < (size + 7) / 8,
        0 <= pos % 8 < 8,
        pos == 8 * (pos / 8) + pos % 8,
{
}

/// A fixed-size packed bit array over a byte buffer.
pub struct BitVec {
    bits: Vec<u8>,
    size: usize,
}

impl View for BitVec {
    type V = Seq<bool>;

    /// The abstract state: one boolean per addressable bit.
    closed spec fn view(&self) -> Seq<bool> {
        Seq::new(self.size as nat, |pos: int| bit_at(self.bits@, pos))
    }
}

impl BitVec {
    /// The byte buffer holds exactly one byte for every eight bits, the
    /// last byte possibly ragged.
    pub closed spec fn wf(&self) -> bool {
        self.bits@.len() == (self.size + 7) / 8
    }

    /// Create a zero-initialized bit array able to address `size` bits.
    pub fn new(size: usize) -> (bv: BitVec)
        requires
            size <= usize::MAX - 7,
        ensures
            bv.wf(),
            bv@.len() == size,
            forall|pos: int| 0 <= pos < size ==> !bv@[pos],
    {
        let num_bytes: usize = (size + 7) / 8;
        let mut bits: Vec<u8> = Vec::new();
        while bits.len() < num_bytes
            invariant
                bits@.len() <= num_bytes,
                forall|k: int| 0 <= k < bits@.len() ==> bits@[k] == 0u8,
            decreases num_bytes - bits@.len(),
        {
            bits.push(0u8);
        }
        let bv = BitVec { bits, size };
        proof {
            assert forall|pos: int| 0 <= pos < size implies !bv@[pos] by {
                lemma_bit_index(pos, size as int);
                let off = (pos % 8) as u8;
                assert(1u8 & (0u8 >> off) == 0) by (bit_vector);
            }
        }
        bv
    }

    /// The number of addressable bits.
    pub fn size(&self) -> (n: usize)
        ensures
            n == self@.len(),
    {
        self.size
    }

    /// Whether bit `pos` is 1.
    pub fn is_set(&self, pos: usize) -> (r: bool)
        requires
            self.wf(),
            pos < self@.len(),
        ensures
            r == self@[pos as int],
    {
        proof {
            lemma_bit_index(pos as int, self.size as int);
        }
        let byte: u8 = self.bits[pos / 8];
        let off: u8 = (pos % 8) as u8;
        let r = ((1u8 << off) & byte) > 0;
        proof {
            assert((((1u8 << off) & byte) > 0) == (1u8 & (byte >> off) == 1)) by (bit_vector)
                requires
                    off < 8,
            ;
        }
        r
    }

    /// After a write to byte `pos / 8` that changes only the bit at offset
    /// `pos % 8`, the abstract state is the old one updated at `pos`.
    proof fn lemma_single_bit_update(
        pre: Self,
        post: Self,
        pos: int,
        value: bool,
        pre_byte: u8,
        post_byte: u8,
    )
        requires
            pre.wf(),
            0 <= pos < pre@.len(),
            post.size == pre.size,
            pre_byte == pre.bits@[pos / 8],
            post.bits@ == pre.bits@.update(pos / 8, post_byte),
            forall|o8: u8|
                o8 < 8 && o8 != pos % 8 ==> #[trigger] (1u8 & (post_byte >> o8)) == 1u8 & (
                pre_byte >> o8),
            1u8 & (post_byte >> ((pos % 8) as u8)) == (if value {
                1u8
            } else {
                0u8
            }),
        ensures
            post@ == pre@.update(pos, value),
    {
        lemma_bit_index(pos, pre.size as int);
        assert forall|j: int| 0 <= j < post@.len() implies post@[j] == pre@.update(pos, value)[j] by {
            lemma_bit_index(j, pre.size as int);
            if j / 8 == pos / 8 {
                if j % 8 == pos % 8 {
                    assert(j == pos);
                } else {
                    let o8 = (j % 8) as u8;
                    assert(post.bits@[j / 8] == post_byte);
                    assert(1u8 & (post_byte >> o8) == 1u8 & (pre_byte >> o8));
                    assert(post@[j] == pre@[j]);
                }
            } else {
                assert(post.bits@[j / 8] == pre.bits@[j / 8]);
            }
        }
        assert(post@ =~= pre@.update(pos, value));
    }

    /// Set bit `pos` to 1, leaving every other bit unchanged.
    pub fn set(&mut self, pos: usize)
        requires
            old(self).wf(),
            pos < old(self)@.len(),
        ensures
            final(self).wf(),
            final(self)@ == old(self)@.update(pos as int, true),
    {
        proof {
            lemma_bit_index(pos as int, self.size as int);
        }
        let byte_index: usize = pos / 8;
        let off: u8 = (pos % 8) as u8;
        let byte: u8 = self.bits[byte_index];
        self.bits[byte_index] = byte | (1u8 << off);
        proof {
            assert(1u8 & ((byte | (1u8 << off)) >> off) == 1) by (bit_vector)
                requires
                    off < 8,
            ;
            assert(forall|o8: u8|
                o8 < 8 && o8 != off ==> #[trigger] (1u8 & ((byte | (1u8 << off)) >> o8)) == 1u8 & (
                byte >> o8)) by (bit_vector)
                requires
                    off < 8,
            ;
            Self::lemma_single_bit_update(
                *old(self),
                *self,
                pos as int,
                true,
                byte,
                byte | (1u8 << off),
            );
        }
    }

    /// Clear bit `pos` to 0, leaving every other bit unchanged.
    pub fn unset(&mut self, pos: usize)
        requires
            old(self).wf(),
            pos < old(self)@.len(),
        ensures
            final(self).wf(),
            final(self)@ == old(self)@.update(pos as int, false),
    {
        proof {
            lemma_bit_index(pos as int, self.size as int);
        }
        let byte_index: usize = pos / 8;
        let off: u8 = (pos % 8) as u8;
        let byte: u8 = self.bits[byte_index];
        self.bits[byte_index] = byte & (0xFFu8 ^ (1u8 << off));
        proof {
            assert(1u8 & ((byte & (0xFFu8 ^ (1u8 << off))) >> off) == 0) by (bit_vector)
                requires
                    off < 8,
            ;
            assert(forall|o8: u8|
                o8 < 8 && o8 != off ==> #[trigger] (1u8 & ((byte & (0xFFu8 ^ (1u8 << off)))
                    >> o8)) == 1u8 & (byte >> o8)) by (bit_vector)
                requires
                    off < 8,
            ;
            Self::lemma_single_bit_update(
                *old(self),
                *self,
                pos as int,
                false,
                byte,
                byte & (0xFFu8 ^ (1u8 << off)),
            );
        }
    }

    /// Toggle bit `pos`, leaving every other bit unchanged.
    pub fn flip(&mut self, pos: usize)
        requires
            old(self).wf(),
            pos < old(self)@.len(),
        ensures
            final(self).wf(),
            final(self)@ == old(self)@.update(pos as int, !old(self)@[pos as int]),
    {
        proof {
            lemma_bit_index(pos as int, self.size as int);
        }
        let byte_index: usize = pos / 8;
        let off: u8 = (pos % 8) as u8;
        let byte: u8 = self.bits[byte_index];
        self.bits[byte_index] = byte ^ (1u8 << off);
        proof {
            assert((1u8 & ((byte ^ (1u8 << off)) >> off) == 1) == !(1u8 & (byte >> off) == 1))
                by (bit_vector)
                requires
                    off < 8,
            ;
            assert(1u8 & ((byte ^ (1u8 << off)) >> off) == 0 || 1u8 & ((byte ^ (1u8 << off))
                >> off) == 1) by (bit_vector);
            assert(old(self)@[pos as int] == (1u8 & (byte >> off) == 1));
            assert(forall|o8: u8|
                o8 < 8 && o8 != off ==> #[trigger] (1u8 & ((byte ^ (1u8 << off)) >> o8)) == 1u8 & (
                byte >> o8)) by (bit_vector)
                requires
                    off < 8,
            ;
            Self::lemma_single_bit_update(
                *old(self),
                *self,
                pos as int,
                !old(self)@[pos as int],
                byte,
                byte ^ (1u8 << off),
            );
        }
    }

    /// Borrow the raw packed bytes read-only. Bit `pos` of the abstract
    /// state is bit `pos % 8` of byte `pos / 8`.
    pub fn get_bytes(&self) -> (bytes: &[u8])
        requires
            self.wf(),
        ensures
            bytes@.len() == (self@.len() + 7) / 8,
            forall|pos: int| 0 <= pos < self@.len() ==> self@[pos] == bit_at(bytes@, pos),
    {
        self.bits.as_slice()
    }
}

/// Flipping the same bit twice restores the original bit state.
pub proof fn lemma_flip_twice(bits: Seq<bool>, pos: int)
    requires
        0 <= pos < bits.len(),
    ensures
        (bits.update(pos, !bits[pos]).update(
            pos,
            !bits.update(pos, !bits[pos])[pos],
        )) == bits,
{
    assert(bits.update(pos, !bits[pos]).update(pos, !bits.update(pos, !bits[pos])[pos])
        =~= bits);
}

} // verus!
