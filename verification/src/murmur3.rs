//! A seeded 32-bit streaming hash over byte sequences.
//!
//! The input is consumed in 4-byte little-endian chunks; each full chunk is
//! mixed into an accumulator that starts at the seed, a ragged tail of 1-3
//! bytes is folded in without the full-round finalization, and the byte
//! length plus an avalanche step finish the hash. All arithmetic is 32-bit
//! modular: multiplications and additions wrap silently.

use vstd::prelude::*;

verus! {

use vstd::string::StringSliceAdditionalSpecFns;

/// Multiplier applied to each chunk before its rotation.
pub const CHUNK_MUL_1: u32 = 0xcc9e_2d51;

/// Multiplier applied to each chunk after its rotation.
pub const CHUNK_MUL_2: u32 = 0x1b87_3593;

/// Multiplier applied to the accumulator after each full chunk.
pub const ROUND_MUL: u32 = 5;

/// Constant added to the accumulator after each full chunk.
pub const ROUND_ADD: u32 = 0xe654_6b64;

/// First avalanche multiplier.
pub const FINAL_MUL_1: u32 = 0x85eb_ca6b;

/// Second avalanche multiplier.
pub const FINAL_MUL_2: u32 = 0xc2b2_ae35;

/// Left rotation by 15 bits on a 32-bit value.
pub open spec fn rotl15(x: u32) -> u32 {
    (x << 15u32) | (x >> 17u32)
}

/// Left rotation by 13 bits on a 32-bit value.
pub open spec fn rotl13(x: u32) -> u32 {
    (x << 13u32) | (x >> 19u32)
}

/// The little-endian unsigned value of at most four bytes, zero-extended to
/// 32 bits. An empty sequence reads as zero.
pub open spec fn le_chunk(bytes: Seq<u8>) -> u32
    recommends
        bytes.len() <= 4,
{
    if bytes.len() == 0 {
        0u32
    } else if bytes.len() == 1 {
        bytes[0] as u32
    } else if bytes.len() == 2 {
        (bytes[0] + bytes[1] * 0x100) as u32
    } else if bytes.len() == 3 {
        (bytes[0] + bytes[1] * 0x100 + bytes[2] * 0x1_0000) as u32
    } else {
        (bytes[0] + bytes[1] * 0x100 + bytes[2] * 0x1_0000 + bytes[3] * 0x100_0000) as u32
    }
}

/// The chunk premix: multiply, rotate left by 15, multiply again.
pub open spec fn mix_chunk(chunk: u32) -> u32 {
    rotl15(chunk.wrapping_mul(CHUNK_MUL_1)).wrapping_mul(CHUNK_MUL_2)
}

/// One full round: fold a premixed chunk into the accumulator, rotate,
/// multiply and add the round constant.
pub open spec fn full_round(acc: u32, chunk: u32) -> u32 {
    rotl13(acc ^ mix_chunk(chunk)).wrapping_mul(ROUND_MUL).wrapping_add(ROUND_ADD)
}

/// Consume the whole byte sequence: full rounds for each 4-byte chunk, and
/// an exclusive-or of the premixed tail (1-3 bytes) without the full-round
/// finalization.
pub open spec fn hash_rounds(bytes: Seq<u8>, acc: u32) -> u32
    decreases bytes.len(),
{
    if bytes.len() >= 4 {
        hash_rounds(bytes.skip(4), full_round(acc, le_chunk(bytes.take(4))))
    } else if bytes.len() >= 1 {
        acc ^ mix_chunk(le_chunk(bytes))
    } else {
        acc
    }
}

/// The avalanche finalization: xor-shift and multiply three times over.
pub open spec fn avalanche(h: u32) -> u32 {
    let h1 = (h ^ (h >> 16u32)).wrapping_mul(FINAL_MUL_1);
    let h2 = (h1 ^ (h1 >> 13u32)).wrapping_mul(FINAL_MUL_2);
    h2 ^ (h2 >> 16u32)
}

/// The hash of a byte sequence under a seed: the rounds over the bytes
/// starting from the seed, the byte length folded in modulo 2^32, then the
/// avalanche.
pub closed spec fn spec_murmur3_32(bytes: Seq<u8>, seed: u32) -> u32 {
    avalanche(hash_rounds(bytes, seed) ^ ((bytes.len() as int % 0x1_0000_0000) as u32))
}

/// Read at most four bytes as a little-endian unsigned 32-bit value.
pub fn key_bytes_to_u32_chunk(bytes: &[u8]) -> (chunk: u32)
    requires
        bytes@.len() <= 4,
    ensures
        chunk == le_chunk(bytes@),
{
    if bytes.len() == 0 {
        0
    } else if bytes.len() == 1 {
        bytes[0] as u32
    } else if bytes.len() == 2 {
        bytes[0] as u32 + (bytes[1] as u32) * 0x100
    } else if bytes.len() == 3 {
        bytes[0] as u32 + (bytes[1] as u32) * 0x100 + (bytes[2] as u32) * 0x1_0000
    } else {
        bytes[0] as u32 + (bytes[1] as u32) * 0x100 + (bytes[2] as u32) * 0x1_0000
            + (bytes[3] as u32) * 0x100_0000
    }
}

/// Hash a byte slice with the given seed.
fn hash_bytes(bytes: &[u8], seed: u32) -> (hash: u32)
    ensures
        hash == spec_murmur3_32(bytes@, seed),
{
    let len: usize = bytes.len();
    let mut hash: u32 = seed;
    let mut byte_index: usize = 0;

    proof {
        assert(bytes@.skip(0) =~= bytes@);
    }
    while len - byte_index >= 4
        invariant
            byte_index <= len,
            len == bytes@.len(),
            hash_rounds(bytes@, seed) == hash_rounds(bytes@.skip(byte_index as int), hash),
        decreases len - byte_index,
    {
        let chunk_bytes = vstd::slice::slice_subrange(bytes, byte_index, byte_index + 4);
        let mut chunk: u32 = key_bytes_to_u32_chunk(chunk_bytes);

        chunk = chunk.wrapping_mul(CHUNK_MUL_1);
        chunk = (chunk << 15u32) | (chunk >> 17u32);
        chunk = chunk.wrapping_mul(CHUNK_MUL_2);

        hash = hash ^ chunk;
        hash = (hash << 13u32) | (hash >> 19u32);
        hash = hash.wrapping_mul(ROUND_MUL).wrapping_add(ROUND_ADD);

        proof {
            let rest = bytes@.skip(byte_index as int);
            assert(rest.take(4) =~= bytes@.subrange(byte_index as int, byte_index as int + 4));
            assert(rest.skip(4) =~= bytes@.skip(byte_index as int + 4));
        }
        byte_index = byte_index + 4;
    }

    if byte_index < len {
        let tail_bytes = vstd::slice::slice_subrange(bytes, byte_index, len);
        let mut chunk: u32 = key_bytes_to_u32_chunk(tail_bytes);

        chunk = chunk.wrapping_mul(CHUNK_MUL_1);
        chunk = (chunk << 15u32) | (chunk >> 17u32);
        chunk = chunk.wrapping_mul(CHUNK_MUL_2);

        hash = hash ^ chunk;

        proof {
            assert(bytes@.skip(byte_index as int) =~= bytes@.subrange(
                byte_index as int,
                len as int,
            ));
        }
    }

    assert(hash == hash_rounds(bytes@, seed));

    let len_word: u32 = #[verifier::truncate] (len as u32);
    proof {
        assert(len_word == len as int % 0x1_0000_0000) by (bit_vector)
            requires
                len_word == len as u32,
        ;
    }
    hash = hash ^ len_word;
    hash = hash ^ (hash >> 16u32);
    hash = hash.wrapping_mul(FINAL_MUL_1);
    hash = hash ^ (hash >> 13u32);
    hash = hash.wrapping_mul(FINAL_MUL_2);
    hash = hash ^ (hash >> 16u32);

    hash
}

/// Hash the bytes of a string with the given seed.
pub fn murmur3_32_seeded(key: &str, seed: u32) -> (hash: u32)
    ensures
        hash == spec_murmur3_32(key.spec_bytes(), seed),
{
    hash_bytes(key.as_bytes(), seed)
}

/// Hash the bytes of a string with seed zero.
pub fn murmur3_32(key: &str) -> (hash: u32)
    ensures
        hash == spec_murmur3_32(key.spec_bytes(), 0u32),
{
    murmur3_32_seeded(key, 0)
}

/// The hash is a pure function of its inputs: any two results obtained for
/// the same key bytes and the same seed are equal.
pub proof fn lemma_hash_deterministic(bytes: Seq<u8>, seed: u32, h1: u32, h2: u32)
    requires
        h1 == spec_murmur3_32(bytes, seed),
        h2 == spec_murmur3_32(bytes, seed),
    ensures
        h1 == h2,
{
}

} // verus!
