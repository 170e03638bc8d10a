use bloom_filter::murmur3::{murmur3_32, murmur3_32_seeded};

#[test]
fn murmur3_32_hello_test() {
    let hello_hash = murmur3_32("hello");
    assert!(hello_hash == 613153351);
}

#[test]
fn murmur3_32_seeded_hello_test() {
    assert_eq!(murmur3_32_seeded("hello", 0), 613153351);
}

#[test]
fn murmur3_32_empty_input_test() {
    // No chunks: the accumulator stays at the seed, the zero length is
    // folded in, and the avalanche of zero is zero.
    assert_eq!(murmur3_32(""), 0);
    assert_eq!(murmur3_32_seeded("", 0), 0);
}

#[test]
fn murmur3_32_deterministic_test() {
    let keys = ["", "a", "ab", "abc", "abcd", "abcde", "abcdef", "abcdefg", "abcdefgh", "abcdefghi"];
    for key in keys.iter() {
        for seed in 0u32..8u32 {
            assert_eq!(
                murmur3_32_seeded(key, seed),
                murmur3_32_seeded(key, seed),
                "hash must repeat for key {:?} seed {}",
                key,
                seed
            );
        }
    }
}

#[test]
fn murmur3_32_seed_varies_test() {
    // The family of seeded hashes should not collapse to one function.
    let mut distinct = false;
    for seed in 1u32..16u32 {
        if murmur3_32_seeded("hello", seed) != murmur3_32_seeded("hello", 0) {
            distinct = true;
        }
    }
    assert!(distinct);
}

#[test]
fn murmur3_32_multibyte_test() {
    // Non-ASCII input hashes its UTF-8 bytes; the call must be
    // deterministic and match itself across ragged tail lengths.
    let key = "h\u{00e9}llo w\u{00f6}rld";
    assert_eq!(murmur3_32(key), murmur3_32(key));
    assert_eq!(murmur3_32_seeded(key, 7), murmur3_32_seeded(key, 7));
}
