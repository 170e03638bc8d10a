use bloom_filter::BloomFilter;

// The library constructor takes the bit count and hash count directly; the
// closed-form sizing from an expected insert count and a false positive rate
// uses floating-point logarithms, so the tests derive those two integers
// here, exactly as a host application would.
//   m = ceil(-(n * ln(p)) / ln(2)^2)
//   k = ceil((m / n) * ln(2))

#[test]
fn test_insert_and_check() {
    let expected_inserts: usize = 2;
    let fpr: f64 = 0.001;
    let m: usize = ((-1.0 * (expected_inserts as f64) * fpr.ln()) / (2.0f64.ln() * 2.0f64.ln()))
        .ceil() as usize;
    let k: usize = (((m as f64) / (expected_inserts as f64)) * 2.0f64.ln()).ceil() as usize;
    let mut bf = BloomFilter::new(m, k);
    bf.insert(&"test");
    assert!(bf.maybe_present(&"test"));
}

#[test]
fn test_check_only() {
    let expected_inserts: usize = 2;
    let fpr: f64 = 0.001;
    let m: usize = ((-1.0 * (expected_inserts as f64) * fpr.ln()) / (2.0f64.ln() * 2.0f64.ln()))
        .ceil() as usize;
    let k: usize = (((m as f64) / (expected_inserts as f64)) * 2.0f64.ln()).ceil() as usize;
    let mut bf = BloomFilter::new(m, k);
    assert!(bf.maybe_present(&"not") == false);
    assert!(bf.maybe_present(&"foo") == false);
    assert!(bf.maybe_present(&"abcdefghijklmnop") == false);
    bf.insert("abc");
    assert!(bf.maybe_present(&"abc"));
}

#[test]
fn test_sizing_gives_valid_params() {
    // For a range of valid inputs the closed-form sizing yields parameters
    // the library constructor accepts: both at least one.
    let cases: [(usize, f64); 5] = [(1, 0.5), (2, 0.001), (10, 0.01), (100, 0.1), (1000, 0.02)];
    for (n, p) in cases.iter() {
        let m: usize = ((-1.0 * (*n as f64) * p.ln()) / (2.0f64.ln() * 2.0f64.ln())).ceil()
            as usize;
        let k: usize = (((m as f64) / (*n as f64)) * 2.0f64.ln()).ceil() as usize;
        assert!(m >= 1, "m must be positive for n={} p={}", n, p);
        assert!(k >= 1, "k must be positive for n={} p={}", n, p);
        let mut bf = BloomFilter::new(m, k);
        bf.insert("probe");
        assert!(bf.maybe_present("probe"));
    }
}

#[test]
fn test_no_false_negative_under_later_inserts() {
    let mut bf = BloomFilter::new(191, 4);
    bf.insert("first");
    assert!(bf.maybe_present("first"));
    let others = ["second", "third", "fourth", "fifth", "sixth", "seventh"];
    for other in others.iter() {
        bf.insert(other);
        // The value inserted first must keep answering possibly-present no
        // matter what else is inserted: bits are never cleared.
        assert!(bf.maybe_present("first"));
    }
    for other in others.iter() {
        assert!(bf.maybe_present(other));
    }
}

#[test]
fn test_empty_filter_reports_absent() {
    let bf = BloomFilter::new(29, 11);
    let probes = ["", "a", "alpha", "beta", "gamma", "delta", "some longer probe value"];
    for probe in probes.iter() {
        assert!(bf.maybe_present(probe) == false);
    }
}

#[test]
fn test_single_bit_filter_false_positive() {
    // With one bit and one hash round every insert sets the same bit, so
    // after any insert every query answers possibly-present: the false
    // positive side of the contract, as opposed to the false negative side,
    // is allowed to fire.
    let mut bf = BloomFilter::new(1, 1);
    bf.insert("anything");
    assert!(bf.maybe_present("anything"));
    assert!(bf.maybe_present("something else entirely"));
}

#[test]
fn test_insert_idempotent() {
    let mut bf = BloomFilter::new(97, 3);
    bf.insert("again");
    let probes = ["again", "other", "third"];
    let before: Vec<bool> = probes.iter().map(|p| bf.maybe_present(p)).collect();
    bf.insert("again");
    let after: Vec<bool> = probes.iter().map(|p| bf.maybe_present(p)).collect();
    assert_eq!(before, after);
}
