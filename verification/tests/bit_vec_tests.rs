use bloom_filter::bit_vec::BitVec;

#[test]
fn bit_vec_create_test() {
    let tester: BitVec = BitVec::new(8);
    assert!(tester.get_bytes()[0] == 0);
}

#[test]
fn bit_vec_set_test() {
    let mut tester: BitVec = BitVec::new(8);
    tester.set(5);
    assert!(tester.get_bytes()[0] == 32);
    let res = tester.is_set(5);
    assert!(res == true);
}

#[test]
fn bit_vec_is_set_test() {
    let mut tester: BitVec = BitVec::new(8);
    tester.set(5);
    assert!(tester.is_set(5) == true);
    assert!(tester.is_set(6) == false);
}

#[test]
fn bit_vec_unset_test() {
    let mut tester: BitVec = BitVec::new(8);
    tester.set(5);
    assert!(tester.is_set(5) == true);
    tester.unset(5);
    assert!(tester.is_set(5) == false);
    assert!(tester.get_bytes()[0] == 0);
}

#[test]
fn bit_vec_flip_test() {
    let mut tester: BitVec = BitVec::new(8);
    tester.flip(5);
    assert!(tester.is_set(5) == true);
    tester.flip(5);
    assert!(tester.is_set(5) == false);
}

#[test]
fn bit_vec_new_is_all_clear_test() {
    let tester: BitVec = BitVec::new(21);
    assert_eq!(tester.size(), 21);
    assert_eq!(tester.get_bytes().len(), 3);
    for pos in 0..21 {
        assert!(tester.is_set(pos) == false);
    }
}

#[test]
fn bit_vec_set_leaves_others_test() {
    let mut tester: BitVec = BitVec::new(21);
    tester.set(3);
    tester.set(11);
    for pos in 0..21 {
        let expected = pos == 3 || pos == 11;
        assert_eq!(tester.is_set(pos), expected);
    }
    tester.unset(3);
    for pos in 0..21 {
        let expected = pos == 11;
        assert_eq!(tester.is_set(pos), expected);
    }
}

#[test]
fn bit_vec_flip_twice_everywhere_test() {
    let mut tester: BitVec = BitVec::new(16);
    tester.set(2);
    tester.set(9);
    for pos in 0..16 {
        let before = tester.is_set(pos);
        tester.flip(pos);
        assert_eq!(tester.is_set(pos), !before);
        tester.flip(pos);
        assert_eq!(tester.is_set(pos), before);
    }
}

#[test]
fn bit_vec_ragged_size_test() {
    // A bit count that is not a multiple of eight still addresses every bit.
    let mut tester: BitVec = BitVec::new(13);
    assert_eq!(tester.get_bytes().len(), 2);
    tester.set(12);
    assert!(tester.is_set(12));
    assert!(tester.is_set(11) == false);
}
