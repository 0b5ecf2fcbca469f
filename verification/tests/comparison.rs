use std::cmp::Ordering;
use trusti::bytes::{compare_byte_slices, compare_hashes};

#[test]
fn hashes_compare_as_words() {
    assert_eq!(compare_hashes(&[1, 2, 3], &[1, 2, 3]), Ordering::Equal);
    assert_eq!(compare_hashes(&[1, 2, 3], &[1, 3, 0]), Ordering::Less);
    assert_eq!(compare_hashes(&[2], &[1, 255]), Ordering::Greater);
}

#[test]
fn a_prefix_comes_before_the_longer_word() {
    assert_eq!(compare_hashes(&[], &[]), Ordering::Equal);
    assert_eq!(compare_hashes(&[], &[0]), Ordering::Less);
    assert_eq!(compare_hashes(&[1, 2], &[1, 2, 0]), Ordering::Less);
    assert_eq!(compare_hashes(&[1, 2, 0], &[1, 2]), Ordering::Greater);
}

#[test]
fn comparison_is_that_of_slices() {
    let words: [&[u8]; 6] = [&[], &[0], &[0, 0], &[0, 1], &[1], &[255, 3]];
    for a in words {
        for b in words {
            assert_eq!(compare_hashes(a, b), a.cmp(b));
            assert_eq!(compare_hashes(a, b), compare_hashes(b, a).reverse());
            assert_eq!(compare_byte_slices(a, b), a == b);
        }
    }
}

#[test]
fn slices_are_the_same_only_in_full() {
    assert!(compare_byte_slices(&[2; 20], &[2; 20]));
    assert!(!compare_byte_slices(&[2; 20], &[2; 19]));
    assert!(!compare_byte_slices(&[1, 2], &[2, 1]));
    assert!(compare_byte_slices(&[], &[]));
}
