use trusti::bitfield::bitfield_contains_index;

#[test]
fn the_first_piece_is_in_the_highest_bit() {
    let bits = vec![0b1000_0101];
    let held: Vec<isize> = (0..8).filter(|&i| bitfield_contains_index(&bits, i)).collect();
    assert_eq!(held, vec![0, 5, 7]);
}

#[test]
fn pieces_go_on_in_the_next_byte() {
    let bits = vec![0b0000_0001, 0b1100_0000, 0b0000_0010];
    let held: Vec<isize> = (0..24).filter(|&i| bitfield_contains_index(&bits, i)).collect();
    assert_eq!(held, vec![7, 8, 9, 22]);
}

#[test]
fn pieces_past_the_end_are_not_there() {
    let bits = vec![0xff];
    assert!(bitfield_contains_index(&bits, 7));
    assert!(!bitfield_contains_index(&bits, 8));
    assert!(!bitfield_contains_index(&bits, isize::MAX));
}

#[test]
fn negative_pieces_are_not_there() {
    let bits = vec![0xff];
    assert!(!bitfield_contains_index(&bits, -8));
    assert!(!bitfield_contains_index(&bits, isize::MIN));
}

#[test]
fn an_empty_bitfield_has_no_piece() {
    let bits = Vec::new();
    assert!(!bitfield_contains_index(&bits, 0));
    assert!(!bitfield_contains_index(&bits, -1));
}

#[test]
fn every_byte_is_the_sum_of_its_bits() {
    for byte in 0..=255u8 {
        let bits = vec![byte];
        let mut sum = 0u32;
        for i in 0..8 {
            sum = 2 * sum + bitfield_contains_index(&bits, i) as u32;
        }
        assert_eq!(sum, byte as u32);
    }
}
