use qrfs::bitmap::{bit_is_set, bitmap_set, bitmap_test};

#[test]
fn bits_count_from_the_least_significant() {
    let bitmap = vec![0b0000_0101u8, 0b1000_0000];
    assert!(bit_is_set(&bitmap, 0));
    assert!(!bit_is_set(&bitmap, 1));
    assert!(bit_is_set(&bitmap, 2));
    assert!(!bit_is_set(&bitmap, 8));
    assert!(bit_is_set(&bitmap, 15));
}

#[test]
fn a_block_without_a_byte_is_free_for_the_checker_and_taken_for_the_allocator() {
    let bitmap = vec![0u8; 2];
    assert!(!bit_is_set(&bitmap, 16));
    assert!(bitmap_test(&bitmap, 16));
    assert!(!bitmap_test(&bitmap, 15));
    assert!(bitmap_test(&[], 0));
    assert!(!bit_is_set(&[], 0));
    assert!(bitmap_test(&bitmap, u32::MAX));
}

#[test]
fn setting_a_bit_changes_that_bit_alone() {
    let mut bitmap = vec![0u8; 3];
    bitmap_set(&mut bitmap, 10, true);
    assert_eq!(bitmap, vec![0, 0b0000_0100, 0]);
    bitmap_set(&mut bitmap, 23, true);
    assert_eq!(bitmap, vec![0, 0b0000_0100, 0b1000_0000]);
    bitmap_set(&mut bitmap, 10, true);
    assert_eq!(bitmap, vec![0, 0b0000_0100, 0b1000_0000]);
    bitmap_set(&mut bitmap, 10, false);
    assert_eq!(bitmap, vec![0, 0, 0b1000_0000]);
    bitmap_set(&mut bitmap, 10, false);
    assert_eq!(bitmap, vec![0, 0, 0b1000_0000]);
}

#[test]
fn clearing_a_bit_keeps_its_neighbours() {
    let mut bitmap = vec![0xFFu8];
    bitmap_set(&mut bitmap, 3, false);
    assert_eq!(bitmap, vec![0b1111_0111]);
    for b in 0..8u32 {
        assert_eq!(bitmap_test(&bitmap, b), b != 3);
    }
}

#[test]
fn setting_a_bit_beyond_the_bitmap_changes_nothing() {
    let mut bitmap = vec![0x0Fu8];
    bitmap_set(&mut bitmap, 8, true);
    bitmap_set(&mut bitmap, 1_000_000, false);
    assert_eq!(bitmap, vec![0x0F]);
}
