use naia_core::sequence::{sequence_greater_than, sequence_less_than, wrapping_diff};

#[test]
fn greater_than_without_wrap() {
    assert!(sequence_greater_than(2, 1));
    assert!(!sequence_greater_than(1, 2));
    assert!(!sequence_greater_than(1, 1));
}

#[test]
fn greater_than_across_wrap() {
    assert!(sequence_greater_than(1, 65535));
    assert!(!sequence_greater_than(65535, 1));
    assert!(sequence_less_than(65535, 1));
}

#[test]
fn greater_than_at_half_range() {
    assert!(sequence_greater_than(32768, 0));
    assert!(!sequence_greater_than(0, 32768));
    assert!(sequence_greater_than(0, 32769));
}

#[test]
fn wrapping_diff_values() {
    assert_eq!(wrapping_diff(1, 2), 1);
    assert_eq!(wrapping_diff(2, 1), -1);
    assert_eq!(wrapping_diff(65535, 0), 1);
    assert_eq!(wrapping_diff(0, 65535), -1);
    assert_eq!(wrapping_diff(0, 32767), 32767);
    assert_eq!(wrapping_diff(0, 32768), -32768);
}
