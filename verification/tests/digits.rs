//! The decimal index field: rendering and zero-padding.

use frame_relay::digits::decimal_digits;
use frame_relay::digits::padded_index;

#[test]
fn decimal_digits_render_base_ten() {
    assert_eq!(decimal_digits(0), b"0".to_vec());
    assert_eq!(decimal_digits(7), b"7".to_vec());
    assert_eq!(decimal_digits(10), b"10".to_vec());
    assert_eq!(decimal_digits(1234560), b"1234560".to_vec());
    assert_eq!(decimal_digits(u64::MAX), b"18446744073709551615".to_vec());
}

#[test]
fn index_field_is_zero_padded_to_seven_digits() {
    assert_eq!(padded_index(0), b"0000000".to_vec());
    assert_eq!(padded_index(3), b"0000003".to_vec());
    assert_eq!(padded_index(123), b"0000123".to_vec());
    assert_eq!(padded_index(9999999), b"9999999".to_vec());
}

#[test]
fn index_field_widens_past_seven_digits() {
    assert_eq!(padded_index(10000000), b"10000000".to_vec());
    assert_eq!(padded_index(u64::MAX), b"18446744073709551615".to_vec());
}
