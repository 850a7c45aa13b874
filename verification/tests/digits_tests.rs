use gpu_gate::digits::{parse_u64, render_u64};

#[test]
fn reads_decimal_numbers() {
    assert_eq!(parse_u64(b"0"), Some(0));
    assert_eq!(parse_u64(b"123"), Some(123));
    assert_eq!(parse_u64(b"18446744073709551615"), Some(u64::MAX));
}

#[test]
fn rejects_empty_and_non_digit_input() {
    assert_eq!(parse_u64(b""), None);
    assert_eq!(parse_u64(b"12a"), None);
    assert_eq!(parse_u64(b"-3"), None);
    assert_eq!(parse_u64(b" 3"), None);
}

#[test]
fn rejects_values_past_the_limit() {
    assert_eq!(parse_u64(b"18446744073709551616"), None);
    assert_eq!(parse_u64(b"99999999999999999999999"), None);
}

#[test]
fn renders_decimal_numbers() {
    assert_eq!(render_u64(0), b"0".to_vec());
    assert_eq!(render_u64(7), b"7".to_vec());
    assert_eq!(render_u64(1024), b"1024".to_vec());
    assert_eq!(render_u64(u64::MAX), b"18446744073709551615".to_vec());
}

#[test]
fn rendering_then_reading_is_identity() {
    for n in [0u64, 1, 9, 10, 99, 100, 12345, u64::MAX] {
        assert_eq!(parse_u64(&render_u64(n)), Some(n));
    }
}
