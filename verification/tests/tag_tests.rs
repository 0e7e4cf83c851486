use socket::tag::fresh_code_tag;
use socket::tag::render_decimal;

#[test]
fn renders_plain_decimal() {
    assert_eq!(render_decimal(12345), b"12345".to_vec());
}

#[test]
fn renders_zero_as_one_digit() {
    assert_eq!(render_decimal(0), b"0".to_vec());
}

#[test]
fn renders_single_digit() {
    assert_eq!(render_decimal(7), b"7".to_vec());
}

#[test]
fn renders_number_with_inner_zeroes() {
    assert_eq!(render_decimal(10050), b"10050".to_vec());
}

#[test]
fn renders_large_identity() {
    assert_eq!(render_decimal(184467440737), b"184467440737".to_vec());
}

#[test]
fn code_tag_is_five_digits() {
    for _ in 0..50 {
        let t = fresh_code_tag();
        assert_eq!(t.len(), 5);
        assert!(t.iter().all(|b| (b'0'..=b'9').contains(b)));
        assert!(t[0] != b'0');
    }
}
