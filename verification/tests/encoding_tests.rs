use ritcoin::encoding::u64_to_dec;

#[test]
fn zero_renders_as_one_digit() {
    assert_eq!(u64_to_dec(0), vec![b'0']);
}

#[test]
fn numbers_render_in_decimal_ascii() {
    assert_eq!(u64_to_dec(1234), b"1234".to_vec());
    assert_eq!(u64_to_dec(u64::MAX), b"18446744073709551615".to_vec());
}
