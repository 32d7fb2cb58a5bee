use sweeprun::decimal::usize_to_decimal;

#[test]
fn small_numbers_render_as_one_digit() {
    assert_eq!(usize_to_decimal(0), "0");
    assert_eq!(usize_to_decimal(7), "7");
    assert_eq!(usize_to_decimal(9), "9");
}

#[test]
fn larger_numbers_render_without_leading_zeros() {
    assert_eq!(usize_to_decimal(10), "10");
    assert_eq!(usize_to_decimal(105), "105");
    assert_eq!(usize_to_decimal(65535), "65535");
}
