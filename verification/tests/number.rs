use mf66::number::parse_forth_int;

#[test]
fn decimal_and_negative() {
    assert_eq!(parse_forth_int("42", 10), Some(42));
    assert_eq!(parse_forth_int("-7", 10), Some(-7));
    assert_eq!(parse_forth_int("0", 10), Some(0));
}

#[test]
fn radix_prefixes() {
    assert_eq!(parse_forth_int("0xFF", 10), Some(255));
    assert_eq!(parse_forth_int("0XfF", 10), Some(255));
    assert_eq!(parse_forth_int("$10", 10), Some(16));
    assert_eq!(parse_forth_int("0b101", 10), Some(5));
    assert_eq!(parse_forth_int("%11", 10), Some(3));
    assert_eq!(parse_forth_int("0o17", 10), Some(15));
    assert_eq!(parse_forth_int("-0x10", 10), Some(-16));
}

#[test]
fn the_base_reads_unprefixed_digits() {
    assert_eq!(parse_forth_int("FF", 16), Some(255));
    assert_eq!(parse_forth_int("ff", 16), Some(255));
    assert_eq!(parse_forth_int("10", 8), Some(8));
    assert_eq!(parse_forth_int("8", 8), None);
    // out-of-range bases are clamped to 2..=36
    assert_eq!(parse_forth_int("z", 99), Some(35));
    assert_eq!(parse_forth_int("11", 0), Some(3));
}

#[test]
fn words_and_empty_digits_are_not_numbers() {
    assert_eq!(parse_forth_int("dup", 10), None);
    assert_eq!(parse_forth_int("", 10), None);
    assert_eq!(parse_forth_int("-", 10), None);
    assert_eq!(parse_forth_int("0x", 10), None);
    assert_eq!(parse_forth_int("$", 10), None);
    assert_eq!(parse_forth_int("1.5", 10), None);
    assert_eq!(parse_forth_int("-+", 10), None);
}

#[test]
fn range_edges() {
    assert_eq!(parse_forth_int("9223372036854775807", 10), Some(i64::MAX));
    assert_eq!(parse_forth_int("9223372036854775808", 10), None);
    // the magnitude is read first, so the most negative value needs a signed body
    assert_eq!(parse_forth_int("-9223372036854775808", 10), None);
    assert_eq!(parse_forth_int("--9223372036854775808", 10), Some(i64::MIN));
    assert_eq!(parse_forth_int("-0x8000000000000000", 10), None);
    assert_eq!(parse_forth_int("+5", 10), Some(5));
    assert_eq!(parse_forth_int("-+5", 10), Some(-5));
    assert_eq!(parse_forth_int("123456789012345678901234567890", 10), None);
}
