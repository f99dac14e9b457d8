use hack_assembler::numeral::{binary_text, parse_bits, parse_decimal, push_bits, Literal};

#[test]
fn binary_text_writes_the_most_significant_digit_first() {
    assert_eq!(binary_text(5, 3), "101");
    assert_eq!(binary_text(1, 3), "001");
    assert_eq!(binary_text(2, 16), "0000000000000010");
    assert_eq!(binary_text(16384, 16), "0100000000000000");
    assert_eq!(binary_text(24576, 16), "0110000000000000");
}

#[test]
fn binary_text_of_the_extremes() {
    assert_eq!(binary_text(0, 16), "0000000000000000");
    assert_eq!(binary_text(65535, 16), "1111111111111111");
    assert_eq!(binary_text(32768, 16), "1000000000000000");
    assert_eq!(binary_text(0, 0), "");
    assert_eq!(binary_text(65535, 0), "");
}

#[test]
fn binary_text_keeps_the_low_digits_of_a_wide_number() {
    assert_eq!(binary_text(9, 3), "001");
    assert_eq!(binary_text(0b1010_1010, 4), "1010");
}

#[test]
fn binary_text_pads_beyond_sixteen_digits() {
    assert_eq!(binary_text(65535, 20), "00001111111111111111");
}

#[test]
fn push_bits_appends() {
    let mut text = String::from("111");
    push_bits(&mut text, 0b0101010, 7);
    assert_eq!(text, "1110101010");
}

#[test]
fn parse_bits_reads_what_binary_text_writes() {
    for value in [0u16, 1, 2, 3, 16, 17, 255, 256, 4095, 16384, 24576, 32767, 32768, 65534, 65535] {
        assert_eq!(parse_bits(&binary_text(value, 16)), Some(value));
    }
    for value in 0u16..128 {
        assert_eq!(parse_bits(&binary_text(value, 7)), Some(value));
    }
}

#[test]
fn parse_bits_of_short_texts() {
    assert_eq!(parse_bits(""), Some(0));
    assert_eq!(parse_bits("0"), Some(0));
    assert_eq!(parse_bits("1"), Some(1));
    assert_eq!(parse_bits("0110000"), Some(48));
}

#[test]
fn parse_bits_refuses_other_characters_and_long_texts() {
    assert_eq!(parse_bits("012"), None);
    assert_eq!(parse_bits("1 1"), None);
    assert_eq!(parse_bits("-1"), None);
    assert_eq!(parse_bits("00000000000000000"), None);
    assert_eq!(parse_bits("11111111111111111"), None);
}

#[test]
fn parse_decimal_reads_words() {
    assert_eq!(parse_decimal("0"), Literal::Word(0));
    assert_eq!(parse_decimal("2"), Literal::Word(2));
    assert_eq!(parse_decimal("007"), Literal::Word(7));
    assert_eq!(parse_decimal("16384"), Literal::Word(16384));
    assert_eq!(parse_decimal("65535"), Literal::Word(65535));
    assert_eq!(parse_decimal("0000000000000000000065535"), Literal::Word(65535));
}

#[test]
fn parse_decimal_tells_wide_literals_apart() {
    assert_eq!(parse_decimal("65536"), Literal::TooWide);
    assert_eq!(parse_decimal("70000"), Literal::TooWide);
    assert_eq!(parse_decimal("4294967296"), Literal::TooWide);
    assert_eq!(parse_decimal("99999999999999999999999999999999"), Literal::TooWide);
}

#[test]
fn parse_decimal_takes_digits_only() {
    assert_eq!(parse_decimal(""), Literal::Absent);
    assert_eq!(parse_decimal("x"), Literal::Absent);
    assert_eq!(parse_decimal("12a"), Literal::Absent);
    assert_eq!(parse_decimal("a12"), Literal::Absent);
    assert_eq!(parse_decimal("-1"), Literal::Absent);
    assert_eq!(parse_decimal("+5"), Literal::Absent);
    assert_eq!(parse_decimal("1 2"), Literal::Absent);
    assert_eq!(parse_decimal("1.5"), Literal::Absent);
    assert_eq!(parse_decimal("٣"), Literal::Absent);
    assert_eq!(parse_decimal("99999999999999999999999999999999x"), Literal::Absent);
}
