use dps_meter::error::ReadError;
use dps_meter::recognize::{char_is_space, read_mask};

#[test]
fn plain_digits_parse() {
    assert_eq!(read_mask("19950"), Ok(19950));
    assert_eq!(read_mask("55837"), Ok(55837));
    assert_eq!(read_mask("203"), Ok(203));
    assert_eq!(read_mask("0"), Ok(0));
    assert_eq!(read_mask("7"), Ok(7));
}

#[test]
fn commas_are_stripped() {
    assert_eq!(read_mask("19,950"), Ok(19950));
    assert_eq!(read_mask("1,234,567"), Ok(1234567));
    assert_eq!(read_mask(",1,,2,"), Ok(12));
}

#[test]
fn surrounding_white_space_is_trimmed() {
    assert_eq!(read_mask("19950\n"), Ok(19950));
    assert_eq!(read_mask("  203\n\n"), Ok(203));
    assert_eq!(read_mask("\t1,234\r\n"), Ok(1234));
    assert_eq!(read_mask("\u{a0}42\u{3000}"), Ok(42));
}

#[test]
fn commas_go_before_the_trim() {
    assert_eq!(read_mask(", 12 ,"), Ok(12));
}

#[test]
fn leading_zeros_do_not_matter() {
    assert_eq!(read_mask("000123"), Ok(123));
    assert_eq!(read_mask("00000000000000000000001"), Ok(1));
}

#[test]
fn empty_text_is_unparseable() {
    assert_eq!(read_mask(""), Err(ReadError::UnparseableResult));
    assert_eq!(read_mask("   \n"), Err(ReadError::UnparseableResult));
    assert_eq!(read_mask(","), Err(ReadError::UnparseableResult));
    assert_eq!(read_mask(" , ,\n"), Err(ReadError::UnparseableResult));
}

#[test]
fn other_characters_are_unparseable() {
    assert_eq!(read_mask("12a"), Err(ReadError::UnparseableResult));
    assert_eq!(read_mask("a12"), Err(ReadError::UnparseableResult));
    assert_eq!(read_mask("1.5"), Err(ReadError::UnparseableResult));
    assert_eq!(read_mask("-1"), Err(ReadError::UnparseableResult));
    assert_eq!(read_mask("+1"), Err(ReadError::UnparseableResult));
    assert_eq!(read_mask("\u{661}\u{662}\u{663}"), Err(ReadError::UnparseableResult));
}

#[test]
fn white_space_inside_is_unparseable() {
    assert_eq!(read_mask("19 950"), Err(ReadError::UnparseableResult));
    assert_eq!(read_mask("1\n2"), Err(ReadError::UnparseableResult));
}

#[test]
fn the_largest_reading_is_u32_max() {
    assert_eq!(read_mask("4294967295"), Ok(u32::MAX));
    assert_eq!(read_mask("4,294,967,295"), Ok(u32::MAX));
    assert_eq!(read_mask("4294967296"), Err(ReadError::UnparseableResult));
    assert_eq!(read_mask("42949672950"), Err(ReadError::UnparseableResult));
    assert_eq!(read_mask("99999999999999999999"), Err(ReadError::UnparseableResult));
}

#[test]
fn an_overflow_followed_by_a_letter_is_unparseable() {
    assert_eq!(read_mask("99999999999x"), Err(ReadError::UnparseableResult));
}

#[test]
fn white_space_is_the_unicode_property() {
    for c in [' ', '\t', '\n', '\u{b}', '\u{c}', '\r', '\u{85}', '\u{a0}', '\u{1680}', '\u{2000}',
        '\u{200a}', '\u{2028}', '\u{2029}', '\u{202f}', '\u{205f}', '\u{3000}']
    {
        assert!(char_is_space(c));
        assert!(c.is_whitespace());
    }
    for c in ['0', ',', 'a', '\u{8}', '\u{e}', '\u{200b}', '\u{feff}', '\u{180e}'] {
        assert!(!char_is_space(c));
        assert!(!c.is_whitespace());
    }
}

#[test]
fn white_space_agrees_with_std_on_every_char() {
    let mut u = 0u32;
    while u <= 0x10FFFF {
        if let Some(c) = char::from_u32(u) {
            assert_eq!(char_is_space(c), c.is_whitespace());
        }
        u += 1;
    }
}
