use pixpull::numbers::{read_signed, read_unsigned, to_lower};
use pixpull::text::{chars_of, is_control, pieces_of, text_of, trimmed, words_of, CharClass};

#[test]
fn characters_are_classed_as_unicode_does() {
    for code in 0..=0x10FFFF_u32 {
        if let Some(c) = char::from_u32(code) {
            assert_eq!(CharClass::Space.contains(c), c.is_whitespace(), "{:?}", c);
            assert_eq!(is_control(c), c.is_control(), "{:?}", c);
        }
    }
}

#[test]
fn text_is_taken_apart() {
    let v = chars_of(" a\tb\u{a0} ");
    assert_eq!(text_of(&trimmed(&v, CharClass::Space)), " a\tb\u{a0} ".trim());
    assert_eq!(words_of(&v).len(), 2);
    assert_eq!(pieces_of(&chars_of("a;;b"), CharClass::Semicolon).len(), 3);
}

#[test]
fn numbers_read_as_std_reads_them() {
    for s in ["", "+", "0", "+7", "-7", "007", "18446744073709551615", "18446744073709551616", "1a", " 1"] {
        assert_eq!(read_unsigned(&chars_of(s), u64::MAX), s.parse::<u64>().ok(), "{}", s);
    }
    for s in ["", "-", "-0", "-9223372036854775808", "-9223372036854775809", "9223372036854775807", "9223372036854775808", "+5", "--5"] {
        assert_eq!(read_signed(&chars_of(s)), s.parse::<i64>().ok(), "{}", s);
    }
    assert_eq!(text_of(&to_lower(&chars_of("JpG\u{c9}"))), "jpg\u{c9}");
}
