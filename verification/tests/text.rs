use pickle::desktop::commands::parse_kind;
use pickle::identity::{Fingerprint, Identity};
use pickle::octets::{append, same32, to_array32, u32_from_le, u32_to_le, u64_to_le};
use pickle::text::{
    before, chars_of, contains_char, control, decimal, ends_with, group, hex4, join, octal, same,
    starts_with, string_of, tail_after, to_ascii_lower, trim, white_space,
};

#[test]
fn white_space_and_control_are_those_of_unicode() {
    for c in '\0'..=char::MAX {
        assert_eq!(white_space(c), c.is_whitespace());
        assert_eq!(control(c), c.is_control());
    }
}

#[test]
fn text_is_trimmed_at_both_ends_only() {
    for s in ["", "  ", " a b ", "\u{3000}a\u{a0}", "\tq\r\n", "plain"] {
        assert_eq!(trim(s), s.trim());
    }
}

#[test]
fn only_ascii_letters_are_lowered() {
    assert_eq!(to_ascii_lower("Exämple.ORG:1Ä"), "exämple.org:1Ä");
}

#[test]
fn numbers_are_written_out() {
    for n in [0u64, 7, 10, 42071, u64::MAX] {
        assert_eq!(decimal(n), n.to_string());
    }
    for n in [0u32, 0o600, 0o644, u32::MAX] {
        assert_eq!(octal(n), format!("{n:o}"));
    }
    for n in [0u16, 0xa, 0x46d, 0xc08b, u16::MAX] {
        assert_eq!(hex4(n), format!("{n:04x}"));
    }
}

#[test]
fn characters_are_grouped() {
    let grouped = group(&chars_of("abcdefgh"), 3, '-');
    assert_eq!(string_of(&grouped), "abc-def-gh");
    assert_eq!(string_of(&group(&[], 3, '-')), "");
}

#[test]
fn texts_are_compared_and_searched() {
    assert!(same("ab", "ab"));
    assert!(!same("ab", "abc"));
    for (a, b) in [("", "a"), ("a", "a"), ("a", "ab"), ("b", "ab"), ("é", "z")] {
        assert_eq!(before(a, b), a < b);
    }
    assert_eq!(join("ab", "cd"), "abcd");
    assert!(contains_char("host:1", ':'));
    assert!(!contains_char("host", ':'));
    assert!(starts_with("/dev/input", "/dev"));
    assert!(!starts_with("/de", "/dev"));
    assert!(ends_with("mouse0-event", "-event"));
    assert!(!ends_with("event", "-event"));
    assert_eq!(tail_after("/dev/input/event5", '/'), "event5");
    assert_eq!(tail_after("event5", '/'), "event5");
}

#[test]
fn octets_are_little_endian() {
    assert_eq!(u32_to_le(0x0403_0201), [1, 2, 3, 4]);
    assert_eq!(u64_to_le(0x0807_0605_0403_0201), [1, 2, 3, 4, 5, 6, 7, 8]);
    assert_eq!(u32_from_le([1, 2, 3, 4]), 0x0403_0201);
    let mut v = vec![1];
    append(&mut v, &[2, 3]);
    assert_eq!(v, vec![1, 2, 3]);
    assert_eq!(to_array32(&[9; 32]), Some([9; 32]));
    assert_eq!(to_array32(&[9; 31]), None);
    assert!(same32(&[9; 32], &[9; 32]));
    assert!(!same32(&[9; 32], &[8; 32]));
}

#[test]
fn a_fingerprint_is_read_in_either_case() {
    let fp = Identity::generate().fingerprint();
    assert_eq!(Fingerprint::parse(&fp.to_string().to_lowercase()).unwrap(), fp);
}

#[test]
fn an_unknown_kind_is_shown_in_quotes() {
    assert!(parse_kind("a\"b\n").unwrap_err().contains("\"a\\\"b\\n\""));
}
