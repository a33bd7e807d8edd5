use linkmap::number::{parse_hex_u64, parse_u32, strip_hex_prefix};
use linkmap::text::{chars_of, is_whitespace, skip_first, split_once, starts_with, trim};

#[test]
fn characters_in_order() {
    assert_eq!(chars_of("a\u{e9}\u{1F600}"), vec!['a', '\u{e9}', '\u{1F600}']);
    assert!(chars_of("").is_empty());
}

#[test]
fn split_once_takes_the_first_occurrence() {
    assert_eq!(split_once("a] b] c", "] "), Some(("a", "b] c")));
    assert_eq!(split_once("] x", "] "), Some(("", "x")));
    assert_eq!(split_once("x] ", "] "), Some(("x", "")));
    assert_eq!(split_once("]] ]", "] "), Some(("]", "]")));
    assert_eq!(split_once("a]b", "] "), None);
    assert_eq!(split_once("", "] "), None);
    assert_eq!(split_once("]", "] "), None);
    assert_eq!(split_once("\u{e9}\t\u{fc}\tz", "\t"), Some(("\u{e9}", "\u{fc}\tz")));
    assert_eq!(split_once("abc", ""), Some(("", "abc")));
}

#[test]
fn starts_with_compares_the_beginning() {
    assert!(starts_with("# Path: x", "# Path: "));
    assert!(starts_with("# Path: ", "# Path: "));
    assert!(!starts_with("# Path:", "# Path: "));
    assert!(!starts_with(" # Path: x", "# Path: "));
    assert!(starts_with("anything", ""));
    assert!(starts_with("", ""));
    assert!(!starts_with("", "#"));
}

#[test]
fn trim_removes_white_space_at_both_ends() {
    assert_eq!(trim("  0"), "0");
    assert_eq!(trim("\t 12 \r\n"), "12");
    assert_eq!(trim("a b"), "a b");
    assert_eq!(trim("   "), "");
    assert_eq!(trim(""), "");
    assert_eq!(trim("\u{a0}\u{2003}x\u{3000}\u{85}"), "x");
    assert_eq!(trim("\u{200b}x"), "\u{200b}x");
}

#[test]
fn white_space_is_what_unicode_says() {
    for code in 0..=0x10FFFFu32 {
        if let Some(c) = char::from_u32(code) {
            assert_eq!(is_whitespace(c), c.is_whitespace(), "U+{:04X}", code);
        }
    }
}

#[test]
fn skip_first_drops_one_character() {
    assert_eq!(skip_first("[  0"), "  0");
    assert_eq!(skip_first("\u{e9}x"), "x");
    assert_eq!(skip_first("x"), "");
    assert_eq!(skip_first(""), "");
}

#[test]
fn decimal_numbers() {
    assert_eq!(parse_u32("0"), Some(0));
    assert_eq!(parse_u32("007"), Some(7));
    assert_eq!(parse_u32("+15"), Some(15));
    assert_eq!(parse_u32("4294967295"), Some(u32::MAX));
    assert_eq!(parse_u32("4294967296"), None);
    assert_eq!(parse_u32("99999999999999999999999999"), None);
    assert_eq!(parse_u32(""), None);
    assert_eq!(parse_u32("+"), None);
    assert_eq!(parse_u32("++1"), None);
    assert_eq!(parse_u32("-1"), None);
    assert_eq!(parse_u32("1a"), None);
    assert_eq!(parse_u32("a"), None);
    assert_eq!(parse_u32(" 1"), None);
    assert_eq!(parse_u32("1 "), None);
    assert_eq!(parse_u32("\u{661}"), None);
}

#[test]
fn decimal_numbers_agree_with_std() {
    for text in ["0", "12", "+3", "-3", "", "+", "4294967295", "4294967296", "1_0", "0x1", "१"] {
        assert_eq!(parse_u32(text), text.parse::<u32>().ok(), "{:?}", text);
    }
}

#[test]
fn hexadecimal_numbers() {
    assert_eq!(parse_hex_u64("0x1000"), Some(0x1000));
    assert_eq!(parse_hex_u64("1000"), Some(0x1000));
    assert_eq!(parse_hex_u64("0X1000"), Some(0x1000));
    assert_eq!(parse_hex_u64("0xdeadBEEF"), Some(0xDEADBEEF));
    assert_eq!(parse_hex_u64("0x+1f"), Some(0x1F));
    assert_eq!(parse_hex_u64("+1f"), Some(0x1F));
    assert_eq!(parse_hex_u64("0"), Some(0));
    assert_eq!(parse_hex_u64("0x0"), Some(0));
    assert_eq!(parse_hex_u64("0xffffffffffffffff"), Some(u64::MAX));
    assert_eq!(parse_hex_u64("0x10000000000000000"), None);
    assert_eq!(parse_hex_u64("0x"), None);
    assert_eq!(parse_hex_u64(""), None);
    assert_eq!(parse_hex_u64("x1"), None);
    assert_eq!(parse_hex_u64("0x0x1"), None);
    assert_eq!(parse_hex_u64("+0x1"), None);
    assert_eq!(parse_hex_u64("0xg"), None);
    assert_eq!(parse_hex_u64("-1"), None);
    assert_eq!(parse_hex_u64("12 "), None);
}

#[test]
fn hexadecimal_digits_agree_with_std() {
    for text in ["0", "ff", "FF", "+a", "-a", "", "+", "g", "ffffffffffffffff", "1ffffffffffffffff"] {
        assert_eq!(parse_hex_u64(text), u64::from_str_radix(text, 16).ok(), "{:?}", text);
    }
}

#[test]
fn hex_prefix_is_removed_once() {
    assert_eq!(strip_hex_prefix("0x10"), "10");
    assert_eq!(strip_hex_prefix("0X10"), "10");
    assert_eq!(strip_hex_prefix("0x0x10"), "0x10");
    assert_eq!(strip_hex_prefix("10"), "10");
    assert_eq!(strip_hex_prefix("0x"), "");
    assert_eq!(strip_hex_prefix("0"), "0");
    assert_eq!(strip_hex_prefix("x10"), "x10");
    assert_eq!(strip_hex_prefix(""), "");
}
