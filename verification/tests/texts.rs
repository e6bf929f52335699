use mdsmedia::bytes::{count_bytes, trim_str, truncate};
use mdsmedia::decimal::{parse_number, push_decimal};
use mdsmedia::search::{has, search_from, split, split_once};
use mdsmedia::text::{
    chars_of, is_ascii_alphanumeric, is_ascii_digit, is_blank, is_white_space, keep_digits, lower,
    raise, string_of, trim, trim_any,
};

const SAMPLES: [&str; 9] = [
    "",
    " ",
    "abc",
    "  a b  ",
    "\u{3000}\u{20b9}x\u{85}",
    "\t\r\nLine\n",
    "\u{1f600} \u{1f600}",
    "MiXeD \u{c4}\u{e4}",
    "\u{a0}\u{2003}",
];

fn back(s: &[char]) -> String {
    string_of(s)
}

#[test]
fn character_classes_agree_with_std() {
    for u in 0..=0x10ffffu32 {
        if let Some(c) = char::from_u32(u) {
            assert_eq!(is_white_space(c), c.is_whitespace(), "{u:x}");
            assert_eq!(is_ascii_digit(c), c.is_ascii_digit(), "{u:x}");
            assert_eq!(is_ascii_alphanumeric(c), c.is_ascii_alphanumeric(), "{u:x}");
        }
    }
}

#[test]
fn trimming_and_case_agree_with_std() {
    for s in SAMPLES {
        let chars = chars_of(s);
        assert_eq!(back(trim(&chars)), s.trim());
        assert_eq!(trim_str(s), s.trim());
        assert_eq!(is_blank(&chars), s.trim().is_empty());
        assert_eq!(back(&lower(&chars)), s.to_ascii_lowercase());
        assert_eq!(back(&raise(&chars)), s.to_ascii_uppercase());
        assert_eq!(count_bytes(s), s.len());
    }
    assert_eq!(back(trim_any(&chars_of(":.\"a.b\""), &[':', '.', '"'])), "a.b");
    assert_eq!(back(&keep_digits(&chars_of("+9 1-x"))), "91");
}

#[test]
fn searching_agrees_with_std() {
    let s = "one two one";
    let chars = chars_of(s);
    for p in ["one", "two", "x", "", "one two one!"] {
        assert_eq!(has(&chars, &chars_of(p)), s.contains(p));
    }
    assert_eq!(search_from(&chars, &chars_of("one"), 1), Some(8));
    assert_eq!(search_from(&chars, &chars_of("one"), 9), None);
    let cut = split_once(&chars, ' ').unwrap();
    assert_eq!((back(cut.0), back(cut.1)), ("one".to_string(), "two one".to_string()));
    assert!(split_once(&chars, '|').is_none());
    let parts: Vec<String> =
        split(&chars_of("a;;b\nc"), &['\n', ';']).into_iter().map(back).collect();
    assert_eq!(parts, "a;;b\nc".split(['\n', ';']).collect::<Vec<_>>());
}

#[test]
fn numbers_agree_with_std() {
    for s in [
        "0", "007", "+5", "-5", "", "+", "++1", "1 ", "18446744073709551615",
        "18446744073709551616", "99999999999999999999999", "\u{661}", "12a",
    ] {
        assert_eq!(parse_number(&chars_of(s)), s.parse::<u64>().ok(), "{s}");
    }
    for n in [0u128, 9, 10, 1530, u64::MAX as u128, u128::MAX] {
        let mut out = String::from("n=");
        push_decimal(&mut out, n);
        assert_eq!(out, format!("n={n}"));
    }
}

#[test]
fn truncation_keeps_whole_characters() {
    assert_eq!(truncate("short", 512), "short");
    assert_eq!(truncate("abcdef", 6), "abcdef");
    assert_eq!(truncate("abcdef", 4), "abcd\u{2026}");
    // The rupee sign takes three bytes.
    assert_eq!(truncate("a\u{20b9}b", 3), "a\u{2026}");
    assert_eq!(truncate("a\u{20b9}b", 4), "a\u{20b9}\u{2026}");
    assert_eq!(truncate("\u{20b9}", 2), "\u{2026}");
    let long = "x".repeat(600);
    assert_eq!(truncate(&long, 512), format!("{}\u{2026}", "x".repeat(512)));
}
