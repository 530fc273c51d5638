use omitfs::text::{
    contains, decimal, is_blank, join, parse_usize, replace_char, split_runs, str_eq, trim,
    trim_end_of, CharClass,
};

#[test]
fn whitespace_is_trimmed() {
    assert_eq!(trim(" \t\n a b \r\n"), "a b");
    assert_eq!(trim("\u{3000}x\u{a0}"), "x");
    assert_eq!(trim(""), "");
    assert_eq!(trim("plain"), "plain");
}

#[test]
fn texts_of_whitespace_are_blank_and_trim_to_nothing() {
    for s in ["", " ", "\n\t\u{b}\u{c}\r ", "\u{85}\u{2028}", "\u{200b}", " x ", "\u{1c}"] {
        assert_eq!(is_blank(s), trim(s).is_empty(), "{s:?}");
        assert_eq!(is_blank(s), s.trim().is_empty(), "{s:?}");
    }
}

#[test]
fn whitespace_is_that_of_unicode() {
    let spaces: Vec<u32> = (0..=0x10ffff)
        .filter(|n| char::from_u32(*n).is_some_and(|c| is_blank(&c.to_string())))
        .collect();
    let mut expected: Vec<u32> = (0x9..=0xd).collect();
    expected.extend([0x20, 0x85, 0xa0, 0x1680]);
    expected.extend(0x2000..=0x200a);
    expected.extend([0x2028, 0x2029, 0x202f, 0x205f, 0x3000]);
    assert_eq!(spaces, expected);
}

#[test]
fn every_copy_at_the_end_is_removed() {
    assert_eq!(trim_end_of("http://h///", '/'), "http://h");
    assert_eq!(trim_end_of("///", '/'), "");
    assert_eq!(trim_end_of("a/b", '/'), "a/b");
}

#[test]
fn runs_of_characters() {
    assert_eq!(split_runs(" a bc\u{2003}d ", CharClass::NonWhitespace), ["a", "bc", "d"]);
    assert_eq!(split_runs("a-b_c9", CharClass::Alphanumeric), ["a", "b", "c9"]);
    assert_eq!(split_runs("…", CharClass::Alphanumeric), Vec::<String>::new());
}

#[test]
fn texts_within_texts() {
    assert!(contains("pineapple", "apple"));
    assert!(contains("aab", "ab"));
    assert!(contains("x", ""));
    assert!(!contains("appl", "apple"));
    assert!(!contains("", "a"));
    assert!(contains("größe", "öß"));
}

#[test]
fn joining_and_replacing() {
    assert_eq!(join(&vec!["a".into(), "".into(), "b".into()], ", "), "a, , b");
    assert_eq!(join(&vec![], ", "), "");
    assert_eq!(replace_char("a'b''", '\'', "''"), "a''b''''");
    assert_eq!(replace_char("none", 'x', "y"), "none");
}

#[test]
fn equality_of_texts() {
    assert!(str_eq("é", "é"));
    assert!(!str_eq("e", "é"));
    assert!(!str_eq("a", "ab"));
}

#[test]
fn numerals_read_back() {
    for n in [0u64, 1, 9, 10, 99, 100, 12_345, u64::MAX] {
        assert_eq!(decimal(n), n.to_string());
    }
    for n in [0usize, 7, 10, 4_096, usize::MAX] {
        assert_eq!(parse_usize(&decimal(n as u64)), Some(n));
    }
}

#[test]
fn what_is_no_number_is_not_read() {
    assert_eq!(parse_usize("+12"), Some(12));
    assert_eq!(parse_usize("007"), Some(7));
    for s in ["", "+", "-1", " 1", "1 ", "1x", "++1", "٣", "99999999999999999999999"] {
        assert_eq!(parse_usize(s), None, "{s}");
    }
}
