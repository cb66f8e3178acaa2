use kvstore::text::{
    count_leading, find_whitespace, is_blank, is_whitespace, same_text, str_lt, to_decimal, trim,
    trim_end, trim_start,
};

#[test]
fn whitespace_matches_std() {
    for c in ['\t', '\n', '\u{b}', '\u{c}', '\r', ' ', '\u{85}', '\u{a0}', '\u{1680}', '\u{2000}',
        '\u{200a}', '\u{2028}', '\u{2029}', '\u{202f}', '\u{205f}', '\u{3000}', 'a', '\u{200b}',
        '\u{feff}', '课', '\u{180e}'] {
        assert_eq!(is_whitespace(c), c.is_whitespace(), "{:?}", c);
    }
}

#[test]
fn trimming_matches_std() {
    for s in ["", "  ", " a ", "\u{3000}键 值\t", "x", "\r\nab\n"] {
        assert_eq!(trim(s), s.trim());
        assert_eq!(trim_start(s), s.trim_start());
        assert_eq!(trim_end(s), s.trim_end());
        assert_eq!(is_blank(s), s.trim().is_empty());
    }
}

#[test]
fn find_whitespace_counts_characters() {
    assert_eq!(find_whitespace("课程 名称"), 2);
    assert_eq!(find_whitespace("abc"), 3);
    assert_eq!(count_leading("  x", true), 2);
}

#[test]
fn string_order_matches_std() {
    let words = ["", "a", "ab", "b", "B", "课", "é", "e\u{301}"];
    for a in words {
        for b in words {
            assert_eq!(str_lt(a, b), a < b, "{:?} {:?}", a, b);
        }
        assert!(same_text(a, a));
    }
    assert!(!same_text("a", "b"));
}

#[test]
fn decimal_numerals() {
    assert_eq!(to_decimal(0), "0");
    assert_eq!(to_decimal(7), "7");
    assert_eq!(to_decimal(10), "10");
    assert_eq!(to_decimal(1234567890), "1234567890");
    assert_eq!(to_decimal(usize::MAX), usize::MAX.to_string());
}
