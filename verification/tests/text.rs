use rlx_fft::html::json_list;
use rlx_fft::text::{
    align_left, align_right, decimal_text, is_white, join_texts, parse_u64, parse_usize, split_text,
    to_lower, trim_text, usize_text,
};

#[test]
fn white_space_agrees_with_the_standard_library() {
    for c in '\0'..=char::MAX {
        assert_eq!(is_white(c), c.is_whitespace(), "{c:?}");
    }
}

#[test]
fn trimming_and_lowering_agree_with_the_standard_library() {
    for s in ["", " ", "  a b ", "\u{a0}X\u{2003}", "\tTab\n", "ÄÖ Z", "no"] {
        assert_eq!(trim_text(s), s.trim());
        assert_eq!(to_lower(s), s.to_ascii_lowercase());
    }
}

#[test]
fn numbers_agree_with_the_standard_library() {
    for s in ["", "+", "0", "+7", "-1", "007", "1 ", "18446744073709551615", "18446744073709551616", "x", "１"] {
        assert_eq!(parse_usize(s), s.parse::<usize>().ok(), "{s}");
        assert_eq!(parse_u64(s), s.parse::<u64>().ok(), "{s}");
    }
    for n in [0u64, 1, 9, 10, 99, 100, 12345, u64::MAX] {
        assert_eq!(decimal_text(n), n.to_string());
        assert_eq!(parse_u64(&decimal_text(n)), Some(n));
    }
    assert_eq!(usize_text(4096), "4096");
}

#[test]
fn splitting_and_joining_undo_each_other() {
    for s in ["", ",", "a,b", ",a,,b,", "one"] {
        let parts = split_text(s, ',');
        assert_eq!(parts, s.split(',').map(str::to_string).collect::<Vec<_>>());
        assert_eq!(join_texts(&parts, ","), s);
    }
}

#[test]
fn padding_agrees_with_the_standard_library() {
    for s in ["", "ab", "abcdef", "—"] {
        assert_eq!(align_right(s, 4), format!("{s:>4}"));
        assert_eq!(align_left(s, 4), format!("{s:<4}"));
    }
}

#[test]
fn json_lists_escape_their_texts() {
    let items = vec![
        "plain é".to_string(),
        "a\"b\\c".to_string(),
        "\u{8}\t\n\u{c}\r\u{1}\u{1f}\u{7f}".to_string(),
    ];
    assert_eq!(
        json_list(&items),
        "[\"plain é\",\"a\\\"b\\\\c\",\"\\b\\t\\n\\f\\r\\u0001\\u001f\u{7f}\"]"
    );
}
