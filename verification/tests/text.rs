use natsu_typeless::files::{ends_with, join_path, not_after, sort_names};
use natsu_typeless::text::{
    byte_len_at_most, chars_of, control, cut_once, decimal, find, join, pieces, string_of, to_lower,
    trimmed_text, white_space, with_replaced, CharClass,
};

#[test]
fn characters_are_classified_as_unicode_does() {
    for c in '\0'..=char::MAX {
        assert_eq!(white_space(c), c.is_whitespace(), "{c:?}");
        assert_eq!(control(c), c.is_control(), "{c:?}");
        assert_eq!(to_lower(c), c.to_ascii_lowercase(), "{c:?}");
    }
}

#[test]
fn numbers_are_written_in_decimal() {
    for n in [0, 7, 10, 99, 100, 1_048_577, u64::MAX] {
        assert_eq!(decimal(n), n.to_string());
    }
}

#[test]
fn byte_lengths_count_utf8() {
    for text in ["", "a", "é", "字", "😀", "a字😀é"] {
        let chars = chars_of(text);
        assert!(byte_len_at_most(&chars, text.len()));
        assert!(text.is_empty() || !byte_len_at_most(&chars, text.len() - 1));
    }
}

#[test]
fn replacing_goes_from_left_to_right() {
    let replaced = |s: &str, from: &str, to: &str| {
        string_of(&with_replaced(&chars_of(s), &chars_of(from), &chars_of(to)))
    };
    for (s, from, to) in [("aaa", "aa", "b"), ("abab", "ab", ""), ("x", "y", "z"), ("", "a", "b")] {
        assert_eq!(replaced(s, from, to), s.replace(from, to));
    }
}

#[test]
fn splitting_keeps_empty_pieces() {
    let split = |s: &str| -> Vec<String> {
        pieces(&chars_of(s), &CharClass::Only(',')).iter().map(|piece| string_of(piece)).collect()
    };
    for s in ["", ",", "a,b", ",a,,b,"] {
        assert_eq!(split(s), s.split(',').collect::<Vec<_>>());
        assert_eq!(join(&split(s), ","), s);
    }
}

#[test]
fn searching_finds_the_first_occurrence() {
    assert_eq!(find(&chars_of("字a字a"), &chars_of("a")), Some(1));
    assert_eq!(find(&chars_of("abc"), &chars_of("")), Some(0));
    assert_eq!(find(&chars_of("abc"), &chars_of("d")), None);
    let text = chars_of("a=>b=>c");
    let arrow = chars_of("=>");
    let (left, right) = cut_once(&text, &arrow).unwrap();
    assert_eq!((string_of(left), string_of(right)), ("a".to_string(), "b=>c".to_string()));
    assert_eq!(trimmed_text("\u{2003} kept \u{a0}"), "kept");
}

#[test]
fn paths_are_joined_and_names_sorted() {
    assert_eq!(join_path(b"/a", "b"), b"/a/b");
    assert_eq!(join_path(b"/a/", "b"), b"/a/b");
    assert_eq!(join_path(b"/a", "/b"), b"/b");
    assert_eq!(join_path(b"", "b"), b"b");
    assert!(ends_with(b"a.txt", ".txt") && !ends_with(b".txt", ".txt"));
    assert!(not_after(b"a", b"ab") && !not_after(b"b", b"ab") && not_after(b"b", b"b"));
    let names = vec![b"b".to_vec(), b"a".to_vec(), b"".to_vec(), b"ab".to_vec()];
    let mut sorted = names.clone();
    sorted.sort();
    assert_eq!(sort_names(names), sorted);
}
