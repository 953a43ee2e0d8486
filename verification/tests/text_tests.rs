use envy::order::{sorted_positions, Sortable};
use envy::references::{capture_names, ParseError};
use envy::text::{
    char_is_space, chars_before, chars_of, chars_start_with, decimal_width,
    has_space, holds_text, push_decimal, push_spaces, push_text, seen_before, text_equal,
    trim_end_bound, trim_range, trimmed, without_prefix,
};

fn chars(s: &str) -> Vec<char> {
    s.chars().collect()
}

#[test]
fn whitespace_is_what_std_calls_whitespace() {
    for n in 0u32..=0x10FFFF {
        if let Some(c) = char::from_u32(n) {
            assert_eq!(char_is_space(c), c.is_whitespace(), "U+{:04X}", n);
        }
    }
}

#[test]
fn chars_of_lists_the_characters() {
    assert_eq!(chars_of("aé\u{10000}"), vec!['a', 'é', '\u{10000}']);
    assert_eq!(chars_of(""), Vec::<char>::new());
}

#[test]
fn trimmed_agrees_with_std_trim() {
    for s in ["", " ", "a", "  a b \t", "\u{A0}x\u{3000}", "\r\n", "é ", " \u{200B} ", "a\u{0B}"] {
        assert_eq!(trimmed(s), s.trim(), "{:?}", s);
    }
}

#[test]
fn trim_range_gives_the_bounds_within_a_stretch() {
    let v = chars("ab  cd  ef");
    assert_eq!(trim_range(&v, 2, 8), (4, 6));
    assert_eq!(trim_range(&v, 0, 10), (0, 10));
    assert_eq!(trim_range(&v, 2, 4), (4, 4));
    assert_eq!(trim_range(&v, 3, 3), (3, 3));
    assert_eq!(trim_end_bound(&v, 0, 4), 2);
    assert_eq!(trim_end_bound(&v, 2, 4), 2);
    assert_eq!(trim_end_bound(&v, 0, 10), 10);
}

#[test]
fn has_space_finds_any_whitespace() {
    assert!(has_space("a b"));
    assert!(has_space("\t"));
    assert!(has_space("a\u{2028}"));
    assert!(!has_space(""));
    assert!(!has_space("a_b=c"));
}

#[test]
fn text_equal_compares_by_character() {
    assert!(text_equal("", ""));
    assert!(text_equal("abc", "abc"));
    assert!(!text_equal("abc", "abd"));
    assert!(!text_equal("abc", "ab"));
    assert!(!text_equal("ab", "abc"));


}

#[test]
fn without_prefix_agrees_with_std_strip_prefix() {
    for (s, p) in [("export A", "export "), ("export", "export "), ("", ""), ("a", ""), ("", "a"), ("éa", "é"), ("ab", "b")] {
        assert_eq!(without_prefix(s, p), s.strip_prefix(p), "{:?} {:?}", s, p);
        assert_eq!(chars_start_with(&chars(s), &chars(p)), s.starts_with(p));
    }
}

#[test]
fn decimal_agrees_with_std_formatting() {
    for n in [0usize, 1, 9, 10, 11, 99, 100, 101, 12345, 1000000, usize::MAX - 1, usize::MAX] {
        let mut out = String::from("n=");
        push_decimal(&mut out, n);
        assert_eq!(out, format!("n={}", n));
        assert_eq!(decimal_width(n), n.to_string().len());
    }
}

#[test]
fn push_spaces_appends_that_many() {
    let mut out = String::from("x");
    push_spaces(&mut out, 0);
    assert_eq!(out, "x");
    push_spaces(&mut out, 3);
    assert_eq!(out, "x   ");
}

#[test]
fn chars_before_agrees_with_std_string_order() {
    let all = ["", "a", "A", "aa", "ab", "b", "é", "z", "\u{FFFF}", "\u{10000}", "a\u{10000}", "a\u{FFFF}"];
    for x in all {
        for y in all {
            assert_eq!(chars_before(&chars(x), &chars(y)), x < y, "{:?} {:?}", x, y);
            assert_eq!(chars(x).sorts_before(&chars(y)), x < y);
        }
    }
}

#[test]
fn sorted_positions_agrees_with_std_stable_sort() {
    let keys: Vec<usize> = vec![5, 3, 9, 3, 0, 5, 5, 1, 9, 0];
    let mut expected: Vec<usize> = (0..keys.len()).collect();
    expected.sort_by_key(|&i| keys[i]);
    assert_eq!(sorted_positions(&keys), expected);
    assert_eq!(sorted_positions(&Vec::<usize>::new()), Vec::<usize>::new());
    assert_eq!(sorted_positions(&vec![7usize]), vec![0]);
    assert!(3usize.sorts_before(&4));
    assert!(!4usize.sorts_before(&4));
}

#[test]
fn sorted_positions_of_texts_keeps_ties_in_order() {
    let keys: Vec<Vec<char>> = ["b", "a", "b", "", "a"].iter().map(|s| chars(s)).collect();
    assert_eq!(sorted_positions(&keys), vec![3, 1, 4, 0, 2]);
}

#[test]
fn lists_of_texts() {
    let mut list: Vec<String> = Vec::new();
    push_text(&mut list, "a".to_string());
    push_text(&mut list, "b".to_string());
    push_text(&mut list, "a".to_string());
    assert_eq!(list, vec!["a".to_string(), "b".to_string(), "a".to_string()]);
    assert!(holds_text(&list, "b"));
    assert!(!holds_text(&list, "c"));
    assert!(!holds_text(&Vec::new(), ""));
    assert!(!seen_before(&list, 0));
    assert!(!seen_before(&list, 1));
    assert!(seen_before(&list, 2));
}

#[test]
fn rejected_pattern_is_an_error() {
    assert_eq!(capture_names("(", "x"), Err(ParseError::Pattern));
    assert_eq!(capture_names("a{2,1}", "x"), Err(ParseError::Pattern));
}

#[test]
fn capture_names_takes_the_first_group() {
    assert_eq!(capture_names("([0-9]+)", "a1b22c"), Ok(vec!["1".to_string(), "22".to_string()]));
    assert_eq!(capture_names("a", "aaa"), Ok(Vec::new()));
    assert_eq!(capture_names("(x)|y", "xyx"), Ok(vec!["x".to_string(), "x".to_string()]));
    assert_eq!(capture_names("(é+)", "aééb"), Ok(vec!["éé".to_string()]));
}
