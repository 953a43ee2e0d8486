use envy::parser::{classify_line, get_keys, parse_env_file, parse_inline_comment, parse_line, Line};
use envy::references::{extract_variable_reference, present_names};

fn key_value(
    key: &str,
    value: &str,
    line: usize,
    inline_comment: Option<&str>,
    references: &[&str],
    has_export: bool,
) -> Line {
    Line::KeyValue {
        key: key.to_string(),
        value: value.to_string(),
        line,
        inline_comment: inline_comment.map(|c| c.to_string()),
        references: references.iter().map(|r| r.to_string()).collect(),
        has_export,
    }
}

#[test]
fn quoted_hash_is_no_comment() {
    assert_eq!(parse_inline_comment("KEY=\"a # b\""), ("KEY=\"a # b\"", None));
    let lines = parse_env_file("KEY=\"a # b\"\n").unwrap();
    assert_eq!(lines, vec![key_value("KEY", "\"a # b\"", 1, None, &[], false)]);
}

#[test]
fn unquoted_hash_starts_comment() {
    assert_eq!(parse_inline_comment("KEY=val # note"), ("KEY=val", Some("# note")));
    let lines = parse_env_file("KEY=val # note\n").unwrap();
    assert_eq!(lines, vec![key_value("KEY", "val", 1, Some("# note"), &[], false)]);
}

#[test]
fn single_quotes_hide_hash() {
    assert_eq!(parse_inline_comment("K='x # y' # z"), ("K='x # y'", Some("# z")));
}

#[test]
fn other_quote_inside_quotes_does_not_close() {
    assert_eq!(parse_inline_comment("K=\"it's # here\" #c"), ("K=\"it's # here\"", Some("#c")));
}

#[test]
fn escaped_hash_is_no_comment() {
    assert_eq!(parse_inline_comment("K=a\\#b"), ("K=a\\#b", None));
    assert_eq!(parse_inline_comment("K=a\\\\#b"), ("K=a\\\\", Some("#b")));
}

#[test]
fn escaped_quote_opens_nothing() {
    assert_eq!(parse_inline_comment("K=\\\"a # b"), ("K=\\\"a", Some("# b")));
}

#[test]
fn comment_split_counts_characters_not_bytes() {
    assert_eq!(parse_inline_comment("K=é ü # n"), ("K=é ü", Some("# n")));
}

#[test]
fn comment_is_trimmed_and_content_right_trimmed() {
    assert_eq!(parse_inline_comment("  K=v \t #  note  "), ("  K=v", Some("#  note")));
}

#[test]
fn line_without_hash_is_all_content() {
    assert_eq!(parse_inline_comment("K=v"), ("K=v", None));
    assert_eq!(parse_inline_comment(""), ("", None));
}

#[test]
fn blank_and_comment_lines() {
    let lines = parse_env_file("\n   \n# hello\n  # indented  \n").unwrap();
    assert_eq!(
        lines,
        vec![
            Line::Empty,
            Line::Empty,
            Line::Comment("# hello".to_string()),
            Line::Comment("# indented".to_string()),
        ]
    );
}

#[test]
fn line_without_equals_is_invalid() {
    let lines = parse_env_file("JUST_TEXT\n").unwrap();
    assert_eq!(lines, vec![Line::Invalid { content: "JUST_TEXT".to_string(), line: 1 }]);
    assert_eq!(
        classify_line("  JUST_TEXT  ", 7),
        Line::Invalid { content: "JUST_TEXT".to_string(), line: 7 }
    );
}

#[test]
fn empty_key_is_invalid() {
    assert_eq!(classify_line("=value", 1), Line::Invalid { content: "=value".to_string(), line: 1 });
    assert_eq!(
        classify_line("   =value", 2),
        Line::Invalid { content: "=value".to_string(), line: 2 }
    );
}

#[test]
fn empty_value_without_comment_is_invalid() {
    assert_eq!(classify_line("KEY=", 3), Line::Invalid { content: "KEY=".to_string(), line: 3 });
    assert_eq!(
        classify_line("KEY=   ", 3),
        Line::Invalid { content: "KEY=".to_string(), line: 3 }
    );
}

#[test]
fn empty_value_with_comment_is_an_assignment() {
    assert_eq!(classify_line("KEY= # later", 4), key_value("KEY", "", 4, Some("# later"), &[], false));
}

#[test]
fn key_and_value_are_kept_untrimmed() {
    assert_eq!(classify_line("  A = b c ", 1), key_value("A ", " b c", 1, None, &[], false));
}

#[test]
fn value_keeps_later_equals_signs() {
    assert_eq!(classify_line("URL=a=b=c", 1), key_value("URL", "a=b=c", 1, None, &[], false));
}

#[test]
fn export_is_marked_and_kept_in_the_key() {
    let lines = parse_env_file("export FOO=bar\n").unwrap();
    assert_eq!(lines, vec![key_value("export FOO", "bar", 1, None, &[], true)]);
    assert_eq!(classify_line("exportFOO=bar", 1), key_value("exportFOO", "bar", 1, None, &[], false));
    assert_eq!(classify_line("EXPORT FOO=bar", 1), key_value("EXPORT FOO", "bar", 1, None, &[], false));
}

#[test]
fn line_numbers_count_from_one() {
    let lines = parse_env_file("A=1\n\nnope\nB=2").unwrap();
    assert_eq!(
        lines,
        vec![
            key_value("A", "1", 1, None, &[], false),
            Line::Empty,
            Line::Invalid { content: "nope".to_string(), line: 3 },
            key_value("B", "2", 4, None, &[], false),
        ]
    );
}

#[test]
fn carriage_returns_are_stripped() {
    let lines = parse_env_file("A=1\r\nB=2\r\n").unwrap();
    assert_eq!(
        lines,
        vec![key_value("A", "1", 1, None, &[], false), key_value("B", "2", 2, None, &[], false)]
    );
}

#[test]
fn empty_text_has_no_lines() {
    assert_eq!(parse_env_file("").unwrap(), Vec::<Line>::new());
    assert_eq!(parse_env_file("\n").unwrap(), vec![Line::Empty]);
    assert_eq!(parse_env_file("\n\n").unwrap(), vec![Line::Empty, Line::Empty]);
}

#[test]
fn parsing_agrees_with_std_lines() {
    let text = "A=1\n\n# c\r\nB = 2 # d\nexport C=${A}\nnope\n\n";
    let lines = parse_env_file(text).unwrap();
    assert_eq!(lines.len(), text.lines().count());
    for (i, raw) in text.lines().enumerate() {
        assert_eq!(lines[i], parse_line(raw, i + 1).unwrap());
    }
}

#[test]
fn references_are_found_in_order() {
    assert_eq!(
        extract_variable_reference("${A}/x/${B_2}${_C}").unwrap(),
        vec!["A".to_string(), "B_2".to_string(), "_C".to_string()]
    );
}

#[test]
fn malformed_references_are_skipped() {
    assert_eq!(extract_variable_reference("${a} ${1A} $A ${} ${A").unwrap(), Vec::<String>::new());
    assert_eq!(extract_variable_reference("${A}${A}").unwrap(), vec!["A".to_string(), "A".to_string()]);
}

#[test]
fn references_are_attached_to_assignments() {
    let lines = parse_env_file("A=${B}\nC=x${A}y${D_1} # ${E}\n").unwrap();
    assert_eq!(
        lines,
        vec![
            key_value("A", "${B}", 1, None, &["B"], false),
            key_value("C", "x${A}y${D_1}", 2, Some("# ${E}"), &["A", "D_1"], false),
        ]
    );
}

#[test]
fn references_in_the_key_count_too() {
    let line = parse_line("${K}=${V}", 1).unwrap();
    assert_eq!(line, key_value("${K}", "${V}", 1, None, &["K", "V"], false));
}

#[test]
fn present_names_drops_absent_groups() {
    let found = vec![Some("A".to_string()), None, Some("B".to_string()), None];
    assert_eq!(present_names(found), vec!["A".to_string(), "B".to_string()]);
    assert_eq!(present_names(Vec::new()), Vec::<String>::new());
}

#[test]
fn get_keys_lists_assignment_keys_in_order() {
    let lines = parse_env_file("B=1\n# c\nexport A=2\nnope\nB=3\n").unwrap();
    assert_eq!(get_keys(&lines), vec!["B".to_string(), "export A".to_string(), "B".to_string()]);
    assert_eq!(get_keys(&[]), Vec::<String>::new());
}

#[test]
fn unicode_whitespace_is_trimmed() {
    assert_eq!(classify_line("\u{00A0}\u{3000}", 1), Line::Empty);
    assert_eq!(classify_line("\u{2003}A=1\u{0085}", 1), key_value("A", "1", 1, None, &[], false));
    assert_eq!(classify_line("\u{200B}", 1), Line::Invalid { content: "\u{200B}".to_string(), line: 1 });
}

#[test]
fn with_references_fills_assignments_only() {
    let names = vec!["A".to_string(), "B".to_string()];
    assert_eq!(
        envy::parser::with_references(classify_line("K=${A}${B}", 2), names.clone()),
        key_value("K", "${A}${B}", 2, None, &["A", "B"], false)
    );
    assert_eq!(envy::parser::with_references(Line::Empty, names.clone()), Line::Empty);
    assert_eq!(
        envy::parser::with_references(classify_line("nope", 1), names),
        Line::Invalid { content: "nope".to_string(), line: 1 }
    );
}

#[test]
fn lone_carriage_return_ends_no_line() {
    let lines = parse_env_file("A=1\rB=2\n").unwrap();
    assert_eq!(lines, vec![key_value("A", "1\rB=2", 1, None, &[], false)]);
}

#[test]
fn long_file_is_parsed_in_order() {
    let mut text = String::new();
    for i in 0..20000 {
        text.push_str(&format!("KEY_{}=value ${{KEY_{}}} # note {}\n", i, i / 2, i));
    }
    let lines = parse_env_file(&text).unwrap();
    assert_eq!(lines.len(), 20000);
    assert_eq!(
        lines[19999],
        key_value("KEY_19999", "value ${KEY_9999}", 20000, Some("# note 19999"), &["KEY_9999"], false)
    );
}
