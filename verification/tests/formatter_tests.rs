use envy::formatters::{dry_run_action, format_env_file, format_lines, Change, FormatOutcome};
use envy::parser::{parse_env_file, Line};

fn format(text: &str, dupes: &str, dry_run: bool) -> FormatOutcome {
    format_env_file(text, dupes, dry_run).unwrap()
}

#[test]
fn keep_first_keeps_the_first_assignment() {
    let out = format("A=1\nA=2\n", "keep-first", false);
    assert_eq!(out.text, "A=1\n");
    assert_eq!(out.duplicates, 1);
    assert_eq!(out.reformatted, 1);
    assert_eq!(out.warnings, vec!["Removed duplicate key: A (line 2)".to_string()]);
}

#[test]
fn keep_last_keeps_the_last_assignment() {
    let out = format("A=1\nA=2\n", "keep-last", false);
    assert_eq!(out.text, "A=2\n");
    assert_eq!(out.duplicates, 1);
    assert_eq!(out.warnings, vec!["Removed duplicate key: A (line 1)".to_string()]);
}

#[test]
fn keep_last_restores_source_order() {
    let out = format("A=1\n# c\nB=2\nA=3\n\nC=4\n", "keep-last", false);
    assert_eq!(out.text, "# c\nB=2\nA=3\n\nC=4\n");
}

#[test]
fn unknown_policy_keeps_first() {
    let out = format("A=1\nA=2\n", "whatever", false);
    assert_eq!(out.text, "A=1\n");
}

#[test]
fn export_is_stripped() {
    let lines = parse_env_file("export FOO=bar\n").unwrap();
    assert!(matches!(&lines[0], Line::KeyValue { has_export: true, .. }));
    let out = format_lines(&lines, "keep-first", false);
    assert_eq!(out.text, "FOO=bar\n");
    assert_eq!(out.reformatted, 1);
    assert!(out.warnings.is_empty());
    assert!(out.changes.is_empty());
}

#[test]
fn export_counts_as_duplicate_of_plain_key() {
    let out = format("FOO=1\nexport FOO=2\n", "keep-first", false);
    assert_eq!(out.text, "FOO=1\n");
    assert_eq!(out.warnings, vec!["Removed duplicate key: FOO (line 2)".to_string()]);
}

#[test]
fn export_mark_without_prefix_leaves_key_alone() {
    let lines = vec![Line::KeyValue {
        key: "FOO".to_string(),
        value: "bar".to_string(),
        line: 1,
        inline_comment: None,
        references: Vec::new(),
        has_export: true,
    }];
    assert_eq!(format_lines(&lines, "keep-first", false).text, "FOO=bar\n");
}

#[test]
fn whitespace_is_trimmed() {
    let out = format("A = 1\nB= two words\n", "keep-first", false);
    assert_eq!(out.text, "A=1\nB=two words\n");
    assert_eq!(out.reformatted, 2);
}

#[test]
fn trimming_drops_the_inline_comment_when_key_has_spaces() {
    let out = format("A = 1 # note\n", "keep-first", false);
    assert_eq!(out.text, "A=1\n");
}

#[test]
fn inline_comment_is_kept_behind_one_space() {
    let out = format("A=1    # note\nB= x y #z\n", "keep-first", false);
    assert_eq!(out.text, "A=1 # note\nB= x y #z\n");
}

#[test]
fn comments_and_blank_lines_pass_through() {
    let out = format("  # top  \n\n   \nA=1\n", "keep-first", false);
    assert_eq!(out.text, "# top\n\n\nA=1\n");
    assert_eq!(out.reformatted, 1);
}

#[test]
fn invalid_lines_are_dropped_and_counted() {
    let out = format("A=1\nJUST_TEXT\nB=2\n", "keep-first", false);
    assert_eq!(out.text, "A=1\nB=2\n");
    assert_eq!(out.invalid, 1);
    assert_eq!(out.warnings, vec!["Skipping invalid line: JUST_TEXT (line 2)".to_string()]);
}

#[test]
fn formatted_text_is_unchanged() {
    let text = "# settings\nA=1\n\nB=\"two words\" # quoted\nC_D=x\n";
    assert_eq!(format(text, "keep-first", false).text, text);
    assert_eq!(format(text, "keep-last", false).text, text);
    assert_eq!(format("", "keep-first", false).text, "");
}

#[test]
fn formatting_twice_changes_nothing_more() {
    let text = "export A = 1\nA=2\n  # c\nB=x   #y\nnope\n";
    let once = format(text, "keep-first", false).text;
    assert_eq!(once, "A=1\n# c\nB=x #y\n");
    assert_eq!(format(&once, "keep-first", false).text, once);
}

#[test]
fn trimmed_keys_may_collide() {
    let out = format("A =1\nA =2\n", "keep-first", false);
    assert_eq!(out.text, "A=1\nA=2\n");
    assert_eq!(out.duplicates, 0);
}

#[test]
fn preview_lists_changes_and_no_warnings() {
    let out = format("export A=1\nA=2\nB = 3\nnope\n", "keep-first", true);
    assert_eq!(out.text, "A=1\nB=3\n");
    assert_eq!(out.reformatted, 2);
    assert_eq!(out.duplicates, 1);
    assert_eq!(out.invalid, 1);
    assert!(out.warnings.is_empty());
    assert_eq!(
        out.changes,
        vec![
            Change {
                line: 1,
                text: "1 | - export export A=1\n  | + A=1\n  | (Removed export keyword)\n".to_string(),
            },
            Change { line: 2, text: "2 | - A=2\n  | + (line removed - duplicate key\n".to_string() },
            Change { line: 3, text: "3 | - B = 3\n  | + B=3\n  | (removed extra spaces)\n".to_string() },
            Change {
                line: 4,
                text: "4 | - INVALID LINE\n  | + (line removed - invalid syntax)\n".to_string(),
            },
        ]
    );
}

#[test]
fn preview_under_keep_last_is_in_line_order() {
    let out = format("export A=1\nA=2\nnope\n", "keep-last", true);
    assert_eq!(out.text, "A=2\n");
    let lines: Vec<usize> = out.changes.iter().map(|c| c.line).collect();
    assert_eq!(lines, vec![1, 1, 3]);
    assert!(out.changes[0].text.contains("Removed export keyword"));
    assert!(out.changes[1].text.contains("duplicate key"));
    assert!(out.changes[2].text.contains("INVALID LINE"));
}

#[test]
fn preview_gutter_is_as_wide_as_the_line_count() {
    let mut text = String::new();
    for _ in 0..9 {
        text.push_str("# c\n");
    }
    text.push_str("nope\n");
    let out = format(&text, "keep-first", true);
    assert_eq!(
        out.changes,
        vec![Change {
            line: 10,
            text: "10 | - INVALID LINE\n   | + (line removed - invalid syntax)\n".to_string(),
        }]
    );
    let out = format("# c\nnope\n", "keep-first", true);
    assert_eq!(out.changes[0].text, "2 | - INVALID LINE\n  | + (line removed - invalid syntax)\n");
}

#[test]
fn dry_run_action_renders_three_rows() {
    assert_eq!(
        dry_run_action(3, 7, Some("old"), Some("new"), "why"),
        "  7 | - old\n    | + new\n    | (why)\n"
    );
}

#[test]
fn dry_run_action_leaves_out_absent_rows() {
    assert_eq!(dry_run_action(2, 12, Some("old"), None, ""), "12 | - old\n");
    assert_eq!(dry_run_action(2, 12, None, Some("new"), ""), "   | + new\n");
    assert_eq!(dry_run_action(2, 12, None, None, "note"), "   | (note)\n");
    assert_eq!(dry_run_action(2, 12, None, None, ""), "");
}

#[test]
fn dry_run_action_does_not_cut_wide_numbers() {
    assert_eq!(dry_run_action(1, 1234, Some("x"), None, ""), "1234 | - x\n");
    assert_eq!(dry_run_action(0, 0, Some("x"), Some("y"), ""), "0 | - x\n | + y\n");
    assert_eq!(
        dry_run_action(0, usize::MAX, Some(""), None, ""),
        format!("{} | - \n", usize::MAX)
    );
}

#[test]
fn dry_run_action_agrees_with_std_formatting() {
    for (width, line) in [(0usize, 5usize), (1, 9), (1, 10), (4, 99), (5, 100000), (7, 0)] {
        let expected = format!(
            "{:>width$} | - {}\n{:>width$} | + {}\n{:>width$} | ({})\n",
            line,
            "a",
            "",
            "b",
            "",
            "c",
            width = width
        );
        assert_eq!(dry_run_action(width, line, Some("a"), Some("b"), "c"), expected);
    }
}

#[test]
fn format_lines_on_no_lines() {
    let out = format_lines(&[], "keep-last", true);
    assert_eq!(
        out,
        FormatOutcome {
            text: String::new(),
            reformatted: 0,
            duplicates: 0,
            invalid: 0,
            changes: Vec::new(),
            warnings: Vec::new(),
        }
    );
}

#[test]
fn first_or_last_of_two_assignments_stays() {
    for (a, b) in [("K=1", "K=2"), ("export K=x y", "K=z # c"), ("K= 1", "export K=2")] {
        let text = format!("{}\n{}\n", a, b);
        let first = format(&format!("{}\n", a), "keep-first", false).text;
        let second = format(&format!("{}\n", b), "keep-first", false).text;
        assert_eq!(format(&text, "keep-first", false).text, first);
        assert_eq!(format(&text, "keep-last", false).text, second);
    }
}

#[test]
fn empty_value_before_a_comment_stays_empty() {
    let out = format("A= # c\n", "keep-first", false);
    assert_eq!(out.text, "A= # c\n");
}

#[test]
fn key_that_is_nothing_but_export_loses_its_key() {
    let out = format("export =x\n", "keep-first", false);
    assert_eq!(out.text, "=x\n");
    assert_eq!(parse_env_file(&out.text).unwrap(), vec![Line::Invalid { content: "=x".to_string(), line: 1 }]);
}

#[test]
fn two_thousand_keys_are_formatted() {
    let mut text = String::new();
    for i in 0..2000 {
        text.push_str(&format!("KEY_{}={}\n", i % 1500, i));
    }
    let out = format(&text, "keep-last", false);
    assert_eq!(out.reformatted, 1500);
    assert_eq!(out.duplicates, 500);
    assert!(out.text.starts_with("KEY_500=500\n"));
    assert!(out.text.ends_with("KEY_499=1999\n"));
}
