use envy::parser::parse_env_file;
use envy::validator::{check_required_keys, validate, validate_lines, Issue, ValidationReport};

fn report(text: &str, error_mode: bool) -> ValidationReport {
    validate(text, None, error_mode).unwrap()
}

#[test]
fn clean_file_has_no_issues() {
    let r = report("# c\nA=1\n\nB=\"x\" # note\n", true);
    assert!(r.valid);
    assert_eq!(r.issues, Vec::<Issue>::new());
}

#[test]
fn duplicate_fails_only_in_error_mode() {
    let strict = report("A=1\nB=2\nA=3\n", true);
    assert!(!strict.valid);
    let lax = report("A=1\nB=2\nA=3\n", false);
    assert!(lax.valid);
    let expected = vec![Issue::DuplicateKey { key: "A".to_string(), lines: vec![1, 3] }];
    assert_eq!(strict.issues, expected);
    assert_eq!(lax.issues, expected);
}

#[test]
fn undefined_reference_is_reported_once() {
    let r = report("A=${B}\n", true);
    assert!(r.valid);
    assert_eq!(
        r.issues,
        vec![Issue::UndefinedReference { key: "A".to_string(), name: "B".to_string(), line: 1 }]
    );
}

#[test]
fn defined_reference_is_fine() {
    let r = report("A=${B}\nB=1\n", true);
    assert_eq!(r.issues, Vec::<Issue>::new());
}

#[test]
fn invalid_line_is_reported_and_not_fatal() {
    let r = report("JUST_TEXT\n", true);
    assert!(r.valid);
    assert_eq!(r.issues, vec![Issue::InvalidLine { content: "JUST_TEXT".to_string(), line: 1 }]);
}

#[test]
fn whitespace_is_a_warning() {
    let r = report("A = two words\n", true);
    assert!(r.valid);
    assert_eq!(
        r.issues,
        vec![
            Issue::KeyHasSpaces { key: "A".to_string(), line: 1 },
            Issue::ValueHasSpaces { key: "A".to_string(), line: 1 },
        ]
    );
}

#[test]
fn value_with_spaces_before_a_comment_is_fine() {
    let r = report("A=two words # note\n", true);
    assert_eq!(r.issues, Vec::<Issue>::new());
}

#[test]
fn empty_value_is_a_hard_error() {
    let strict = report("A= # todo\n", true);
    assert!(!strict.valid);
    assert_eq!(strict.issues, vec![Issue::EmptyValue { key: "A".to_string(), line: 1 }]);
    assert!(report("A= # todo\n", false).valid);
}

#[test]
fn empty_key_is_a_hard_error() {
    let lines = vec![envy::parser::Line::KeyValue {
        key: "  ".to_string(),
        value: "v".to_string(),
        line: 5,
        inline_comment: None,
        references: Vec::new(),
        has_export: false,
    }];
    let r = validate_lines(&lines, None, true);
    assert!(!r.valid);
    assert_eq!(
        r.issues,
        vec![Issue::KeyHasSpaces { key: String::new(), line: 5 }, Issue::EmptyKey { line: 5 }]
    );
}

#[test]
fn issues_come_in_a_fixed_order() {
    let text = "nope\nB=${X}\nA =1\nB=2\nA =\t# c\nalso nope\n";
    let example = "X=1\nB=1\nY=2\n";
    let r = validate(text, Some(example), false).unwrap();
    assert!(r.valid);
    assert_eq!(
        r.issues,
        vec![
            Issue::MissingRequired { key: "X".to_string() },
            Issue::MissingRequired { key: "Y".to_string() },
            Issue::InvalidLine { content: "nope".to_string(), line: 1 },
            Issue::InvalidLine { content: "also nope".to_string(), line: 6 },
            Issue::DuplicateKey { key: "B".to_string(), lines: vec![2, 4] },
            Issue::DuplicateKey { key: "A ".to_string(), lines: vec![3, 5] },
            Issue::KeyHasSpaces { key: "A".to_string(), line: 3 },
            Issue::KeyHasSpaces { key: "A".to_string(), line: 5 },
            Issue::EmptyValue { key: "A ".to_string(), line: 5 },
            Issue::UndefinedReference { key: "B".to_string(), name: "X".to_string(), line: 2 },
        ]
    );
    assert!(!validate(text, Some(example), true).unwrap().valid);
}

#[test]
fn missing_required_keys_are_advisory() {
    let r = validate("A=1\n", Some("A=\"x\"\nB=2\n# c\nC=3\n"), true).unwrap();
    assert!(r.valid);
    assert_eq!(
        r.issues,
        vec![
            Issue::MissingRequired { key: "B".to_string() },
            Issue::MissingRequired { key: "C".to_string() },
        ]
    );
}

#[test]
fn check_required_keys_compares_keys_as_written() {
    let file = parse_env_file("export A=1\nB=2\n").unwrap();
    let example = parse_env_file("A=1\nB=2\n").unwrap();
    assert_eq!(
        check_required_keys(&file, &example),
        vec![Issue::MissingRequired { key: "A".to_string() }]
    );
    assert_eq!(check_required_keys(&file, &[]), Vec::<Issue>::new());
}

#[test]
fn format_then_validate_finds_no_hard_error() {
    let text = "export A=1\nA=2\n  # c\nB=x   #y\nnope\nC=${A}\nB=again\n=v\nD=\nE = 5\n";
    for dupes in ["keep-first", "keep-last"] {
        let formatted = envy::formatters::format_env_file(text, dupes, false).unwrap().text;
        let r = validate(&formatted, None, true).unwrap();
        assert!(r.valid);
        for issue in r.issues.iter() {
            assert!(!matches!(
                issue,
                Issue::DuplicateKey { .. } | Issue::EmptyKey { .. } | Issue::EmptyValue { .. }
            ));
        }
    }
}

#[test]
fn formatted_text_with_colliding_keys_fails_strict_validation() {
    let formatted = envy::formatters::format_env_file("A =1\nA =2\n", "keep-first", false).unwrap().text;
    let r = validate(&formatted, None, true).unwrap();
    assert!(!r.valid);
    assert_eq!(r.issues, vec![Issue::DuplicateKey { key: "A".to_string(), lines: vec![1, 2] }]);
}

#[test]
fn formatted_text_with_an_empty_value_fails_strict_validation() {
    let formatted = envy::formatters::format_env_file("A= # c\n", "keep-first", false).unwrap().text;
    let r = validate(&formatted, None, true).unwrap();
    assert!(!r.valid);
    assert_eq!(r.issues, vec![Issue::EmptyValue { key: "A".to_string(), line: 1 }]);
}

#[test]
fn every_reference_is_checked() {
    let r = report("A=${B}${C}${A}\nC=${D}\n", false);
    assert_eq!(
        r.issues,
        vec![
            Issue::UndefinedReference { key: "A".to_string(), name: "B".to_string(), line: 1 },
            Issue::UndefinedReference { key: "C".to_string(), name: "D".to_string(), line: 2 },
        ]
    );
}
