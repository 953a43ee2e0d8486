use envy::cli::{run, Cli, Commands, Outcome};
use envy::validator::Issue;

fn format(dupes: &str, dry_run: bool) -> Cli {
    Cli {
        command: Commands::Format { path: ".env".to_string(), dupes: dupes.to_string(), dry_run },
    }
}

fn validate(check_required: bool, error: bool) -> Cli {
    Cli { command: Commands::Validate { path: ".env".to_string(), check_required, error } }
}

const RULE: &str = "━━━━━━━━━━━━━━━━━━━━━━━━━━━━━━━━━━━━━━━━━━━━\n";

#[test]
fn format_command_replaces_the_file_and_prints_a_summary() {
    let outcome = run(&format("keep-first", false), "A = 1\nA=2\nnope\n", None).unwrap();
    assert_eq!(
        outcome,
        Outcome {
            output: vec![
                "\nFormatting file: .env\n".to_string(),
                RULE.to_string(),
                "Summary:".to_string(),
                " • 1 lines reformatted".to_string(),
                " • 1 duplicate keys removed (keep-first)".to_string(),
                " • 1 invalid lines removed\n".to_string(),
            ],
            diagnostics: vec![
                "Removed duplicate key: A (line 2)".to_string(),
                "Skipping invalid line: nope (line 3)".to_string(),
            ],
            replacement: Some("A=1\n".to_string()),
            success: true,
        }
    );
}

#[test]
fn format_dry_run_previews_and_leaves_the_file() {
    let outcome = run(&format("keep-last", true), "A=1\nA=2\n", None).unwrap();
    assert_eq!(outcome.replacement, None);
    assert!(outcome.diagnostics.is_empty());
    assert_eq!(
        outcome.output,
        vec![
            "\nFormatting file: .env\n".to_string(),
            "1 | - A=1\n  | + (line removed - duplicate key\n".to_string(),
            RULE.to_string(),
            "Summary:".to_string(),
            " • 1 lines reformatted".to_string(),
            " • 1 duplicate keys removed (keep-last)".to_string(),
            " • 0 invalid lines removed\n".to_string(),
        ]
    );
    assert!(outcome.success);
}

#[test]
fn sort_command_replaces_the_file_even_in_a_dry_run() {
    for dry_run in [false, true] {
        let cli = Cli {
            command: Commands::Sort {
                path: "x".to_string(),
                method: "alpha".to_string(),
                dry_run,
            },
        };
        let outcome = run(&cli, "B=1\n# c\nA=2\n", None).unwrap();
        assert_eq!(
            outcome,
            Outcome {
                output: Vec::new(),
                diagnostics: Vec::new(),
                replacement: Some("A=2\nB=1\n\n".to_string()),
                success: true,
            }
        );
    }
}

#[test]
fn validate_command_fails_on_duplicate_only_with_error_flag() {
    let text = "A=1\nA=2\n";
    let strict = run(&validate(false, true), text, None).unwrap();
    let lax = run(&validate(false, false), text, None).unwrap();
    assert!(!strict.success);
    assert!(lax.success);
    let expected = vec!["Duplicate key: `A` (lines 1, 2)".to_string()];
    assert_eq!(strict.output, expected);
    assert_eq!(lax.output, expected);
    assert_eq!(strict.replacement, None);
}

#[test]
fn validate_command_reports_that_nothing_was_found() {
    let outcome = run(&validate(false, true), "A=1\n", None).unwrap();
    assert_eq!(outcome.output, vec!["Validation passed: no issues found".to_string()]);
    assert!(outcome.diagnostics.is_empty());
    assert!(outcome.success);
}

#[test]
fn validate_command_says_nothing_of_passing_when_it_warns() {
    let outcome = run(&validate(false, true), "A=${B}\nnope\n", None).unwrap();
    assert_eq!(outcome.output, vec!["Invalid line: `nope` (line 2)".to_string()]);
    assert_eq!(
        outcome.diagnostics,
        vec!["Variable `A` references undefined variable `${B}` (line 1)".to_string()]
    );
    assert!(outcome.success);
}

#[test]
fn validate_command_consults_the_example_only_when_asked() {
    let asked = run(&validate(true, false), "A=1\n", Some("B=1\n")).unwrap();
    assert_eq!(asked.output, vec!["Missing required key B".to_string()]);
    let not_asked = run(&validate(false, false), "A=1\n", Some("B=1\n")).unwrap();
    assert_eq!(not_asked.output, vec!["Validation passed: no issues found".to_string()]);
    let nothing_given = run(&validate(true, false), "A=1\n", None).unwrap();
    assert_eq!(nothing_given.output, vec!["Validation passed: no issues found".to_string()]);
}

#[test]
fn commands_name_their_file() {
    assert_eq!(format("keep-first", false).command.path(), ".env");
    assert_eq!(validate(true, false).command.path(), ".env");
    assert!(validate(true, false).command.wants_example());
    assert!(!validate(false, true).command.wants_example());
    assert!(!format("keep-first", true).command.wants_example());
}

#[test]
fn every_issue_has_its_message() {
    let key = "K".to_string();
    let cases = vec![
        (Issue::MissingRequired { key: key.clone() }, "Missing required key K"),
        (Issue::InvalidLine { content: "x y".to_string(), line: 12 }, "Invalid line: `x y` (line 12)"),
        (
            Issue::DuplicateKey { key: key.clone(), lines: vec![3, 10, 205] },
            "Duplicate key: `K` (lines 3, 10, 205)",
        ),
        (Issue::DuplicateKey { key: key.clone(), lines: vec![] }, "Duplicate key: `K` (lines )"),
        (Issue::DuplicateKey { key: key.clone(), lines: vec![7] }, "Duplicate key: `K` (lines 7)"),
        (Issue::KeyHasSpaces { key: key.clone(), line: 1 }, "Invalid key `K` contains spaces (line 1)"),
        (
            Issue::ValueHasSpaces { key: key.clone(), line: 2 },
            "Warning: value for key `K` contains spaces - consider quoting it (line 2)",
        ),
        (Issue::EmptyKey { line: 0 }, "Empty key found at line 0"),
        (Issue::EmptyValue { key: key.clone(), line: 99 }, "Empty value for key `K` (line 99)"),
        (
            Issue::UndefinedReference { key: key.clone(), name: "N".to_string(), line: 1000 },
            "Variable `K` references undefined variable `${N}` (line 1000)",
        ),
    ];
    for (issue, expected) in cases {
        assert_eq!(issue.message(), expected);
    }
}
