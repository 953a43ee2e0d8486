//! The commands, and what running one on the text of a file yields: what to
//! print, what to write back, and whether the run counts as a success.

use crate::formatters::{format_env_file, format_spec, ChangeView, FormatOutcome, FormatOutcomeView};
use crate::parser::{has_assignment, parse_spec, LineView};
use crate::references::{reference_pattern, regex_compiles, ParseError};
use crate::sorter::{sort, sort_spec};
use crate::text::{decimal, push_decimal, push_text};
use crate::validator::{issue_message, validate, validate_spec, Issue, IssueView};
use vstd::prelude::*;
use vstd::string::*;

verus! {

/// A command with its arguments.
#[derive(Debug, Clone, PartialEq, Eq)]
pub enum Commands {
    /// Normalizes the file at `path`.
    Format { path: String, dupes: String, dry_run: bool },
    /// Sorts the assignments of the file at `path`.
    Sort { path: String, method: String, dry_run: bool },
    /// Checks the file at `path`.
    Validate { path: String, check_required: bool, error: bool },
}

/// The command line.
#[derive(Debug, Clone, PartialEq, Eq)]
pub struct Cli {
    pub command: Commands,
}

/// The mathematical value of a [`Commands`].
pub ghost enum CommandsView {
    Format { path: Seq<char>, dupes: Seq<char>, dry_run: bool },
    Sort { path: Seq<char>, method: Seq<char>, dry_run: bool },
    Validate { path: Seq<char>, check_required: bool, error: bool },
}

impl View for Commands {
    type V = CommandsView;

    open spec fn view(&self) -> CommandsView {
        match self {
            Commands::Format { path, dupes, dry_run } => CommandsView::Format {
                path: path@,
                dupes: dupes@,
                dry_run: *dry_run,
            },
            Commands::Sort { path, method, dry_run } => CommandsView::Sort {
                path: path@,
                method: method@,
                dry_run: *dry_run,
            },
            Commands::Validate { path, check_required, error } => CommandsView::Validate {
                path: path@,
                check_required: *check_required,
                error: *error,
            },
        }
    }
}

impl Commands {
    /// The file that the command works on.
    pub fn path(&self) -> (path: &str)
        ensures
            path@ == match self@ {
                CommandsView::Format { path, .. } => path,
                CommandsView::Sort { path, .. } => path,
                CommandsView::Validate { path, .. } => path,
            },
    {
        match self {
            Commands::Format { path, .. } => path.as_str(),
            Commands::Sort { path, .. } => path.as_str(),
            Commands::Validate { path, .. } => path.as_str(),
        }
    }

    /// Whether the command consults the example file.
    pub fn wants_example(&self) -> (wanted: bool)
        ensures
            wanted == match self@ {
                CommandsView::Validate { check_required, .. } => check_required,
                _ => false,
            },
    {
        match self {
            Commands::Validate { check_required, .. } => *check_required,
            _ => false,
        }
    }
}

impl View for Cli {
    type V = CommandsView;

    open spec fn view(&self) -> CommandsView {
        self.command@
    }
}

/// What running a command yields.
#[derive(Debug, Clone, PartialEq, Eq)]
pub struct Outcome {
    /// What to print to standard output, each entry followed by a line feed.
    pub output: Vec<String>,
    /// What to print to standard error, each entry followed by a line feed.
    pub diagnostics: Vec<String>,
    /// The new text of the file, where the file is to be replaced.
    pub replacement: Option<String>,
    /// Whether the process is to end with success.
    pub success: bool,
}

/// The mathematical value of an [`Outcome`].
pub ghost struct OutcomeView {
    pub output: Seq<Seq<char>>,
    pub diagnostics: Seq<Seq<char>>,
    pub replacement: Option<Seq<char>>,
    pub success: bool,
}

impl View for Outcome {
    type V = OutcomeView;

    open spec fn view(&self) -> OutcomeView {
        OutcomeView {
            output: self.output.deep_view(),
            diagnostics: self.diagnostics.deep_view(),
            replacement: self.replacement.deep_view(),
            success: self.success,
        }
    }
}

/// The texts of `changes`.
pub open spec fn change_texts(changes: Seq<ChangeView>) -> Seq<Seq<char>> {
    Seq::new(changes.len(), |i: int| changes[i].text)
}

/// The summary of a formatting run under the policy `dupes`.
pub open spec fn summary_lines(outcome: FormatOutcomeView, dupes: Seq<char>) -> Seq<Seq<char>> {
    seq![
        "━━━━━━━━━━━━━━━━━━━━━━━━━━━━━━━━━━━━━━━━━━━━\n"@,
        "Summary:"@,
        " • "@ + decimal(outcome.reformatted) + " lines reformatted"@,
        " • "@ + decimal(outcome.duplicates) + " duplicate keys removed ("@ + dupes + ")"@,
        " • "@ + decimal(outcome.invalid) + " invalid lines removed\n"@,
    ]
}

/// Whether `issue` is reported to standard error.
pub open spec fn is_diagnostic(issue: IssueView) -> bool {
    issue is UndefinedReference
}

/// The messages of those of `issues` that go to standard error, or of those
/// that go to standard output.
pub open spec fn issue_lines(issues: Seq<IssueView>, diagnostics: bool) -> Seq<Seq<char>>
    decreases issues.len(),
{
    if issues.len() == 0 {
        Seq::empty()
    } else if is_diagnostic(issues.last()) == diagnostics {
        issue_lines(issues.drop_last(), diagnostics).push(issue_message(issues.last()))
    } else {
        issue_lines(issues.drop_last(), diagnostics)
    }
}

/// What running `command` on `content` yields. `example` is the text of the
/// example file, which `validate` consults where required keys are checked.
///
/// `format` prints a heading, the change preview in a dry run, and a
/// summary; it replaces the file unless in a dry run. `sort` replaces the
/// file. `validate` prints its findings, or that there are none, and fails
/// where the verdict is negative.
pub open spec fn run_spec(command: CommandsView, content: Seq<char>, example: Option<Seq<char>>)
    -> OutcomeView {
    match command {
        CommandsView::Format { path, dupes, dry_run } => {
            let outcome = format_spec(parse_spec(content), dupes == "keep-last"@, dry_run);
            OutcomeView {
                output: seq!["\nFormatting file: "@ + path + "\n"@] + (if dry_run {
                    change_texts(outcome.changes)
                } else {
                    Seq::empty()
                }) + summary_lines(outcome, dupes),
                diagnostics: outcome.warnings,
                replacement: if dry_run {
                    None
                } else {
                    Some(outcome.text)
                },
                success: true,
            }
        },
        CommandsView::Sort { path, method, dry_run } => OutcomeView {
            output: Seq::empty(),
            diagnostics: Seq::empty(),
            replacement: Some(sort_spec(parse_spec(content), method == "alpha"@)),
            success: true,
        },
        CommandsView::Validate { path, check_required, error } => {
            let report = validate_spec(
                parse_spec(content),
                required_example(check_required, example),
                error,
            );
            OutcomeView {
                output: if report.issues.len() == 0 {
                    seq!["Validation passed: no issues found"@]
                } else {
                    issue_lines(report.issues, false)
                },
                diagnostics: issue_lines(report.issues, true),
                replacement: None,
                success: report.valid,
            }
        },
    }
}

/// The records of the example file, where required keys are checked and
/// the file was given.
pub open spec fn required_example(check_required: bool, example: Option<Seq<char>>) -> Option<
    Seq<LineView>,
> {
    match example {
        Some(e) => if check_required {
            Some(parse_spec(e))
        } else {
            None
        },
        None => None,
    }
}

/// Whether running `command` on `content` needs a pattern that the regular
/// expression engine accepts: some line that is parsed is an assignment.
pub open spec fn needs_pattern(
    command: CommandsView,
    content: Seq<char>,
    example: Option<Seq<char>>,
) -> bool {
    has_assignment(content) || match command {
        CommandsView::Validate { check_required, .. } => check_required && match example {
            Some(e) => has_assignment(e),
            None => false,
        },
        _ => false,
    }
}

/// The messages of those of `issues` that go to one of the two streams.
fn collect_lines(issues: &Vec<Issue>, diagnostics: bool) -> (lines: Vec<String>)
    ensures
        lines.deep_view() == issue_lines(issues.deep_view(), diagnostics),
{
    let ghost all = issues.deep_view();
    let mut lines: Vec<String> = Vec::new();
    let mut i: usize = 0;
    assert(lines.deep_view() =~= issue_lines(all.take(0), diagnostics));
    while i < issues.len()
        invariant
            i <= issues.len(),
            all == issues.deep_view(),
            lines.deep_view() == issue_lines(all.take(i as int), diagnostics),
        decreases issues.len() - i,
    {
        assert(all.take(i + 1).drop_last() =~= all.take(i as int));
        assert(all.take(i + 1).last() == issues[i as int]@);
        let to_error = match &issues[i] {
            Issue::UndefinedReference { .. } => true,
            _ => false,
        };
        if to_error == diagnostics {
            push_text(&mut lines, issues[i].message());
        }
        i += 1;
    }
    assert(all.take(issues.len() as int) =~= all);
    lines
}

/// A summary line: a bullet, `count`, and `tail`.
fn summary_line(count: usize, tail: &str) -> (line: String)
    ensures
        line@ == " • "@ + decimal(count as nat) + tail@,
{
    let mut line = String::new();
    line.append(" • ");
    push_decimal(&mut line, count);
    line.append(tail);
    assert(line@ =~= " • "@ + decimal(count as nat) + tail@);
    line
}

/// What the `format` command prints to standard output.
fn format_output(path: &str, dupes: &str, dry_run: bool, outcome: &FormatOutcome) -> (output: Vec<
    String,
>)
    ensures
        output.deep_view() == seq!["\nFormatting file: "@ + path@ + "\n"@] + (if dry_run {
            change_texts(outcome@.changes)
        } else {
            Seq::empty()
        }) + summary_lines(outcome@, dupes@),
{
    let mut output: Vec<String> = Vec::new();
    let mut heading = String::new();
    heading.append("\nFormatting file: ");
    heading.append(path);
    heading.append("\n");
    assert(heading@ =~= "\nFormatting file: "@ + path@ + "\n"@);
    push_text(&mut output, heading);
    let ghost first = output.deep_view();
    assert(first =~= seq!["\nFormatting file: "@ + path@ + "\n"@]);
    if dry_run {
        let ghost texts = change_texts(outcome@.changes);
        let mut i: usize = 0;
        while i < outcome.changes.len()
            invariant
                i <= outcome.changes.len(),
                texts == change_texts(outcome@.changes),
                output.deep_view() == first + texts.take(i as int),
            decreases outcome.changes.len() - i,
        {
            push_text(&mut output, outcome.changes[i].text.clone());
            assert(output.deep_view() =~= first + texts.take(i + 1));
            i += 1;
        }
        assert(texts.take(outcome.changes.len() as int) =~= texts);
    }
    let ghost second = output.deep_view();
    assert(second =~= first + (if dry_run {
        change_texts(outcome@.changes)
    } else {
        Seq::empty()
    }));
    push_text(&mut output, "━━━━━━━━━━━━━━━━━━━━━━━━━━━━━━━━━━━━━━━━━━━━\n".to_owned());
    push_text(&mut output, "Summary:".to_owned());
    push_text(&mut output, summary_line(outcome.reformatted, " lines reformatted"));
    let mut removed = summary_line(outcome.duplicates, " duplicate keys removed (");
    removed.append(dupes);
    removed.append(")");
    push_text(&mut output, removed);
    push_text(&mut output, summary_line(outcome.invalid, " invalid lines removed\n"));
    assert(output.deep_view() =~= second + summary_lines(outcome@, dupes@));
    output
}

/// Runs the command of `cli` on `content`, the text of the file that the
/// command names. `example` is the text of the example file, which
/// `validate` consults where required keys are checked. Fails where parsing
/// fails.
pub fn run(cli: &Cli, content: &str, example: Option<&str>) -> (r: Result<Outcome, ParseError>)
    ensures
        r is Err <==> !regex_compiles(reference_pattern()) && needs_pattern(
            cli@,
            content@,
            match example {
                Some(e) => Some(e@),
                None => None,
            },
        ),
        r matches Ok(outcome) ==> outcome@ == run_spec(
            cli@,
            content@,
            match example {
                Some(e) => Some(e@),
                None => None,
            },
        ),
{
    match &cli.command {
        Commands::Format { path, dupes, dry_run } => {
            let outcome = match format_env_file(content, dupes.as_str(), *dry_run) {
                Ok(outcome) => outcome,
                Err(e) => {
                    return Err(e);
                },
            };
            let output = format_output(path.as_str(), dupes.as_str(), *dry_run, &outcome);
            let replacement = if *dry_run {
                None
            } else {
                Some(outcome.text)
            };
            Ok(Outcome { output, diagnostics: outcome.warnings, replacement, success: true })
        },
        Commands::Sort { path, method, dry_run } => {
            let sorted = match sort(content, method.as_str()) {
                Ok(sorted) => sorted,
                Err(e) => {
                    return Err(e);
                },
            };
            let output: Vec<String> = Vec::new();
            let diagnostics: Vec<String> = Vec::new();
            assert(output.deep_view() =~= Seq::<Seq<char>>::empty());
            assert(diagnostics.deep_view() =~= Seq::<Seq<char>>::empty());
            Ok(Outcome { output, diagnostics, replacement: Some(sorted), success: true })
        },
        Commands::Validate { path, check_required, error } => {
            let required = if *check_required {
                example
            } else {
                None
            };
            let report = match validate(content, required, *error) {
                Ok(report) => report,
                Err(e) => {
                    return Err(e);
                },
            };
            let mut output = collect_lines(&report.issues, false);
            if report.issues.len() == 0 {
                push_text(&mut output, "Validation passed: no issues found".to_owned());
                assert(output.deep_view() =~= seq!["Validation passed: no issues found"@]);
            }
            let diagnostics = collect_lines(&report.issues, true);
            Ok(Outcome { output, diagnostics, replacement: None, success: report.valid })
        },
    }
}

} // verus!
