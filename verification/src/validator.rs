//! The validator: structural findings over parsed lines.

use crate::parser::{
    defined_keys, get_keys, has_assignment, parse_env_file, parse_spec, Line, LineView,
};
use crate::references::{reference_pattern, regex_compiles, ParseError};
use crate::text::{
    contains_space, decimal, has_space, holds_text, push_decimal, seen_before, trim, trimmed,
};
use vstd::prelude::*;
use vstd::string::*;

verus! {

/// One finding of the validator.
#[derive(Debug, Clone, PartialEq, Eq)]
pub enum Issue {
    /// A key of the example file that the file does not define.
    MissingRequired { key: String },
    /// A line that is no assignment, comment or blank line.
    InvalidLine { content: String, line: usize },
    /// A key that several lines assign; `lines` lists them all.
    DuplicateKey { key: String, lines: Vec<usize> },
    /// A key that holds whitespace; `key` is its trimmed form.
    KeyHasSpaces { key: String, line: usize },
    /// An unquoted value that holds whitespace; `key` is the trimmed key.
    ValueHasSpaces { key: String, line: usize },
    /// A key that is empty after trimming.
    EmptyKey { line: usize },
    /// A value that is empty after trimming.
    EmptyValue { key: String, line: usize },
    /// A `${name}` in the value of `key` that no line defines.
    UndefinedReference { key: String, name: String, line: usize },
}

/// The mathematical value of an [`Issue`].
pub ghost enum IssueView {
    MissingRequired { key: Seq<char> },
    InvalidLine { content: Seq<char>, line: nat },
    DuplicateKey { key: Seq<char>, lines: Seq<nat> },
    KeyHasSpaces { key: Seq<char>, line: nat },
    ValueHasSpaces { key: Seq<char>, line: nat },
    EmptyKey { line: nat },
    EmptyValue { key: Seq<char>, line: nat },
    UndefinedReference { key: Seq<char>, name: Seq<char>, line: nat },
}

/// `numbers` as mathematical numbers.
pub open spec fn naturals(numbers: Seq<usize>) -> Seq<nat> {
    Seq::new(numbers.len(), |i: int| numbers[i] as nat)
}

impl View for Issue {
    type V = IssueView;

    open spec fn view(&self) -> IssueView {
        match self {
            Issue::MissingRequired { key } => IssueView::MissingRequired { key: key@ },
            Issue::InvalidLine { content, line } => IssueView::InvalidLine {
                content: content@,
                line: *line as nat,
            },
            Issue::DuplicateKey { key, lines } => IssueView::DuplicateKey {
                key: key@,
                lines: naturals(lines@),
            },
            Issue::KeyHasSpaces { key, line } => IssueView::KeyHasSpaces {
                key: key@,
                line: *line as nat,
            },
            Issue::ValueHasSpaces { key, line } => IssueView::ValueHasSpaces {
                key: key@,
                line: *line as nat,
            },
            Issue::EmptyKey { line } => IssueView::EmptyKey { line: *line as nat },
            Issue::EmptyValue { key, line } => IssueView::EmptyValue {
                key: key@,
                line: *line as nat,
            },
            Issue::UndefinedReference { key, name, line } => IssueView::UndefinedReference {
                key: key@,
                name: name@,
                line: *line as nat,
            },
        }
    }
}

impl DeepView for Issue {
    type V = IssueView;

    open spec fn deep_view(&self) -> IssueView {
        self@
    }
}

/// Whether `issue` makes a file fail in strict mode.
pub open spec fn is_hard_error(issue: IssueView) -> bool {
    issue is DuplicateKey || issue is EmptyKey || issue is EmptyValue
}

/// Whether some issue of `issues` is a hard error.
pub open spec fn has_hard_error(issues: Seq<IssueView>) -> bool {
    exists|i: int| 0 <= i < issues.len() && is_hard_error(#[trigger] issues[i])
}

/// One issue for each key of `required`, in order, that `present` lacks.
pub open spec fn missing_keys(required: Seq<Seq<char>>, present: Seq<Seq<char>>) -> Seq<
    IssueView,
>
    decreases required.len(),
{
    if required.len() == 0 {
        Seq::empty()
    } else if present.contains(required.last()) {
        missing_keys(required.drop_last(), present)
    } else {
        missing_keys(required.drop_last(), present).push(
            IssueView::MissingRequired { key: required.last() },
        )
    }
}

/// One issue for each invalid line of `lines`, in order.
pub open spec fn invalid_issues(lines: Seq<LineView>) -> Seq<IssueView>
    decreases lines.len(),
{
    if lines.len() == 0 {
        Seq::empty()
    } else {
        match lines.last() {
            LineView::Invalid { content, line } => invalid_issues(lines.drop_last()).push(
                IssueView::InvalidLine { content, line },
            ),
            _ => invalid_issues(lines.drop_last()),
        }
    }
}

/// Whether `record` assigns `key`.
pub open spec fn assigns(record: LineView, key: Seq<char>) -> bool {
    record is KeyValue && record->key == key
}

/// The source lines of the assignments to `key` among `lines`, in order.
pub open spec fn assignment_lines(lines: Seq<LineView>, key: Seq<char>) -> Seq<nat>
    decreases lines.len(),
{
    if lines.len() == 0 {
        Seq::empty()
    } else if assigns(lines.last(), key) {
        assignment_lines(lines.drop_last(), key).push(lines.last()->KeyValue_line)
    } else {
        assignment_lines(lines.drop_last(), key)
    }
}

/// The issues of one assignment, taken by itself.
pub open spec fn assignment_issues(record: LineView) -> Seq<IssueView> {
    match record {
        LineView::KeyValue { key, value, line, inline_comment, .. } => {
            (if contains_space(key) {
                seq![IssueView::KeyHasSpaces { key: trim(key), line }]
            } else {
                Seq::empty()
            }) + (if contains_space(value) && inline_comment is None {
                seq![IssueView::ValueHasSpaces { key: trim(key), line }]
            } else {
                Seq::empty()
            }) + (if trim(key).len() == 0 {
                seq![IssueView::EmptyKey { line }]
            } else {
                Seq::empty()
            }) + (if trim(value).len() == 0 {
                seq![IssueView::EmptyValue { key, line }]
            } else {
                Seq::empty()
            })
        },
        _ => Seq::empty(),
    }
}

/// The issues of each assignment to `key` among `lines`, in order.
pub open spec fn repeated_assignment_issues(lines: Seq<LineView>, key: Seq<char>) -> Seq<
    IssueView,
>
    decreases lines.len(),
{
    if lines.len() == 0 {
        Seq::empty()
    } else if assigns(lines.last(), key) {
        repeated_assignment_issues(lines.drop_last(), key) + assignment_issues(lines.last())
    } else {
        repeated_assignment_issues(lines.drop_last(), key)
    }
}

/// The issues of `key`: the duplicate, where several lines assign it, then
/// those of each assignment.
pub open spec fn group_issues(lines: Seq<LineView>, key: Seq<char>) -> Seq<IssueView> {
    (if assignment_lines(lines, key).len() > 1 {
        seq![IssueView::DuplicateKey { key, lines: assignment_lines(lines, key) }]
    } else {
        Seq::empty()
    }) + repeated_assignment_issues(lines, key)
}

/// The issues of the first `count` of `keys`, each key taken where it first
/// occurs.
pub open spec fn key_issues(lines: Seq<LineView>, keys: Seq<Seq<char>>, count: int) -> Seq<
    IssueView,
>
    decreases count,
{
    if count <= 0 {
        Seq::empty()
    } else if keys.take(count - 1).contains(keys[count - 1]) {
        key_issues(lines, keys, count - 1)
    } else {
        key_issues(lines, keys, count - 1) + group_issues(lines, keys[count - 1])
    }
}

/// One issue for each of `names`, in order, that `defined` lacks.
pub open spec fn undefined_names(
    key: Seq<char>,
    names: Seq<Seq<char>>,
    line: nat,
    defined: Seq<Seq<char>>,
) -> Seq<IssueView>
    decreases names.len(),
{
    if names.len() == 0 {
        Seq::empty()
    } else if defined.contains(names.last()) {
        undefined_names(key, names.drop_last(), line, defined)
    } else {
        undefined_names(key, names.drop_last(), line, defined).push(
            IssueView::UndefinedReference { key, name: names.last(), line },
        )
    }
}

/// One issue for each reference among `lines` to a name that `defined` lacks.
pub open spec fn reference_issues(lines: Seq<LineView>, defined: Seq<Seq<char>>) -> Seq<
    IssueView,
>
    decreases lines.len(),
{
    if lines.len() == 0 {
        Seq::empty()
    } else {
        match lines.last() {
            LineView::KeyValue { key, line, references, .. } => reference_issues(
                lines.drop_last(),
                defined,
            ) + undefined_names(key, references, line, defined),
            _ => reference_issues(lines.drop_last(), defined),
        }
    }
}

/// All issues of `lines`: the keys of `example` that are missing, the invalid
/// lines, the issues of each key, and the undefined references.
pub open spec fn all_issues(lines: Seq<LineView>, example: Option<Seq<LineView>>) -> Seq<
    IssueView,
> {
    let keys = defined_keys(lines);
    (match example {
        Some(e) => missing_keys(defined_keys(e), keys),
        None => Seq::empty(),
    }) + invalid_issues(lines) + key_issues(lines, keys, keys.len() as int) + reference_issues(
        lines,
        keys,
    )
}

/// The result of validation.
#[derive(Debug, Clone, PartialEq, Eq)]
pub struct ValidationReport {
    /// Whether the file counts as valid.
    pub valid: bool,
    /// Everything that was found, hard errors and warnings alike.
    pub issues: Vec<Issue>,
}

/// The mathematical value of a [`ValidationReport`].
pub ghost struct ValidationReportView {
    pub valid: bool,
    pub issues: Seq<IssueView>,
}

impl View for ValidationReport {
    type V = ValidationReportView;

    open spec fn view(&self) -> ValidationReportView {
        ValidationReportView { valid: self.valid, issues: self.issues.deep_view() }
    }
}

/// What validation of `lines` yields: all issues, and a verdict that is
/// negative only in strict mode and only where a key is assigned twice or a
/// key or value is empty.
pub open spec fn validate_spec(
    lines: Seq<LineView>,
    example: Option<Seq<LineView>>,
    error_mode: bool,
) -> ValidationReportView {
    let issues = all_issues(lines, example);
    ValidationReportView { valid: !(error_mode && has_hard_error(issues)), issues }
}

/// `numbers` in decimal, separated by a comma and a space.
pub open spec fn join_numbers(numbers: Seq<nat>) -> Seq<char>
    decreases numbers.len(),
{
    if numbers.len() == 0 {
        Seq::empty()
    } else if numbers.len() == 1 {
        decimal(numbers[0])
    } else {
        join_numbers(numbers.drop_last()) + ", "@ + decimal(numbers.last())
    }
}

/// The message that reports `issue`.
pub open spec fn issue_message(issue: IssueView) -> Seq<char> {
    match issue {
        IssueView::MissingRequired { key } => "Missing required key "@ + key,
        IssueView::InvalidLine { content, line } => "Invalid line: `"@ + content + "` (line "@
            + decimal(line) + ")"@,
        IssueView::DuplicateKey { key, lines } => "Duplicate key: `"@ + key + "` (lines "@
            + join_numbers(lines) + ")"@,
        IssueView::KeyHasSpaces { key, line } => "Invalid key `"@ + key
            + "` contains spaces (line "@ + decimal(line) + ")"@,
        IssueView::ValueHasSpaces { key, line } => "Warning: value for key `"@ + key
            + "` contains spaces - consider quoting it (line "@ + decimal(line) + ")"@,
        IssueView::EmptyKey { line } => "Empty key found at line "@ + decimal(line),
        IssueView::EmptyValue { key, line } => "Empty value for key `"@ + key + "` (line "@
            + decimal(line) + ")"@,
        IssueView::UndefinedReference { key, name, line } => "Variable `"@ + key
            + "` references undefined variable `${"@ + name + "}` (line "@ + decimal(line)
            + ")"@,
    }
}

/// Appends `numbers` to `out`, in decimal, separated by a comma and a space.
fn push_numbers(out: &mut String, numbers: &Vec<usize>)
    ensures
        final(out)@ == old(out)@ + join_numbers(naturals(numbers@)),
{
    let ghost all = naturals(numbers@);
    let mut i: usize = 0;
    assert(old(out)@ + join_numbers(all.take(0)) =~= old(out)@);
    while i < numbers.len()
        invariant
            i <= numbers.len(),
            all == naturals(numbers@),
            out@ == old(out)@ + join_numbers(all.take(i as int)),
        decreases numbers.len() - i,
    {
        assert(all.take(i + 1).drop_last() =~= all.take(i as int));
        assert(all.take(i + 1).last() == numbers[i as int] as nat);
        if i > 0 {
            out.append(", ");
        }
        push_decimal(out, numbers[i]);
        assert(out@ =~= old(out)@ + join_numbers(all.take(i + 1))) by {
            if i == 0 {
                assert(all.take(1)[0] == numbers[0] as nat);
                assert(join_numbers(all.take(0)) =~= Seq::<char>::empty());
            }
        }
        i += 1;
    }
    assert(all.take(numbers.len() as int) =~= all);
}

impl Issue {
    /// The message that reports this issue.
    pub fn message(&self) -> (text: String)
        ensures
            text@ == issue_message(self@),
    {
        let mut text = String::new();
        match self {
            Issue::MissingRequired { key } => {
                text.append("Missing required key ");
                text.append(key.as_str());
                assert(text@ =~= issue_message(self@));
            },
            Issue::InvalidLine { content, line } => {
                text.append("Invalid line: `");
                text.append(content.as_str());
                text.append("` (line ");
                push_decimal(&mut text, *line);
                text.append(")");
                assert(text@ =~= issue_message(self@));
            },
            Issue::DuplicateKey { key, lines } => {
                text.append("Duplicate key: `");
                text.append(key.as_str());
                text.append("` (lines ");
                push_numbers(&mut text, lines);
                text.append(")");
                assert(text@ =~= issue_message(self@));
            },
            Issue::KeyHasSpaces { key, line } => {
                text.append("Invalid key `");
                text.append(key.as_str());
                text.append("` contains spaces (line ");
                push_decimal(&mut text, *line);
                text.append(")");
                assert(text@ =~= issue_message(self@));
            },
            Issue::ValueHasSpaces { key, line } => {
                text.append("Warning: value for key `");
                text.append(key.as_str());
                text.append("` contains spaces - consider quoting it (line ");
                push_decimal(&mut text, *line);
                text.append(")");
                assert(text@ =~= issue_message(self@));
            },
            Issue::EmptyKey { line } => {
                text.append("Empty key found at line ");
                push_decimal(&mut text, *line);
                assert(text@ =~= issue_message(self@));
            },
            Issue::EmptyValue { key, line } => {
                text.append("Empty value for key `");
                text.append(key.as_str());
                text.append("` (line ");
                push_decimal(&mut text, *line);
                text.append(")");
                assert(text@ =~= issue_message(self@));
            },
            Issue::UndefinedReference { key, name, line } => {
                text.append("Variable `");
                text.append(key.as_str());
                text.append("` references undefined variable `${");
                text.append(name.as_str());
                text.append("}` (line ");
                push_decimal(&mut text, *line);
                text.append(")");
                assert(text@ =~= issue_message(self@));
            },
        }
        text
    }
}

/// Appends `issue` to `list`.
fn push_issue(list: &mut Vec<Issue>, issue: Issue)
    ensures
        final(list).deep_view() == old(list).deep_view().push(issue@),
{
    list.push(issue);
    assert(list.deep_view() =~= old(list).deep_view().push(issue@));
}

/// Appends to `issues` one issue for each key of `required` that `present`
/// lacks.
fn collect_missing(issues: &mut Vec<Issue>, required: &Vec<String>, present: &Vec<String>)
    ensures
        final(issues).deep_view() == old(issues).deep_view() + missing_keys(
            required.deep_view(),
            present.deep_view(),
        ),
{
    let ghost all = required.deep_view();
    let ghost base = issues.deep_view();
    let mut i: usize = 0;
    assert(base + missing_keys(all.take(0), present.deep_view()) =~= base);
    while i < required.len()
        invariant
            i <= required.len(),
            all == required.deep_view(),
            issues.deep_view() == base + missing_keys(all.take(i as int), present.deep_view()),
        decreases required.len() - i,
    {
        assert(all.take(i + 1).drop_last() =~= all.take(i as int));
        assert(all.take(i + 1).last() == required[i as int]@);
        if !holds_text(present, required[i].as_str()) {
            push_issue(issues, Issue::MissingRequired { key: required[i].clone() });
            assert(issues.deep_view() =~= base + missing_keys(
                all.take(i + 1),
                present.deep_view(),
            ));
        }
        i += 1;
    }
    assert(all.take(required.len() as int) =~= all);
}

/// The keys that `example` defines and `parsed_file` does not, one issue each.
pub fn check_required_keys(parsed_file: &Vec<Line>, example: &[Line]) -> (missing: Vec<Issue>)
    ensures
        missing.deep_view() == missing_keys(
            defined_keys(example.deep_view()),
            defined_keys(parsed_file.deep_view()),
        ),
{
    let required = get_keys(example);
    let own = parsed_file.as_slice();
    assert(own.deep_view() =~= parsed_file.deep_view());
    let keys = get_keys(own);
    let mut missing: Vec<Issue> = Vec::new();
    collect_missing(&mut missing, &required, &keys);
    assert(missing.deep_view() =~= missing_keys(required.deep_view(), keys.deep_view()));
    missing
}

/// Appends to `issues` one issue for each invalid line of `lines`.
fn collect_invalid(issues: &mut Vec<Issue>, lines: &[Line])
    ensures
        final(issues).deep_view() == old(issues).deep_view() + invalid_issues(lines.deep_view()),
{
    let ghost all = lines.deep_view();
    let ghost base = issues.deep_view();
    let mut i: usize = 0;
    assert(base + invalid_issues(all.take(0)) =~= base);
    while i < lines.len()
        invariant
            i <= lines.len(),
            all == lines.deep_view(),
            issues.deep_view() == base + invalid_issues(all.take(i as int)),
        decreases lines.len() - i,
    {
        assert(all.take(i + 1).drop_last() =~= all.take(i as int));
        assert(all.take(i + 1).last() == lines[i as int]@);
        if let Line::Invalid { content, line } = &lines[i] {
            push_issue(issues, Issue::InvalidLine { content: content.clone(), line: *line });
            assert(issues.deep_view() =~= base + invalid_issues(all.take(i + 1)));
        }
        i += 1;
    }
    assert(all.take(lines.len() as int) =~= all);
}

/// Whether `record` assigns `key`.
fn is_assignment_to(record: &Line, key: &String) -> (r: bool)
    ensures
        r == assigns(record@, key@),
{
    match record {
        Line::KeyValue { key: k, .. } => *k == *key,
        _ => false,
    }
}

/// The source lines of the assignments to `key` among `lines`.
fn lines_assigning(lines: &[Line], key: &String) -> (numbers: Vec<usize>)
    ensures
        naturals(numbers@) == assignment_lines(lines.deep_view(), key@),
{
    let ghost all = lines.deep_view();
    let mut numbers: Vec<usize> = Vec::new();
    let mut i: usize = 0;
    assert(naturals(numbers@) =~= assignment_lines(all.take(0), key@));
    while i < lines.len()
        invariant
            i <= lines.len(),
            all == lines.deep_view(),
            naturals(numbers@) == assignment_lines(all.take(i as int), key@),
        decreases lines.len() - i,
    {
        assert(all.take(i + 1).drop_last() =~= all.take(i as int));
        assert(all.take(i + 1).last() == lines[i as int]@);
        if is_assignment_to(&lines[i], key) {
            if let Line::KeyValue { line, .. } = &lines[i] {
                let ghost before = naturals(numbers@);
                numbers.push(*line);
                assert(naturals(numbers@) =~= before.push(*line as nat));
            }
        }
        i += 1;
    }
    assert(all.take(lines.len() as int) =~= all);
    numbers
}

/// Appends to `issues` the issues of `record`, taken by itself.
fn collect_assignment(issues: &mut Vec<Issue>, record: &Line)
    ensures
        final(issues).deep_view() == old(issues).deep_view() + assignment_issues(record@),
{
    let ghost base = issues.deep_view();
    if let Line::KeyValue { key, value, line, inline_comment, .. } = record {
        let short = trimmed(key.as_str());
        if has_space(key.as_str()) {
            push_issue(issues, Issue::KeyHasSpaces { key: short.to_owned(), line: *line });
        }
        if has_space(value.as_str()) && inline_comment.is_none() {
            push_issue(issues, Issue::ValueHasSpaces { key: short.to_owned(), line: *line });
        }
        if short.is_empty() {
            push_issue(issues, Issue::EmptyKey { line: *line });
        }
        if trimmed(value.as_str()).is_empty() {
            push_issue(issues, Issue::EmptyValue { key: key.clone(), line: *line });
        }
        assert(issues.deep_view() =~= base + assignment_issues(record@));
    } else {
        assert(issues.deep_view() =~= base + assignment_issues(record@));
    }
}

/// Appends to `issues` the issues of `key`.
fn collect_group(issues: &mut Vec<Issue>, lines: &[Line], key: &String)
    ensures
        final(issues).deep_view() == old(issues).deep_view() + group_issues(
            lines.deep_view(),
            key@,
        ),
{
    let ghost all = lines.deep_view();
    let ghost start = issues.deep_view();
    let numbers = lines_assigning(lines, key);
    if numbers.len() > 1 {
        push_issue(issues, Issue::DuplicateKey { key: key.clone(), lines: numbers });
    }
    let ghost base = issues.deep_view();
    let mut i: usize = 0;
    assert(base + repeated_assignment_issues(all.take(0), key@) =~= base);
    while i < lines.len()
        invariant
            i <= lines.len(),
            all == lines.deep_view(),
            issues.deep_view() == base + repeated_assignment_issues(all.take(i as int), key@),
        decreases lines.len() - i,
    {
        assert(all.take(i + 1).drop_last() =~= all.take(i as int));
        assert(all.take(i + 1).last() == lines[i as int]@);
        if is_assignment_to(&lines[i], key) {
            collect_assignment(issues, &lines[i]);
            assert(issues.deep_view() =~= base + repeated_assignment_issues(
                all.take(i + 1),
                key@,
            ));
        }
        i += 1;
    }
    assert(all.take(lines.len() as int) =~= all);
    assert(issues.deep_view() =~= start + group_issues(all, key@));
}

/// Appends to `issues` the issues of each key, taken where it first occurs.
fn collect_keys(issues: &mut Vec<Issue>, lines: &[Line], keys: &Vec<String>)
    ensures
        final(issues).deep_view() == old(issues).deep_view() + key_issues(
            lines.deep_view(),
            keys.deep_view(),
            keys.len() as int,
        ),
{
    let ghost base = issues.deep_view();
    let mut i: usize = 0;
    assert(base + key_issues(lines.deep_view(), keys.deep_view(), 0) =~= base);
    while i < keys.len()
        invariant
            i <= keys.len(),
            issues.deep_view() == base + key_issues(
                lines.deep_view(),
                keys.deep_view(),
                i as int,
            ),
        decreases keys.len() - i,
    {
        if !seen_before(keys, i) {
            collect_group(issues, lines, &keys[i]);
            assert(issues.deep_view() =~= base + key_issues(
                lines.deep_view(),
                keys.deep_view(),
                i + 1,
            ));
        }
        i += 1;
    }
}

/// Appends to `issues` one issue for each of `names` that `defined` lacks.
fn collect_undefined(
    issues: &mut Vec<Issue>,
    key: &String,
    names: &Vec<String>,
    line: usize,
    defined: &Vec<String>,
)
    ensures
        final(issues).deep_view() == old(issues).deep_view() + undefined_names(
            key@,
            names.deep_view(),
            line as nat,
            defined.deep_view(),
        ),
{
    let ghost all = names.deep_view();
    let ghost base = issues.deep_view();
    let mut i: usize = 0;
    assert(base + undefined_names(key@, all.take(0), line as nat, defined.deep_view()) =~= base);
    while i < names.len()
        invariant
            i <= names.len(),
            all == names.deep_view(),
            issues.deep_view() == base + undefined_names(
                key@,
                all.take(i as int),
                line as nat,
                defined.deep_view(),
            ),
        decreases names.len() - i,
    {
        assert(all.take(i + 1).drop_last() =~= all.take(i as int));
        assert(all.take(i + 1).last() == names[i as int]@);
        if !holds_text(defined, names[i].as_str()) {
            push_issue(
                issues,
                Issue::UndefinedReference { key: key.clone(), name: names[i].clone(), line },
            );
            assert(issues.deep_view() =~= base + undefined_names(
                key@,
                all.take(i + 1),
                line as nat,
                defined.deep_view(),
            ));
        }
        i += 1;
    }
    assert(all.take(names.len() as int) =~= all);
}

/// Appends to `issues` one issue for each reference to a name that `defined`
/// lacks.
fn collect_references(issues: &mut Vec<Issue>, lines: &[Line], defined: &Vec<String>)
    ensures
        final(issues).deep_view() == old(issues).deep_view() + reference_issues(
            lines.deep_view(),
            defined.deep_view(),
        ),
{
    let ghost all = lines.deep_view();
    let ghost base = issues.deep_view();
    let mut i: usize = 0;
    assert(base + reference_issues(all.take(0), defined.deep_view()) =~= base);
    while i < lines.len()
        invariant
            i <= lines.len(),
            all == lines.deep_view(),
            issues.deep_view() == base + reference_issues(
                all.take(i as int),
                defined.deep_view(),
            ),
        decreases lines.len() - i,
    {
        assert(all.take(i + 1).drop_last() =~= all.take(i as int));
        assert(all.take(i + 1).last() == lines[i as int]@);
        if let Line::KeyValue { key, line, references, .. } = &lines[i] {
            collect_undefined(issues, key, references, *line, defined);
            assert(issues.deep_view() =~= base + reference_issues(
                all.take(i + 1),
                defined.deep_view(),
            ));
        }
        i += 1;
    }
    assert(all.take(lines.len() as int) =~= all);
}

/// Whether some issue of `issues` is a hard error.
fn any_hard_error(issues: &Vec<Issue>) -> (r: bool)
    ensures
        r == has_hard_error(issues.deep_view()),
{
    let mut i: usize = 0;
    while i < issues.len()
        invariant
            i <= issues.len(),
            forall|j: int| 0 <= j < i ==> !is_hard_error(#[trigger] issues.deep_view()[j]),
        decreases issues.len() - i,
    {
        let hard = match &issues[i] {
            Issue::DuplicateKey { .. } => true,
            Issue::EmptyKey { .. } => true,
            Issue::EmptyValue { .. } => true,
            _ => false,
        };
        if hard {
            assert(is_hard_error(issues.deep_view()[i as int]));
            return true;
        }
        i += 1;
    }
    false
}

/// Validates `lines`. With `example`, the keys that it defines are required.
/// In `error_mode` the verdict is negative where a hard error was found.
pub fn validate_lines(lines: &[Line], example: Option<&[Line]>, error_mode: bool) -> (report:
    ValidationReport)
    ensures
        report@ == validate_spec(
            lines.deep_view(),
            match example {
                Some(e) => Some(e.deep_view()),
                None => None,
            },
            error_mode,
        ),
{
    let keys = get_keys(lines);
    let mut issues: Vec<Issue> = Vec::new();
    assert(issues.deep_view() =~= Seq::<IssueView>::empty());
    if let Some(e) = example {
        let required = get_keys(e);
        collect_missing(&mut issues, &required, &keys);
    }
    collect_invalid(&mut issues, lines);
    collect_keys(&mut issues, lines, &keys);
    collect_references(&mut issues, lines, &keys);
    assert(issues.deep_view() =~= all_issues(
        lines.deep_view(),
        match example {
            Some(e) => Some(e.deep_view()),
            None => None,
        },
    ));
    let valid = !(error_mode && any_hard_error(&issues));
    ValidationReport { valid, issues }
}

/// Parses `content`, the text of a `.env` file, and validates its lines as
/// [`validate_lines`] does. With `example`, the text of an example file, the
/// keys that it defines are required. Fails where parsing of either text
/// fails.
pub fn validate(content: &str, example: Option<&str>, error_mode: bool) -> (r: Result<
    ValidationReport,
    ParseError,
>)
    ensures
        r is Err <==> !regex_compiles(reference_pattern()) && (has_assignment(content@) || (
        example matches Some(e) && has_assignment(e@))),
        r matches Ok(report) ==> report@ == validate_spec(
            parse_spec(content@),
            match example {
                Some(e) => Some(parse_spec(e@)),
                None => None,
            },
            error_mode,
        ),
{
    let lines = match parse_env_file(content) {
        Ok(lines) => lines,
        Err(e) => {
            return Err(e);
        },
    };
    let records = lines.as_slice();
    assert(records.deep_view() =~= lines.deep_view());
    match example {
        Some(text) => {
            let required = match parse_env_file(text) {
                Ok(required) => required,
                Err(e) => {
                    return Err(e);
                },
            };
            let wanted = required.as_slice();
            assert(wanted.deep_view() =~= required.deep_view());
            Ok(validate_lines(records, Some(wanted), error_mode))
        },
        None => Ok(validate_lines(records, None, error_mode)),
    }
}

} // verus!
