//! The formatter: duplicate resolution, whitespace normalisation and `export`
//! stripping over parsed lines, with an optional change preview.

use crate::order::{arrange, positions, sort_keys, sorted_positions, stable_order};
use crate::parser::{has_assignment, parse_env_file, parse_spec, Line, LineView};
use crate::references::{reference_pattern, regex_compiles, ParseError};
use crate::text::{
    concat, contains_space, decimal, decimal_width, has_space, holds_text, pad_left, push_decimal,
    push_spaces, push_text, spaces, starts_with, text_equal, trim, trimmed, without_prefix,
};
use vstd::prelude::*;
use vstd::string::*;

verus! {

/// The text of one preview entry: up to three rows behind a gutter of `width`
/// columns. The first row shows the line number and the old text, the second
/// the new text, the third a note in parentheses.
pub open spec fn dry_run_text(
    width: nat,
    line: nat,
    old_text: Option<Seq<char>>,
    new_text: Option<Seq<char>>,
    note: Seq<char>,
) -> Seq<char> {
    (match old_text {
        Some(t) => pad_left(decimal(line), width) + " | - "@ + t + "\n"@,
        None => Seq::empty(),
    }) + (match new_text {
        Some(t) => spaces(width) + " | + "@ + t + "\n"@,
        None => Seq::empty(),
    }) + (if note.len() > 0 {
        spaces(width) + " | ("@ + note + ")\n"@
    } else {
        Seq::empty()
    })
}

/// Renders one preview entry.
pub fn dry_run_action(
    width: usize,
    line: usize,
    old: Option<&str>,
    new: Option<&str>,
    note: &str,
) -> (msg: String)
    ensures
        msg@ == dry_run_text(
            width as nat,
            line as nat,
            match old {
                Some(t) => Some(t@),
                None => None,
            },
            match new {
                Some(t) => Some(t@),
                None => None,
            },
            note@,
        ),
{
    let mut msg = String::new();
    if let Some(t) = old {
        let digits = decimal_width(line);
        if digits < width {
            push_spaces(&mut msg, width - digits);
        }
        push_decimal(&mut msg, line);
        msg.append(" | - ");
        msg.append(t);
        msg.append("\n");
    }
    let ghost first = msg@;
    if let Some(t) = new {
        push_spaces(&mut msg, width);
        msg.append(" | + ");
        msg.append(t);
        msg.append("\n");
        assert(msg@ =~= first + (spaces(width as nat) + " | + "@ + t@ + "\n"@));
    }
    let ghost second = msg@;
    if !note.is_empty() {
        push_spaces(&mut msg, width);
        msg.append(" | (");
        msg.append(note);
        msg.append(")\n");
        assert(msg@ =~= second + (spaces(width as nat) + " | ("@ + note@ + ")\n"@));
    }
    msg
}

/// One entry of the change preview.
#[derive(Debug, Clone, PartialEq, Eq)]
pub struct Change {
    /// The source line that the entry is about.
    pub line: usize,
    /// The rendered entry.
    pub text: String,
}

/// The mathematical value of a [`Change`].
pub ghost struct ChangeView {
    pub line: nat,
    pub text: Seq<char>,
}

impl View for Change {
    type V = ChangeView;

    open spec fn view(&self) -> ChangeView {
        ChangeView { line: self.line as nat, text: self.text@ }
    }
}

impl DeepView for Change {
    type V = ChangeView;

    open spec fn deep_view(&self) -> ChangeView {
        self@
    }
}

/// What a formatting run has produced so far.
pub ghost struct FormatState {
    /// The output lines, each with its line break.
    pub emitted: Seq<Seq<char>>,
    /// The keys of the assignments emitted so far.
    pub seen: Seq<Seq<char>>,
    pub reformatted: nat,
    pub duplicates: nat,
    pub invalid: nat,
    /// The preview entries, filled in preview mode only.
    pub changes: Seq<ChangeView>,
    /// The warnings, filled outside preview mode only.
    pub warnings: Seq<Seq<char>>,
}

/// The state before the first record.
pub open spec fn format_start() -> FormatState {
    FormatState {
        emitted: Seq::empty(),
        seen: Seq::empty(),
        reformatted: 0,
        duplicates: 0,
        invalid: 0,
        changes: Seq::empty(),
        warnings: Seq::empty(),
    }
}

/// `key` without a leading `export `, where the record carries the mark.
pub open spec fn normalized_key(key: Seq<char>, has_export: bool) -> Seq<char> {
    if has_export && starts_with(key, "export "@) {
        key.skip("export "@.len() as int)
    } else {
        key
    }
}

/// Whether an assignment is emitted with key and value trimmed.
pub open spec fn needs_trimming(
    key: Seq<char>,
    value: Seq<char>,
    inline_comment: Option<Seq<char>>,
) -> bool {
    contains_space(key) || (contains_space(value) && inline_comment is None)
}

/// The key under which an emitted assignment is remembered.
pub open spec fn registered_key(
    key: Seq<char>,
    value: Seq<char>,
    inline_comment: Option<Seq<char>>,
) -> Seq<char> {
    if needs_trimming(key, value, inline_comment) {
        trim(key)
    } else {
        key
    }
}

/// The text of an assignment with the normalized key `key`, as it is emitted:
/// key and value trimmed where that is called for, else as they are, with
/// the inline comment behind a space.
pub open spec fn assignment_text(
    key: Seq<char>,
    value: Seq<char>,
    inline_comment: Option<Seq<char>>,
) -> Seq<char> {
    if needs_trimming(key, value, inline_comment) {
        trim(key) + "="@ + trim(value)
    } else {
        match inline_comment {
            Some(c) => key + "="@ + value + " "@ + c,
            None => key + "="@ + value,
        }
    }
}

/// The output line for an assignment with the normalized key `key`.
pub open spec fn assignment_line(
    key: Seq<char>,
    value: Seq<char>,
    inline_comment: Option<Seq<char>>,
) -> Seq<char> {
    assignment_text(key, value, inline_comment) + "\n"@
}

/// The warning for a dropped duplicate.
pub open spec fn duplicate_warning(key: Seq<char>, line: nat) -> Seq<char> {
    "Removed duplicate key: "@ + key + " (line "@ + decimal(line) + ")"@
}

/// The warning for a dropped invalid line.
pub open spec fn invalid_warning(content: Seq<char>, line: nat) -> Seq<char> {
    "Skipping invalid line: "@ + content + " (line "@ + decimal(line) + ")"@
}

/// The state after `record`, behind a gutter of `width` columns.
pub open spec fn format_step(
    st: FormatState,
    record: LineView,
    width: nat,
    dry_run: bool,
) -> FormatState {
    match record {
        LineView::Comment(text) => FormatState { emitted: st.emitted.push(text + "\n"@), ..st },
        LineView::Empty => FormatState { emitted: st.emitted.push("\n"@), ..st },
        LineView::Invalid { content, line } => {
            if dry_run {
                FormatState {
                    invalid: st.invalid + 1,
                    changes: st.changes.push(
                        ChangeView {
                            line,
                            text: dry_run_text(
                                width,
                                line,
                                Some("INVALID LINE"@),
                                Some("(line removed - invalid syntax)"@),
                                ""@,
                            ),
                        },
                    ),
                    ..st
                }
            } else {
                FormatState {
                    invalid: st.invalid + 1,
                    warnings: st.warnings.push(invalid_warning(content, line)),
                    ..st
                }
            }
        },
        LineView::KeyValue { key, value, line, inline_comment, references, has_export } => {
            let nk = normalized_key(key, has_export);
            let changes = if has_export && dry_run {
                st.changes.push(
                    ChangeView {
                        line,
                        text: dry_run_text(
                            width,
                            line,
                            Some("export "@ + key + "="@ + value),
                            Some(nk + "="@ + value),
                            "Removed export keyword"@,
                        ),
                    },
                )
            } else {
                st.changes
            };
            if st.seen.contains(nk) {
                if dry_run {
                    FormatState {
                        duplicates: st.duplicates + 1,
                        changes: changes.push(
                            ChangeView {
                                line,
                                text: dry_run_text(
                                    width,
                                    line,
                                    Some(nk + "="@ + value),
                                    Some("(line removed - duplicate key"@),
                                    ""@,
                                ),
                            },
                        ),
                        ..st
                    }
                } else {
                    FormatState {
                        duplicates: st.duplicates + 1,
                        warnings: st.warnings.push(duplicate_warning(nk, line)),
                        ..st
                    }
                }
            } else {
                FormatState {
                    emitted: st.emitted.push(assignment_line(nk, value, inline_comment)),
                    seen: st.seen.push(registered_key(nk, value, inline_comment)),
                    reformatted: st.reformatted + 1,
                    changes: if dry_run && needs_trimming(nk, value, inline_comment) {
                        changes.push(
                            ChangeView {
                                line,
                                text: dry_run_text(
                                    width,
                                    line,
                                    Some(nk + "="@ + value),
                                    Some(trim(nk) + "="@ + trim(value)),
                                    "removed extra spaces"@,
                                ),
                            },
                        )
                    } else {
                        changes
                    },
                    ..st
                }
            }
        },
    }
}

/// The state after all of `records`, taken in order.
pub open spec fn format_fold(records: Seq<LineView>, width: nat, dry_run: bool) -> FormatState
    decreases records.len(),
{
    if records.len() == 0 {
        format_start()
    } else {
        format_step(format_fold(records.drop_last(), width, dry_run), records.last(), width, dry_run)
    }
}

/// The result of formatting.
#[derive(Debug, Clone, PartialEq, Eq)]
pub struct FormatOutcome {
    /// The normalized text.
    pub text: String,
    /// How many assignments were emitted.
    pub reformatted: usize,
    /// How many assignments were dropped as duplicates.
    pub duplicates: usize,
    /// How many invalid lines were dropped.
    pub invalid: usize,
    /// The change preview, filled in preview mode only.
    pub changes: Vec<Change>,
    /// The warnings, filled outside preview mode only.
    pub warnings: Vec<String>,
}

/// The mathematical value of a [`FormatOutcome`].
pub ghost struct FormatOutcomeView {
    pub text: Seq<char>,
    pub reformatted: nat,
    pub duplicates: nat,
    pub invalid: nat,
    pub changes: Seq<ChangeView>,
    pub warnings: Seq<Seq<char>>,
}

impl View for FormatOutcome {
    type V = FormatOutcomeView;

    open spec fn view(&self) -> FormatOutcomeView {
        FormatOutcomeView {
            text: self.text@,
            reformatted: self.reformatted as nat,
            duplicates: self.duplicates as nat,
            invalid: self.invalid as nat,
            changes: self.changes.deep_view(),
            warnings: self.warnings.deep_view(),
        }
    }
}

/// The line numbers of `changes`.
pub open spec fn change_lines(changes: Seq<ChangeView>) -> Seq<nat> {
    Seq::new(changes.len(), |i: int| changes[i].line)
}

/// What formatting `lines` yields. Under `keep_last` the records are taken
/// last to first, so that of several assignments to one key the last stays;
/// the output lines are put back in source order and the preview is arranged
/// by line number.
pub open spec fn format_spec(lines: Seq<LineView>, keep_last: bool, dry_run: bool)
    -> FormatOutcomeView {
    let width = decimal(lines.len()).len();
    if keep_last {
        let st = format_fold(lines.reverse(), width, dry_run);
        FormatOutcomeView {
            text: concat(st.emitted.reverse()),
            reformatted: st.reformatted,
            duplicates: st.duplicates,
            invalid: st.invalid,
            changes: arrange(
                st.changes,
                stable_order(change_lines(st.changes), st.changes.len() as int),
            ),
            warnings: st.warnings,
        }
    } else {
        let st = format_fold(lines, width, dry_run);
        FormatOutcomeView {
            text: concat(st.emitted),
            reformatted: st.reformatted,
            duplicates: st.duplicates,
            invalid: st.invalid,
            changes: st.changes,
            warnings: st.warnings,
        }
    }
}

/// The running state of the formatter.
struct FormatRun {
    emitted: Vec<String>,
    seen: Vec<String>,
    reformatted: usize,
    duplicates: usize,
    invalid: usize,
    changes: Vec<Change>,
    warnings: Vec<String>,
}

impl View for FormatRun {
    type V = FormatState;

    closed spec fn view(&self) -> FormatState {
        FormatState {
            emitted: self.emitted.deep_view(),
            seen: self.seen.deep_view(),
            reformatted: self.reformatted as nat,
            duplicates: self.duplicates as nat,
            invalid: self.invalid as nat,
            changes: self.changes.deep_view(),
            warnings: self.warnings.deep_view(),
        }
    }
}

/// Appends a preview entry to `list`.
fn push_change(list: &mut Vec<Change>, line: usize, text: String)
    ensures
        final(list).deep_view() == old(list).deep_view().push(
            ChangeView { line: line as nat, text: text@ },
        ),
{
    list.push(Change { line, text });
    assert(list.deep_view() =~= old(list).deep_view().push(
        ChangeView { line: line as nat, text: text@ },
    ));
}

/// `key`, `=` and `value` in one string.
fn assignment(key: &str, value: &str) -> (r: String)
    ensures
        r@ == key@ + "="@ + value@,
{
    let mut r = String::new();
    r.append(key);
    r.append("=");
    r.append(value);
    assert(r@ =~= key@ + "="@ + value@);
    r
}

/// `key` without a leading `export `, where the record carries the mark.
fn strip_export<'a>(key: &'a str, has_export: bool) -> (r: &'a str)
    ensures
        r@ == normalized_key(key@, has_export),
{
    if has_export {
        match without_prefix(key, "export ") {
            Some(rest) => rest,
            None => key,
        }
    } else {
        key
    }
}

/// Renders the output line for an assignment.
fn render_assignment(key: &str, value: &str, inline_comment: &Option<String>) -> (r: String)
    ensures
        r@ == assignment_line(key@, value@, inline_comment.deep_view()),
{
    if has_space(key) || (has_space(value) && inline_comment.is_none()) {
        let mut r = assignment(trimmed(key), trimmed(value));
        r.append("\n");
        r
    } else {
        let mut r = assignment(key, value);
        match inline_comment {
            Some(c) => {
                r.append(" ");
                r.append(c.as_str());
            },
            None => {},
        }
        r.append("\n");
        r
    }
}

/// Renders a warning: `lead`, `subject`, and the line number in parentheses.
fn render_warning(lead: &str, subject: &str, line: usize) -> (r: String)
    ensures
        r@ == lead@ + subject@ + " (line "@ + decimal(line as nat) + ")"@,
{
    let mut r = String::new();
    r.append(lead);
    r.append(subject);
    r.append(" (line ");
    push_decimal(&mut r, line);
    r.append(")");
    assert(r@ =~= lead@ + subject@ + " (line "@ + decimal(line as nat) + ")"@);
    r
}

impl FormatRun {
    fn new() -> (run: FormatRun)
        ensures
            run@ == format_start(),
    {
        let run = FormatRun {
            emitted: Vec::new(),
            seen: Vec::new(),
            reformatted: 0,
            duplicates: 0,
            invalid: 0,
            changes: Vec::new(),
            warnings: Vec::new(),
        };
        assert(run.emitted.deep_view() =~= Seq::empty());
        assert(run.seen.deep_view() =~= Seq::empty());
        assert(run.changes.deep_view() =~= Seq::empty());
        assert(run.warnings.deep_view() =~= Seq::empty());
        run
    }

    /// Takes one record.
    fn take(&mut self, record: &Line, width: usize, dry_run: bool)
        requires
            old(self).reformatted < usize::MAX,
            old(self).duplicates < usize::MAX,
            old(self).invalid < usize::MAX,
        ensures
            final(self)@ == format_step(old(self)@, record@, width as nat, dry_run),
            final(self).reformatted + final(self).duplicates + final(self).invalid <= old(
                self,
            ).reformatted + old(self).duplicates + old(self).invalid + 1,
    {
        match record {
            Line::Comment(text) => {
                let mut out = String::new();
                out.append(text.as_str());
                out.append("\n");
                assert(out@ =~= text@ + "\n"@);
                push_text(&mut self.emitted, out);
            },
            Line::Empty => {
                let mut out = String::new();
                out.append("\n");
                assert(out@ =~= "\n"@);
                push_text(&mut self.emitted, out);
            },
            Line::Invalid { content, line } => {
                self.invalid = self.invalid + 1;
                if dry_run {
                    let text = dry_run_action(
                        width,
                        *line,
                        Some("INVALID LINE"),
                        Some("(line removed - invalid syntax)"),
                        "",
                    );
                    push_change(&mut self.changes, *line, text);
                } else {
                    let text = render_warning("Skipping invalid line: ", content.as_str(), *line);
                    push_text(&mut self.warnings, text);
                }
            },
            Line::KeyValue { key, value, line, inline_comment, references, has_export } => {
                let nk = strip_export(key.as_str(), *has_export);
                if *has_export && dry_run {
                    let mut before = String::new();
                    before.append("export ");
                    before.append(key.as_str());
                    before.append("=");
                    before.append(value.as_str());
                    assert(before@ =~= "export "@ + key@ + "="@ + value@);
                    let after = assignment(nk, value.as_str());
                    let text = dry_run_action(
                        width,
                        *line,
                        Some(before.as_str()),
                        Some(after.as_str()),
                        "Removed export keyword",
                    );
                    push_change(&mut self.changes, *line, text);
                }
                if holds_text(&self.seen, nk) {
                    self.duplicates = self.duplicates + 1;
                    if dry_run {
                        let before = assignment(nk, value.as_str());
                        let text = dry_run_action(
                            width,
                            *line,
                            Some(before.as_str()),
                            Some("(line removed - duplicate key"),
                            "",
                        );
                        push_change(&mut self.changes, *line, text);
                    } else {
                        let text = render_warning("Removed duplicate key: ", nk, *line);
                        push_text(&mut self.warnings, text);
                    }
                } else {
                    let out = render_assignment(nk, value.as_str(), inline_comment);
                    push_text(&mut self.emitted, out);
                    self.reformatted = self.reformatted + 1;
                    if has_space(nk) || (has_space(value.as_str()) && inline_comment.is_none()) {
                        if dry_run {
                            let before = assignment(nk, value.as_str());
                            let after = assignment(trimmed(nk), trimmed(value.as_str()));
                            let text = dry_run_action(
                                width,
                                *line,
                                Some(before.as_str()),
                                Some(after.as_str()),
                                "removed extra spaces",
                            );
                            push_change(&mut self.changes, *line, text);
                        }
                        push_text(&mut self.seen, trimmed(nk).to_owned());
                    } else {
                        push_text(&mut self.seen, nk.to_owned());
                    }
                }
            },
        }
    }
}

/// The text of `parts`, first to last, or last to first when `backwards`.
fn join(parts: &Vec<String>, backwards: bool) -> (text: String)
    ensures
        text@ == concat(
            if backwards {
                parts.deep_view().reverse()
            } else {
                parts.deep_view()
            },
        ),
{
    let ghost ordered = if backwards {
        parts.deep_view().reverse()
    } else {
        parts.deep_view()
    };
    let n = parts.len();
    let mut text = String::new();
    let mut i: usize = 0;
    while i < n
        invariant
            i <= n == parts.len(),
            ordered.len() == n,
            ordered == (if backwards {
                parts.deep_view().reverse()
            } else {
                parts.deep_view()
            }),
            text@ == concat(ordered.take(i as int)),
        decreases n - i,
    {
        let at = if backwards {
            n - 1 - i
        } else {
            i
        };
        text.append(parts[at].as_str());
        assert(ordered.take(i + 1).drop_last() =~= ordered.take(i as int));
        assert(ordered.take(i + 1).last() == parts[at as int]@);
        i += 1;
    }
    assert(ordered.take(n as int) =~= ordered);
    text
}

/// `changes` in stable ascending order of their line numbers.
fn by_line(changes: &Vec<Change>) -> (sorted: Vec<Change>)
    ensures
        sorted.deep_view() == arrange(
            changes.deep_view(),
            stable_order(change_lines(changes.deep_view()), changes.len() as int),
        ),
{
    let mut lines: Vec<usize> = Vec::new();
    let mut i: usize = 0;
    while i < changes.len()
        invariant
            i <= changes.len(),
            lines.len() == i,
            forall|j: int| 0 <= j < i ==> lines[j] == changes[j].line,
        decreases changes.len() - i,
    {
        lines.push(changes[i].line);
        i += 1;
    }
    let order = sorted_positions(&lines);
    assert(sort_keys(lines@) =~= change_lines(changes.deep_view()));
    let ghost target = arrange(changes.deep_view(), positions(order@));
    let mut sorted: Vec<Change> = Vec::new();
    let mut k: usize = 0;
    while k < order.len()
        invariant
            k <= order.len() == changes.len(),
            forall|j: int| 0 <= j < order.len() ==> order[j] < changes.len(),
            target == arrange(changes.deep_view(), positions(order@)),
            sorted.deep_view() == target.take(k as int),
        decreases order.len() - k,
    {
        let entry = &changes[order[k]];
        push_change(&mut sorted, entry.line, entry.text.clone());
        assert(sorted.deep_view() =~= target.take(k + 1));
        k += 1;
    }
    assert(target.take(order.len() as int) =~= target);
    sorted
}

/// Formats `lines`. With `dupes` equal to `keep-last` the last of several
/// assignments to one key stays, with anything else the first. With `dry_run`
/// the changes are listed in the outcome instead of the warnings.
pub fn format_lines(lines: &[Line], dupes: &str, dry_run: bool) -> (out: FormatOutcome)
    ensures
        out@ == format_spec(lines.deep_view(), dupes@ == "keep-last"@, dry_run),
{
    let keep_last = text_equal(dupes, "keep-last");
    let n = lines.len();
    let width = decimal_width(n);
    let ghost ordered = if keep_last {
        lines.deep_view().reverse()
    } else {
        lines.deep_view()
    };
    let mut run = FormatRun::new();
    let mut i: usize = 0;
    assert(ordered.take(0) =~= Seq::<LineView>::empty());
    while i < n
        invariant
            i <= n == lines.len(),
            ordered.len() == n,
            ordered == (if keep_last {
                lines.deep_view().reverse()
            } else {
                lines.deep_view()
            }),
            run.reformatted + run.duplicates + run.invalid <= i,
            run@ == format_fold(ordered.take(i as int), width as nat, dry_run),
        decreases n - i,
    {
        let at = if keep_last {
            n - 1 - i
        } else {
            i
        };
        run.take(&lines[at], width, dry_run);
        assert(ordered.take(i + 1).drop_last() =~= ordered.take(i as int));
        assert(ordered.take(i + 1).last() == lines[at as int]@);
        i += 1;
    }
    assert(ordered.take(n as int) =~= ordered);
    let text = join(&run.emitted, keep_last);
    let changes = if keep_last {
        by_line(&run.changes)
    } else {
        run.changes
    };
    FormatOutcome {
        text,
        reformatted: run.reformatted,
        duplicates: run.duplicates,
        invalid: run.invalid,
        changes,
        warnings: run.warnings,
    }
}

/// Parses `content`, the text of a `.env` file, and formats its lines as
/// [`format_lines`] does. Fails where parsing fails.
pub fn format_env_file(content: &str, dupes: &str, dry_run: bool) -> (r: Result<
    FormatOutcome,
    ParseError,
>)
    ensures
        r is Err <==> has_assignment(content@) && !regex_compiles(reference_pattern()),
        r matches Ok(out) ==> out@ == format_spec(
            parse_spec(content@),
            dupes@ == "keep-last"@,
            dry_run,
        ),
{
    match parse_env_file(content) {
        Ok(lines) => {
            let records = lines.as_slice();
            assert(records.deep_view() =~= lines.deep_view());
            Ok(format_lines(records, dupes, dry_run))
        },
        Err(e) => Err(e),
    }
}

} // verus!
