//! What holds of the formatter's output.

use crate::formatters::{
    assignment_line, change_lines, format_fold, format_spec, format_start, format_step,
    needs_trimming, normalized_key, FormatState,
};
use crate::order::stable_order;
use crate::parser::{
    classify_spec, comment_start, defined_keys, has_duplicate_key, parse_line_spec, parse_spec,
    split_comment, LineView,
};
use crate::parser_laws::{lemma_assignment_parts, lemma_split_comment};
use crate::reparse_laws::lemma_assignment_layout;
use crate::text::{concat, contains_space, decimal, split_lines, starts_with, trim};
use crate::text_laws::{is_trimmed, join_lines, lemma_join_of_lines, lemma_trim_fixed};
use crate::validator::assigns;
use crate::validator_laws::lemma_defined_keys;
use vstd::prelude::*;

verus! {

/// Whether the formatter leaves the line `raw` as it is: the line has no
/// whitespace around it; it is blank, a comment, or an assignment without
/// `export` and without whitespace in its key; the value holds whitespace
/// only where an inline comment follows, and a single space stands before
/// that comment.
pub open spec fn is_tidy_line(raw: Seq<char>) -> bool {
    &&& trim(raw) == raw
    &&& match classify_spec(raw, 1) {
        LineView::Empty => true,
        LineView::Comment(_) => true,
        LineView::Invalid { .. } => false,
        LineView::KeyValue { key, value, inline_comment, has_export, .. } => {
            &&& !has_export
            &&& !contains_space(key)
            &&& match inline_comment {
                None => !contains_space(value),
                Some(_) => {
                    &&& comment_start(raw) == split_comment(raw).0.len() + 1
                    &&& raw[comment_start(raw) - 1] == ' '
                },
            }
        },
    }
}

/// Whether `content` is formatted: every line ends with a line feed and is
/// tidy, and no key is assigned twice.
pub open spec fn is_formatted(content: Seq<char>) -> bool {
    &&& content.len() > 0 ==> content.last() == '\n'
    &&& forall|i: int|
        0 <= i < split_lines(content).len() ==> is_tidy_line(#[trigger] split_lines(content)[i])
    &&& !has_duplicate_key(parse_spec(content))
}

/// Whether the formatter emits `record` unchanged wherever its key was not
/// seen before.
pub open spec fn is_tidy_record(record: LineView) -> bool {
    match record {
        LineView::Empty => true,
        LineView::Comment(_) => true,
        LineView::Invalid { .. } => false,
        LineView::KeyValue { key, value, inline_comment, has_export, .. } => !has_export
            && !needs_trimming(key, value, inline_comment),
    }
}

/// The output line of a tidy record.
pub open spec fn tidy_text(record: LineView) -> Seq<char> {
    match record {
        LineView::Empty => "\n"@,
        LineView::Comment(text) => text + "\n"@,
        LineView::Invalid { .. } => Seq::empty(),
        LineView::KeyValue { key, value, inline_comment, .. } => assignment_line(
            key,
            value,
            inline_comment,
        ),
    }
}

/// The number of assignments among `records`.
pub open spec fn count_assignments(records: Seq<LineView>) -> nat
    decreases records.len(),
{
    if records.len() == 0 {
        0
    } else if records.last() is KeyValue {
        count_assignments(records.drop_last()) + 1
    } else {
        count_assignments(records.drop_last())
    }
}

/// Tidy records without a repeated key are emitted one by one as they are:
/// nothing is dropped, nothing is reported.
pub proof fn lemma_format_tidy_records(records: Seq<LineView>, width: nat, dry_run: bool)
    requires
        forall|i: int| 0 <= i < records.len() ==> is_tidy_record(#[trigger] records[i]),
        !has_duplicate_key(records),
    ensures
        format_fold(records, width, dry_run) == (FormatState {
            emitted: Seq::new(records.len(), |i: int| tidy_text(records[i])),
            seen: defined_keys(records),
            reformatted: count_assignments(records),
            duplicates: 0,
            invalid: 0,
            changes: Seq::empty(),
            warnings: Seq::empty(),
        }),
    decreases records.len(),
{
    let target = FormatState {
        emitted: Seq::new(records.len(), |i: int| tidy_text(records[i])),
        seen: defined_keys(records),
        reformatted: count_assignments(records),
        duplicates: 0,
        invalid: 0,
        changes: Seq::empty(),
        warnings: Seq::empty(),
    };
    if records.len() == 0 {
        assert(format_start().emitted =~= target.emitted);
    } else {
        let head = records.drop_last();
        let last = records.last();
        let at = records.len() - 1;
        assert forall|i: int| 0 <= i < head.len() implies is_tidy_record(#[trigger] head[i]) by {
            assert(head[i] == records[i]);
        }
        if has_duplicate_key(head) {
            let (i, j) = choose|i: int, j: int|
                0 <= i < j < head.len() && #[trigger] head[i] is KeyValue && #[trigger] head[j]
                    is KeyValue && head[i]->key == head[j]->key;
            assert(records[i] == head[i] && records[j] == head[j]);
        }
        lemma_format_tidy_records(head, width, dry_run);
        let before = format_fold(head, width, dry_run);
        let after = format_step(before, last, width, dry_run);
        assert(is_tidy_record(records[at]));
        if let LineView::KeyValue { key, value, inline_comment, has_export, .. } = last {
            lemma_defined_keys(head);
            if before.seen.contains(key) {
                let g = choose|g: int| 0 <= g < before.seen.len() && before.seen[g] == key;
                let i = choose|i: int| 0 <= i < head.len() && assigns(#[trigger] head[i], key);
                assert(records[i] is KeyValue && records[at] is KeyValue);
            }
        }
        assert(after.emitted =~= target.emitted);
        assert(after.seen =~= target.seen);
    }
}

/// The formatter emits a tidy line as it is.
pub proof fn lemma_tidy_line_text(raw: Seq<char>, number: nat)
    requires
        is_tidy_line(raw),
    ensures
        is_tidy_record(parse_line_spec(raw, number)),
        tidy_text(parse_line_spec(raw, number)) == raw + seq!['\n'],
{
    reveal_strlit("\n");
    reveal_strlit("=");
    reveal_strlit(" ");
    lemma_trim_fixed(raw);
    let record = classify_spec(raw, number);
    assert(classify_spec(raw, 1) is KeyValue <==> record is KeyValue);
    match record {
        LineView::Empty => {
            assert(raw =~= Seq::<char>::empty());
            assert("\n"@ =~= raw + seq!['\n']);
        },
        LineView::Comment(text) => {
            assert(text + "\n"@ =~= raw + seq!['\n']);
        },
        LineView::Invalid { .. } => {},
        LineView::KeyValue { key, value, inline_comment, .. } => {
            lemma_assignment_parts(raw, number);
            lemma_assignment_parts(raw, 1);
            lemma_split_comment(raw);
            let content = split_comment(raw).0;
            assert("="@ =~= seq!['=']);
            match inline_comment {
                None => {
                    assert(key + "="@ + value + "\n"@ =~= raw + seq!['\n']);
                },
                Some(c) => {
                    let at = comment_start(raw);
                    assert(raw =~= content + seq![' '] + raw.skip(at));
                    assert(key + "="@ + value + " "@ + c + "\n"@ =~= raw + seq!['\n']);
                },
            }
        },
    }
}

/// The concatenation of the texts of lines, each with its line feed.
pub proof fn lemma_concat_lines(lines: Seq<Seq<char>>, texts: Seq<Seq<char>>)
    requires
        texts.len() == lines.len(),
        forall|i: int| 0 <= i < lines.len() ==> #[trigger] texts[i] == lines[i] + seq!['\n'],
    ensures
        concat(texts) == join_lines(lines),
    decreases lines.len(),
{
    if lines.len() > 0 {
        lemma_concat_lines(lines.drop_last(), texts.drop_last());
        assert(texts.last() == texts[texts.len() - 1]);
        assert(concat(texts) =~= join_lines(lines));
    }
}

/// Formatting is idempotent on formatted text: a text in which every line
/// ends with a line feed and is tidy, and in which no key is assigned twice,
/// comes out of the formatter as it went in, under either policy; nothing is
/// dropped and no change or warning is reported.
pub proof fn lemma_formatted_text_is_unchanged(content: Seq<char>, keep_last: bool, dry_run: bool)
    requires
        is_formatted(content),
    ensures
        format_spec(parse_spec(content), keep_last, dry_run).text == content,
        format_spec(parse_spec(content), keep_last, dry_run).duplicates == 0,
        format_spec(parse_spec(content), keep_last, dry_run).invalid == 0,
        format_spec(parse_spec(content), keep_last, dry_run).changes.len() == 0,
        format_spec(parse_spec(content), keep_last, dry_run).warnings.len() == 0,
{
    let lines = split_lines(content);
    let records = parse_spec(content);
    let width = decimal(records.len()).len();
    let texts = Seq::new(records.len(), |i: int| tidy_text(records[i]));
    assert forall|i: int| 0 <= i < records.len() implies is_tidy_record(#[trigger] records[i])
        && texts[i] == lines[i] + seq!['\n'] by {
        assert(is_tidy_line(lines[i]));
        lemma_tidy_line_text(lines[i], (i + 1) as nat);
    }
    lemma_concat_lines(lines, texts);
    lemma_join_of_lines(content, 0);
    assert(content.skip(0) =~= content);
    if keep_last {
        let turned = records.reverse();
        assert forall|i: int| 0 <= i < turned.len() implies is_tidy_record(#[trigger] turned[i]) by {
            assert(turned[i] == records[records.len() - 1 - i]);
        }
        if has_duplicate_key(turned) {
            let (i, j) = choose|i: int, j: int|
                0 <= i < j < turned.len() && #[trigger] turned[i] is KeyValue && #[trigger] turned[j]
                    is KeyValue && turned[i]->key == turned[j]->key;
            let a = records.len() - 1 - j;
            let b = records.len() - 1 - i;
            assert(records[a] == turned[j] && records[b] == turned[i]);
        }
        lemma_format_tidy_records(turned, width, dry_run);
        let st = format_fold(turned, width, dry_run);
        assert(st.emitted.reverse() =~= texts);
        assert(stable_order(change_lines(st.changes), 0) =~= Seq::<int>::empty());
    } else {
        lemma_format_tidy_records(records, width, dry_run);
        let st = format_fold(records, width, dry_run);
        assert(st.emitted =~= texts);
    }
}

/// An assignment on a line that begins with `export ` is marked, and its key
/// is `export ` and the key under which the formatter emits it.
pub proof fn lemma_export_is_stripped(raw: Seq<char>, number: nat)
    requires
        classify_spec(raw, number) is KeyValue,
        starts_with(trim(raw), "export "@),
    ensures
        classify_spec(raw, number)->has_export,
        classify_spec(raw, number)->key == "export "@ + normalized_key(
            classify_spec(raw, number)->key,
            true,
        ),
{
    lemma_assignment_layout(raw, number);
    let key = classify_spec(raw, number)->key;
    assert(starts_with(key, "export "@));
    assert(key =~= key.take(7) + key.skip(7));
}


/// Of two assignments to one key, the first stays under the policy that
/// keeps the first, and the second under the policy that keeps the last,
/// where the key has no whitespace around it once `export ` is stripped.
pub proof fn lemma_first_or_last_stays(first: LineView, second: LineView, dry_run: bool)
    requires
        first is KeyValue,
        second is KeyValue,
        normalized_key(first->key, first->has_export) == normalized_key(
            second->key,
            second->has_export,
        ),
        is_trimmed(normalized_key(first->key, first->has_export)),
    ensures
        format_spec(seq![first, second], false, dry_run).text == assignment_line(
            normalized_key(first->key, first->has_export),
            first->value,
            first->inline_comment,
        ),
        format_spec(seq![first, second], true, dry_run).text == assignment_line(
            normalized_key(second->key, second->has_export),
            second->value,
            second->inline_comment,
        ),
        format_spec(seq![first, second], false, dry_run).duplicates == 1,
        format_spec(seq![first, second], true, dry_run).duplicates == 1,
{
    let both = seq![first, second];
    let width = decimal(both.len()).len();
    lemma_one_stays(first, second, width, dry_run);
    lemma_one_stays(second, first, width, dry_run);
    assert(both.reverse() =~= seq![second, first]);
}

/// Of two assignments to one key, taken in order, the formatter emits the
/// first alone.
proof fn lemma_one_stays(taken: LineView, dropped: LineView, width: nat, dry_run: bool)
    requires
        taken is KeyValue,
        dropped is KeyValue,
        normalized_key(taken->key, taken->has_export) == normalized_key(
            dropped->key,
            dropped->has_export,
        ),
        is_trimmed(normalized_key(taken->key, taken->has_export)),
    ensures
        ({
            let st = format_fold(seq![taken, dropped], width, dry_run);
            let line = assignment_line(
                normalized_key(taken->key, taken->has_export),
                taken->value,
                taken->inline_comment,
            );
            &&& st.emitted == seq![line]
            &&& concat(st.emitted) == line
            &&& concat(st.emitted.reverse()) == line
            &&& st.duplicates == 1
        }),
{
    let key = normalized_key(taken->key, taken->has_export);
    let line = assignment_line(key, taken->value, taken->inline_comment);
    lemma_trim_fixed(key);
    let both = seq![taken, dropped];
    let one = both.drop_last();
    assert(one =~= seq![taken]);
    assert(one.drop_last() =~= Seq::<LineView>::empty());
    let start = format_fold(one.drop_last(), width, dry_run);
    let middle = format_fold(one, width, dry_run);
    assert(middle == format_step(start, taken, width, dry_run));
    assert(middle.seen =~= seq![key]);
    assert(middle.seen[0] == key);
    assert(middle.emitted =~= seq![line]);
    let st = format_fold(both, width, dry_run);
    assert(st == format_step(middle, dropped, width, dry_run));
    assert(st.emitted.reverse() =~= seq![line]);
    let single = seq![line];
    assert(single.drop_last() =~= Seq::<Seq<char>>::empty());
    assert(concat(single.drop_last()) =~= Seq::<char>::empty());
    assert(single.last() == line);
    assert(concat(single) =~= line);
}


/// The number of invalid lines among `records`.
pub open spec fn count_invalid(records: Seq<LineView>) -> nat
    decreases records.len(),
{
    if records.len() == 0 {
        0
    } else if records.last() is Invalid {
        count_invalid(records.drop_last()) + 1
    } else {
        count_invalid(records.drop_last())
    }
}

/// The formatter accounts for every record: each assignment is either
/// emitted or dropped as a duplicate, each invalid line is dropped, and every
/// other record is emitted.
pub proof fn lemma_every_record_is_counted(records: Seq<LineView>, width: nat, dry_run: bool)
    ensures
        ({
            let st = format_fold(records, width, dry_run);
            &&& st.reformatted + st.duplicates == count_assignments(records)
            &&& st.invalid == count_invalid(records)
            &&& st.emitted.len() + st.duplicates + st.invalid == records.len()
            &&& st.seen.len() == st.reformatted
        }),
    decreases records.len(),
{
    if records.len() > 0 {
        lemma_every_record_is_counted(records.drop_last(), width, dry_run);
    }
}


} // verus!
