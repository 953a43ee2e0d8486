//! What the parser and the validator make of the formatter's output.

use crate::formatter_laws::lemma_concat_lines;
use crate::formatters::{
    format_fold, format_spec, format_start, format_step, needs_trimming, normalized_key,
    registered_key,
};
use crate::parser::{has_duplicate_key, parse_line_spec, parse_spec, LineView};
use crate::parser_laws::lemma_assignment_parts;
use crate::reparse_laws::{
    emitted_text, is_parsed, lemma_emitted_text_holds_no_feed, lemma_reparse_assignment,
    lemma_reparse_other, restated, restated_key, restated_value,
};
use crate::text::{concat, decimal, is_space, split_lines, trim};
use crate::text_laws::{
    is_trimmed, lemma_lines_hold_no_feed, lemma_lines_of_join, lemma_trim_fixed,
    lemma_trim_idempotent, lemma_trim_is_trimmed,
};
use crate::validator::validate_spec;
use crate::validator_laws::{has_blank_assignment, is_blank_assignment, lemma_verdict};
use vstd::prelude::*;

verus! {

/// The keys under which the assignments among `kept` are remembered once
/// emitted.
pub open spec fn emitted_keys(kept: Seq<LineView>) -> Seq<Seq<char>>
    decreases kept.len(),
{
    if kept.len() == 0 {
        Seq::empty()
    } else {
        match kept.last() {
            LineView::KeyValue { key, value, inline_comment, has_export, .. } => emitted_keys(
                kept.drop_last(),
            ).push(registered_key(normalized_key(key, has_export), value, inline_comment)),
            _ => emitted_keys(kept.drop_last()),
        }
    }
}

/// The records of `records` for which the formatter emits a line, in the
/// order in which it takes them: every comment and blank line, and every
/// assignment whose normalized key was not remembered when it was taken.
pub open spec fn kept_records(records: Seq<LineView>) -> Seq<LineView>
    decreases records.len(),
{
    if records.len() == 0 {
        Seq::empty()
    } else {
        let before = kept_records(records.drop_last());
        match records.last() {
            LineView::Invalid { .. } => before,
            LineView::KeyValue { key, has_export, .. } => if emitted_keys(before).contains(
                normalized_key(key, has_export),
            ) {
                before
            } else {
                before.push(records.last())
            },
            _ => before.push(records.last()),
        }
    }
}

/// The formatter emits one line for each kept record, and remembers the keys
/// of the kept assignments.
pub proof fn lemma_fold_emits_kept(records: Seq<LineView>, width: nat, dry_run: bool)
    ensures
        format_fold(records, width, dry_run).emitted == Seq::new(
            kept_records(records).len(),
            |k: int| emitted_text(kept_records(records)[k]) + "\n"@,
        ),
        format_fold(records, width, dry_run).seen == emitted_keys(kept_records(records)),
    decreases records.len(),
{
    let kept = kept_records(records);
    let lines = Seq::new(kept.len(), |k: int| emitted_text(kept[k]) + "\n"@);
    if records.len() == 0 {
        assert(format_start().emitted =~= lines);
    } else {
        let head = records.drop_last();
        lemma_fold_emits_kept(head, width, dry_run);
        let before = kept_records(head);
        let st = format_fold(head, width, dry_run);
        let after = format_step(st, records.last(), width, dry_run);
        match records.last() {
            LineView::Empty => {
                assert("\n"@ =~= Seq::<char>::empty() + "\n"@);
                assert(after.emitted =~= lines);
            },
            _ => {
                assert(after.emitted =~= lines);
            },
        }
        assert(kept.len() > before.len() ==> kept.drop_last() =~= before);
    }
}

/// Every kept record is one of the records, and none is an invalid line.
pub proof fn lemma_kept_are_records(records: Seq<LineView>)
    ensures
        forall|k: int|
            0 <= k < kept_records(records).len() ==> records.contains(
                #[trigger] kept_records(records)[k],
            ) && !(kept_records(records)[k] is Invalid),
    decreases records.len(),
{
    if records.len() > 0 {
        let head = records.drop_last();
        lemma_kept_are_records(head);
        let before = kept_records(head);
        let kept = kept_records(records);
        assert forall|k: int| 0 <= k < kept.len() implies records.contains(#[trigger] kept[k])
            && !(kept[k] is Invalid) by {
            if k < before.len() {
                assert(kept[k] == before[k]);
                let i = choose|i: int| 0 <= i < head.len() && head[i] == before[k];
                assert(records[i] == kept[k]);
            } else {
                assert(records[records.len() - 1] == kept[k]);
            }
        }
    }
}

/// Whether `again` is what the emitted text of `record` parses to.
pub open spec fn agrees(record: LineView, again: LineView) -> bool {
    match record {
        LineView::KeyValue { .. } => match restated(record) {
            None => again is Invalid,
            Some((key, value)) => {
                &&& again is KeyValue
                &&& again->key == key
                &&& again->value == value
                &&& trim(key).len() > 0
            },
        },
        _ => !(again is KeyValue),
    }
}

/// Whether the emitted texts of two of the assignments among `kept` parse
/// again to one key.
pub open spec fn restates_key_twice(kept: Seq<LineView>) -> bool {
    exists|i: int, j: int|
        0 <= i < j < kept.len() && #[trigger] kept[i] is KeyValue && #[trigger] kept[j]
            is KeyValue && restated(kept[i]) is Some && restated(kept[j]) is Some && restated_key(
            kept[i],
        ) == restated_key(kept[j])
}

/// Whether the emitted text of one of the assignments among `kept` parses
/// again to a blank value.
pub open spec fn restates_blank_value(kept: Seq<LineView>) -> bool {
    exists|k: int|
        0 <= k < kept.len() && #[trigger] kept[k] is KeyValue && restated(kept[k]) is Some
            && trim(restated_value(kept[k])).len() == 0
}

/// Two lines assign one key, or an assignment is blank, among records that
/// agree with `kept` exactly where `kept` restates a key twice, or a blank
/// value.
pub proof fn lemma_agreeing_records(kept: Seq<LineView>, again: Seq<LineView>)
    requires
        again.len() == kept.len(),
        forall|k: int| 0 <= k < kept.len() ==> agrees(#[trigger] kept[k], again[k]),
    ensures
        has_duplicate_key(again) <==> restates_key_twice(kept),
        has_blank_assignment(again) <==> restates_blank_value(kept),
{
    if has_duplicate_key(again) {
        let (i, j) = choose|i: int, j: int|
            0 <= i < j < again.len() && #[trigger] again[i] is KeyValue && #[trigger] again[j]
                is KeyValue && again[i]->key == again[j]->key;
        assert(agrees(kept[i], again[i]) && agrees(kept[j], again[j]));
        assert(kept[i] is KeyValue && kept[j] is KeyValue);
    }
    if restates_key_twice(kept) {
        let (i, j) = choose|i: int, j: int|
            0 <= i < j < kept.len() && #[trigger] kept[i] is KeyValue && #[trigger] kept[j]
                is KeyValue && restated(kept[i]) is Some && restated(kept[j]) is Some
                && restated_key(kept[i]) == restated_key(kept[j]);
        assert(agrees(kept[i], again[i]) && agrees(kept[j], again[j]));
        assert(again[i] is KeyValue && again[j] is KeyValue);
    }
    if has_blank_assignment(again) {
        let k = choose|k: int| 0 <= k < again.len() && is_blank_assignment(#[trigger] again[k]);
        assert(agrees(kept[k], again[k]));
        assert(kept[k] is KeyValue);
    }
    if restates_blank_value(kept) {
        let k = choose|k: int|
            0 <= k < kept.len() && #[trigger] kept[k] is KeyValue && restated(kept[k]) is Some
                && trim(restated_value(kept[k])).len() == 0;
        assert(agrees(kept[k], again[k]));
        assert(is_blank_assignment(again[k]));
    }
}

/// Restating a key twice, or a blank value, does not depend on the order of
/// the records.
pub proof fn lemma_restates_reversed(kept: Seq<LineView>)
    ensures
        restates_key_twice(kept.reverse()) <==> restates_key_twice(kept),
        restates_blank_value(kept.reverse()) <==> restates_blank_value(kept),
{
    let turned = kept.reverse();
    let n = kept.len() as int;
    assert forall|k: int| 0 <= k < n implies #[trigger] turned[k] == kept[n - 1 - k] by {}
    if restates_key_twice(turned) {
        let (i, j) = choose|i: int, j: int|
            0 <= i < j < turned.len() && #[trigger] turned[i] is KeyValue && #[trigger] turned[j]
                is KeyValue && restated(turned[i]) is Some && restated(turned[j]) is Some
                && restated_key(turned[i]) == restated_key(turned[j]);
        let a = n - 1 - j;
        let b = n - 1 - i;
        assert(kept[a] == turned[j] && kept[b] == turned[i]);
        assert(kept[a] is KeyValue && kept[b] is KeyValue);
    }
    if restates_key_twice(kept) {
        let (i, j) = choose|i: int, j: int|
            0 <= i < j < kept.len() && #[trigger] kept[i] is KeyValue && #[trigger] kept[j]
                is KeyValue && restated(kept[i]) is Some && restated(kept[j]) is Some
                && restated_key(kept[i]) == restated_key(kept[j]);
        let a = n - 1 - j;
        let b = n - 1 - i;
        assert(turned[a] == kept[j] && turned[b] == kept[i]);
        assert(turned[a] is KeyValue && turned[b] is KeyValue);
    }
    if restates_blank_value(turned) {
        let k = choose|k: int|
            0 <= k < turned.len() && #[trigger] turned[k] is KeyValue && restated(turned[k])
                is Some && trim(restated_value(turned[k])).len() == 0;
        assert(kept[n - 1 - k] == turned[k]);
        assert(kept[n - 1 - k] is KeyValue);
    }
    if restates_blank_value(kept) {
        let k = choose|k: int|
            0 <= k < kept.len() && #[trigger] kept[k] is KeyValue && restated(kept[k]) is Some
                && trim(restated_value(kept[k])).len() == 0;
        assert(turned[n - 1 - k] == kept[k]);
        assert(turned[n - 1 - k] is KeyValue);
    }
}

/// The text of kept records, each emitted with its line feed, parses to
/// records that agree with them.
pub proof fn lemma_reparse_kept(kept: Seq<LineView>, texts: Seq<Seq<char>>)
    requires
        forall|k: int|
            0 <= k < kept.len() ==> is_parsed(#[trigger] kept[k]) && !(kept[k] is Invalid),
        texts.len() == kept.len(),
        forall|k: int| 0 <= k < kept.len() ==> #[trigger] texts[k] == emitted_text(kept[k]) + "\n"@,
    ensures
        parse_spec(concat(texts)).len() == kept.len(),
        forall|k: int|
            0 <= k < kept.len() ==> agrees(#[trigger] kept[k], parse_spec(concat(texts))[k]),
{
    reveal_strlit("\n");
    let bodies = Seq::new(kept.len(), |k: int| emitted_text(kept[k]));
    assert forall|k: int| 0 <= k < bodies.len() implies !(#[trigger] bodies[k]).contains('\n') by {
        lemma_emitted_text_holds_no_feed(kept[k]);
    }
    assert forall|k: int| 0 <= k < bodies.len() implies #[trigger] texts[k] == bodies[k] + seq![
        '\n',
    ] by {
        assert("\n"@ =~= seq!['\n']);
    }
    lemma_concat_lines(bodies, texts);
    lemma_lines_of_join(bodies);
    let again = parse_spec(concat(texts));
    assert forall|k: int| 0 <= k < kept.len() implies agrees(#[trigger] kept[k], again[k]) by {
        let number = (k + 1) as nat;
        assert(again[k] == parse_line_spec(bodies[k], number));
        if kept[k] is KeyValue {
            lemma_reparse_assignment(kept[k], number);
        } else {
            lemma_reparse_other(kept[k], number);
        }
    }
}

/// Every record of a parsed text is what the parser makes of a line.
pub proof fn lemma_records_are_parsed(content: Seq<char>)
    ensures
        forall|i: int|
            0 <= i < parse_spec(content).len() ==> is_parsed(#[trigger] parse_spec(content)[i]),
{
    let lines = split_lines(content);
    lemma_lines_hold_no_feed(content, 0);
    assert forall|i: int| 0 <= i < parse_spec(content).len() implies is_parsed(
        #[trigger] parse_spec(content)[i],
    ) by {
        assert(!lines[i].contains('\n'));
        assert(parse_spec(content)[i] == parse_line_spec(lines[i], (i + 1) as nat));
    }
}

/// The records of `records` in the order in which the formatter takes them.
pub open spec fn in_processing_order(records: Seq<LineView>, keep_last: bool) -> Seq<LineView> {
    if keep_last {
        records.reverse()
    } else {
        records
    }
}

/// Formatting a text and validating the result in strict mode: the result
/// passes, unless the formatter kept an assignment whose emitted text parses
/// again to a blank value, or kept two assignments whose emitted texts parse
/// again to one key. The first happens to an assignment without whitespace
/// in its key whose value is empty before an inline comment. The second
/// happens where a key is trimmed onto a key that was emitted before.
pub proof fn lemma_formatted_text_passes_validation(
    content: Seq<char>,
    keep_last: bool,
    dry_run: bool,
    example: Option<Seq<LineView>>,
)
    ensures
        ({
            let records = parse_spec(content);
            let text = format_spec(records, keep_last, dry_run).text;
            let kept = kept_records(in_processing_order(records, keep_last));
            validate_spec(parse_spec(text), example, true).valid <==> !restates_key_twice(kept)
                && !restates_blank_value(kept)
        }),
{
    let records = parse_spec(content);
    let ordered = in_processing_order(records, keep_last);
    let width = decimal(records.len()).len();
    let st = format_fold(ordered, width, dry_run);
    let kept = kept_records(ordered);
    let text = format_spec(records, keep_last, dry_run).text;
    lemma_fold_emits_kept(ordered, width, dry_run);
    lemma_kept_are_records(ordered);
    lemma_records_are_parsed(content);
    assert forall|k: int| 0 <= k < kept.len() implies is_parsed(#[trigger] kept[k]) && !(kept[k]
        is Invalid) by {
        let i = choose|i: int| 0 <= i < ordered.len() && ordered[i] == kept[k];
        if keep_last {
            assert(ordered[i] == records[records.len() - 1 - i]);
        }
    }
    let shown = in_processing_order(kept, keep_last);
    let texts = if keep_last {
        st.emitted.reverse()
    } else {
        st.emitted
    };
    assert(text == concat(texts));
    assert forall|k: int| 0 <= k < shown.len() implies is_parsed(#[trigger] shown[k]) && !(shown[k]
        is Invalid) && #[trigger] texts[k] == emitted_text(shown[k]) + "\n"@ by {
        if keep_last {
            assert(shown[k] == kept[kept.len() - 1 - k]);
            assert(texts[k] == st.emitted[kept.len() - 1 - k]);
        }
    }
    lemma_reparse_kept(shown, texts);
    lemma_agreeing_records(shown, parse_spec(text));
    if keep_last {
        lemma_restates_reversed(kept);
    }
    lemma_verdict(parse_spec(text), example, true);
}

/// The normalized key of the assignment `record`.
pub open spec fn key_of(record: LineView) -> Seq<char>
    recommends
        record is KeyValue,
{
    normalized_key(record->key, record->has_export)
}

/// The key under which the assignment `record` is remembered once emitted.
pub open spec fn remembered_key(record: LineView) -> Seq<char>
    recommends
        record is KeyValue,
{
    registered_key(key_of(record), record->value, record->inline_comment)
}

/// The key of every assignment among `kept` is among the emitted keys.
pub proof fn lemma_emitted_keys_hold(kept: Seq<LineView>, at: int)
    requires
        0 <= at < kept.len(),
        kept[at] is KeyValue,
    ensures
        emitted_keys(kept).contains(remembered_key(kept[at])),
    decreases kept.len(),
{
    let keys = emitted_keys(kept);
    if at == kept.len() - 1 {
        assert(keys[keys.len() - 1] == remembered_key(kept[at]));
    } else {
        lemma_emitted_keys_hold(kept.drop_last(), at);
        let before = emitted_keys(kept.drop_last());
        let k = choose|k: int| 0 <= k < before.len() && before[k] == remembered_key(kept[at]);
        assert(keys[k] == remembered_key(kept[at]));
    }
}

/// No kept assignment has a normalized key under which an assignment kept
/// before it is remembered.
pub proof fn lemma_kept_keys_are_new(records: Seq<LineView>, i: int, j: int)
    requires
        0 <= i < j < kept_records(records).len(),
        kept_records(records)[i] is KeyValue,
        kept_records(records)[j] is KeyValue,
    ensures
        key_of(kept_records(records)[j]) != remembered_key(kept_records(records)[i]),
    decreases records.len(),
{
    let kept = kept_records(records);
    if records.len() > 0 {
        let before = kept_records(records.drop_last());
        if j < before.len() {
            assert(kept[i] == before[i] && kept[j] == before[j]);
            lemma_kept_keys_are_new(records.drop_last(), i, j);
        } else {
            assert(kept =~= before.push(records.last()));
            assert(kept[i] == before[i]);
            lemma_emitted_keys_hold(before, i);
        }
    }
}

/// Where no assignment of a text has whitespace around its key, once a
/// leading `export ` is stripped, and none has an empty value, the formatted
/// text passes validation in strict mode.
pub proof fn lemma_clean_text_passes_validation(
    content: Seq<char>,
    keep_last: bool,
    dry_run: bool,
    example: Option<Seq<LineView>>,
)
    requires
        forall|i: int|
            0 <= i < parse_spec(content).len() && #[trigger] parse_spec(content)[i] is KeyValue
                ==> is_trimmed(key_of(parse_spec(content)[i])) && parse_spec(
                content,
            )[i]->value.len() > 0,
    ensures
        validate_spec(
            parse_spec(format_spec(parse_spec(content), keep_last, dry_run).text),
            example,
            true,
        ).valid,
{
    let records = parse_spec(content);
    let ordered = in_processing_order(records, keep_last);
    let kept = kept_records(ordered);
    lemma_formatted_text_passes_validation(content, keep_last, dry_run, example);
    lemma_kept_are_records(ordered);
    lemma_records_are_parsed(content);
    assert forall|k: int| 0 <= k < kept.len() && #[trigger] kept[k] is KeyValue implies is_parsed(
        kept[k],
    ) && is_trimmed(key_of(kept[k])) && kept[k]->value.len() > 0 by {
        let i = choose|i: int| 0 <= i < ordered.len() && ordered[i] == kept[k];
        if keep_last {
            assert(ordered[i] == records[records.len() - 1 - i]);
            assert(records[records.len() - 1 - i] is KeyValue);
        } else {
            assert(records[i] is KeyValue);
        }
    }
    if restates_key_twice(kept) {
        let (i, j) = choose|i: int, j: int|
            0 <= i < j < kept.len() && #[trigger] kept[i] is KeyValue && #[trigger] kept[j]
                is KeyValue && restated(kept[i]) is Some && restated(kept[j]) is Some
                && restated_key(kept[i]) == restated_key(kept[j]);
        lemma_trim_fixed(key_of(kept[i]));
        lemma_trim_fixed(key_of(kept[j]));
        lemma_kept_keys_are_new(ordered, i, j);
    }
    if restates_blank_value(kept) {
        let k = choose|k: int|
            0 <= k < kept.len() && #[trigger] kept[k] is KeyValue && restated(kept[k]) is Some
                && trim(restated_value(kept[k])).len() == 0;
        lemma_trim_idempotent(kept[k]->value);
        if !needs_trimming(key_of(kept[k]), kept[k]->value, kept[k]->inline_comment) {
            lemma_blank_value_is_empty(kept[k]);
        }
    }
}

/// The value of a parsed assignment is blank only where it is empty.
pub proof fn lemma_blank_value_is_empty(record: LineView)
    requires
        is_parsed(record),
        record is KeyValue,
        trim(record->value).len() == 0,
    ensures
        record->value.len() == 0,
{
    let (raw, number) = choose|raw: Seq<char>, number: nat|
        !raw.contains('\n') && record == #[trigger] parse_line_spec(raw, number);
    lemma_assignment_parts(raw, number);
    lemma_trim_is_trimmed(record->value);
    if record->value.len() > 0 {
        assert(is_space(record->value[record->value.len() - 1]));
    }
}

} // verus!
