//! What holds of the records that the parser produces.

use crate::parser::{
    classify_spec, comment_start, lemma_comment_from, line_content, parse_line_spec, parse_spec,
    split_comment, starts_comment, LineView,
};
use crate::text::{
    content_start, index_of, is_space, lemma_find_from, split_lines, trim, trim_end,
};
use crate::text_laws::{is_trimmed, lemma_trim_end, lemma_trim_fixed, lemma_trim_is_trimmed};
use vstd::prelude::*;

verus! {

/// Every line of a text has one record, in order. An assignment and an
/// invalid line carry the number of their line, counted from one.
pub proof fn lemma_one_record_per_line(content: Seq<char>)
    ensures
        parse_spec(content).len() == split_lines(content).len(),
        forall|i: int|
            0 <= i < parse_spec(content).len() ==> match #[trigger] parse_spec(content)[i] {
                LineView::KeyValue { line, .. } => line == i + 1,
                LineView::Invalid { line, .. } => line == i + 1,
                _ => true,
            },
{
}

/// The parts of a line: where content and inline comment stand in the
/// trimmed line.
pub proof fn lemma_split_comment(t: Seq<char>)
    requires
        is_trimmed(t),
    ensures
        split_comment(t).1 is None ==> split_comment(t).0 == t && comment_start(t) == t.len(),
        split_comment(t).1 is Some ==> {
            let at = comment_start(t);
            let content = split_comment(t).0;
            &&& 0 <= at < t.len()
            &&& starts_comment(t, at)
            &&& content.len() <= at
            &&& content == t.take(content.len() as int)
            &&& forall|j: int| content.len() <= j < at ==> is_space(#[trigger] t[j])
            &&& split_comment(t).1 == Some(t.skip(at))
        },
        is_trimmed(split_comment(t).0),
        forall|j: int| 0 <= j < comment_start(t) ==> !starts_comment(t, j),
        split_comment(t).0.len() > 0 ==> !is_space(split_comment(t).0.last()),
{
    lemma_comment_from(t, 0);
    let at = comment_start(t);
    if at < t.len() {
        let head = t.take(at);
        lemma_trim_end(head);
        let content = trim_end(head);
        assert(content =~= t.take(content.len() as int));
        assert forall|j: int| content.len() <= j < at implies is_space(#[trigger] t[j]) by {
            assert(head[j] == t[j]);
        }
        let tail = t.skip(at);
        assert(tail[0] == '#');
        assert(tail.last() == t.last());
        lemma_trim_fixed(tail);
        if content.len() > 0 {
            assert(content[0] == t[0]);
        }
    }
}

/// What holds of a line that is classified as an assignment: the content is
/// key, `=` and value; the key holds no `=` and is not blank; the value is
/// not blank unless an inline comment follows.
pub proof fn lemma_assignment_parts(raw: Seq<char>, number: nat)
    requires
        classify_spec(raw, number) is KeyValue,
    ensures
        ({
            let record = classify_spec(raw, number);
            let key = record->key;
            let value = record->value;
            &&& line_content(raw) == key + seq!['='] + value
            &&& !key.contains('=')
            &&& trim(key).len() > 0
            &&& trim(value).len() > 0 || record->inline_comment is Some
            &&& record->inline_comment == split_comment(trim(raw)).1
            &&& record->KeyValue_line == number
            &&& trim(raw).len() > 0
            &&& trim(raw)[0] != '#'
            &&& value.len() > 0 ==> !is_space(value.last())
            &&& key.len() > 0 && !is_space(key[0])
        }),
{
    let t = trim(raw);
    lemma_trim_is_trimmed(raw);
    lemma_split_comment(t);
    let content = split_comment(t).0;
    let at = index_of(content, '=');
    lemma_find_from(content, '=', 0);
    let key = content.take(at);
    let value = content.skip(at + 1);
    assert(content =~= key + seq!['='] + value);
    if key.contains('=') {
        let k = choose|k: int| 0 <= k < key.len() && key[k] == '=';
        assert(content[k] == '=');
    }
    if value.len() > 0 {
        assert(value.last() == content.last());
    }
    lemma_trim_is_trimmed(key);
    assert(key.len() > 0);
    assert(key[0] == content[0]);
    assert(content[0] == t[0]);
}

/// A line that holds no `=`, and is neither blank nor a comment, is invalid.
pub proof fn lemma_line_without_equals_is_invalid(raw: Seq<char>, number: nat)
    requires
        !raw.contains('='),
        trim(raw).len() > 0,
        trim(raw)[0] != '#',
    ensures
        parse_line_spec(raw, number) == (LineView::Invalid { content: trim(raw), line: number }),
{
    let t = trim(raw);
    lemma_trim_is_trimmed(raw);
    lemma_split_comment(t);
    let content = split_comment(t).0;
    lemma_find_from(content, '=', 0);
    let at = index_of(content, '=');
    if at < content.len() {
        assert(content[at] == t[at]);
        let a = content_start(raw, 0);
        assert(t[at] == raw[a + at]);
        assert(raw.contains('='));
    }
}

/// No record of the parser is an assignment with a blank key, and none has a
/// blank value unless an inline comment follows it.
pub proof fn lemma_parsed_assignments_are_not_blank(content: Seq<char>)
    ensures
        forall|i: int|
            0 <= i < parse_spec(content).len() && #[trigger] parse_spec(content)[i] is KeyValue
                ==> {
                let record = parse_spec(content)[i];
                &&& trim(record->key).len() > 0
                &&& trim(record->value).len() > 0 || record->inline_comment is Some
            },
{
    let lines = split_lines(content);
    assert forall|i: int|
        0 <= i < parse_spec(content).len() && #[trigger] parse_spec(content)[i] is KeyValue implies {
        let record = parse_spec(content)[i];
        &&& trim(record->key).len() > 0
        &&& trim(record->value).len() > 0 || record->inline_comment is Some
    } by {
        lemma_assignment_parts(lines[i], (i + 1) as nat);
    }
}

} // verus!
