//! What the parser makes of the text that the formatter emits for one record.

use crate::formatters::{assignment_text, needs_trimming, normalized_key, registered_key};
use crate::parser::{
    classify_spec, comment_start, parse_line_spec, scan_state, split_comment, starts_comment,
    LineView,
};
use crate::parser_laws::{lemma_assignment_parts, lemma_split_comment};
use crate::scan_laws::{is_plain, lemma_comment_from_is, lemma_scan_plain, lemma_scan_segment};
use crate::text::{
    contains_space, content_end, content_start, is_space, lemma_content_end, lemma_content_end_is,
    lemma_content_start, starts_with, trim, trim_end,
};
use crate::text_laws::{
    is_trimmed, lemma_concat_holds_no_feed, lemma_find_from_is, lemma_part_holds_no_feed,
    lemma_trim_fixed, lemma_trim_holds_no_feed, lemma_trim_idempotent, lemma_trim_is_trimmed,
    lemma_trim_without_space,
};
use vstd::prelude::*;

verus! {

/// Where the parts of an assignment stand in its trimmed line: the key from
/// the start to the first `=`, the value behind it up to the end of the
/// content, then whitespace, then the inline comment. No comment may begin
/// before the inline comment. A line marked `export` has a key that begins
/// with `export `.
pub proof fn lemma_assignment_layout(raw: Seq<char>, number: nat)
    requires
        classify_spec(raw, number) is KeyValue,
    ensures
        ({
            let t = trim(raw);
            let record = classify_spec(raw, number);
            let key = record->key;
            let value = record->value;
            let at = key.len() as int;
            let end = at + 1 + value.len();
            let cs = comment_start(t);
            &&& is_trimmed(t)
            &&& 0 < end <= cs <= t.len()
            &&& key == t.subrange(0, at)
            &&& t[at] == '='
            &&& value == t.subrange(at + 1, end)
            &&& !is_space(t[end - 1])
            &&& forall|j: int| 0 <= j < cs ==> !starts_comment(t, j)
            &&& forall|j: int| end <= j < cs ==> is_space(#[trigger] t[j])
            &&& match record->inline_comment {
                None => end == t.len(),
                Some(c) => cs < t.len() && c == t.skip(cs) && starts_comment(t, cs),
            }
            &&& record->has_export == starts_with(t, "export "@)
            &&& record->has_export ==> at >= 7 && key.take(7) == "export "@
            &&& "export "@.len() == 7
            &&& forall|j: int| 0 <= j < 7 ==> is_plain(#[trigger] "export "@[j])
        }),
{
    reveal_strlit("export ");
    let t = trim(raw);
    lemma_trim_is_trimmed(raw);
    lemma_split_comment(t);
    lemma_assignment_parts(raw, number);
    let record = classify_spec(raw, number);
    let key = record->key;
    let value = record->value;
    let content = split_comment(t).0;
    let at = key.len() as int;
    let end = at + 1 + value.len();
    assert(content.len() == end);
    assert(key =~= t.subrange(0, at)) by {
        assert(key =~= content.take(at));
    }
    assert(t[at] == content[at]);
    assert(value =~= t.subrange(at + 1, end)) by {
        assert(value =~= content.skip(at + 1));
    }
    assert(t[end - 1] == content.last());
    if record->has_export {
        let prefix = "export "@;
        assert(t.take(7) == prefix);
        if at < 7 {
            assert(t[at] == t.take(7)[at]);
        }
        assert(key.take(7) =~= t.take(7));
    }
}

/// A text that begins with `body` and goes on with whitespace has `body` as
/// its right-trimmed form, where `body` does not end with whitespace.
proof fn lemma_trim_end_of_padded(s: Seq<char>, n: int)
    requires
        0 <= n <= s.len(),
        n > 0 ==> !is_space(s[n - 1]),
        forall|j: int| n <= j < s.len() ==> is_space(#[trigger] s[j]),
    ensures
        trim_end(s) == s.take(n),
{
    lemma_content_end_is(s, s.len() as int, n);
}

/// How a trimmed line that is no comment is classified, given its content as
/// key, `=` and value, and its inline comment.
pub proof fn lemma_classify_parts(
    text: Seq<char>,
    key: Seq<char>,
    value: Seq<char>,
    comment: Option<Seq<char>>,
    number: nat,
)
    requires
        is_trimmed(text),
        text.len() > 0,
        text[0] != '#',
        split_comment(text) == (key + seq!['='] + value, comment),
        !key.contains('='),
    ensures
        classify_spec(text, number) == if trim(key).len() == 0 || (trim(value).len() == 0
            && comment is None) {
            LineView::Invalid { content: text, line: number }
        } else {
            LineView::KeyValue {
                key,
                value,
                line: number,
                inline_comment: comment,
                references: Seq::empty(),
                has_export: starts_with(text, "export "@),
            }
        },
{
    lemma_trim_fixed(text);
    let content = key + seq!['='] + value;
    assert forall|j: int| 0 <= j < key.len() implies #[trigger] content[j] != '=' by {
        assert(content[j] == key[j]);
        if key[j] == '=' {
            assert(key.contains('='));
        }
    }
    assert(content[key.len() as int] == '=');
    lemma_find_from_is(content, '=', 0, key.len() as int);
    assert(content.take(key.len() as int) =~= key);
    assert(content.skip(key.len() as int + 1) =~= value);
}

/// Where the inline comment begins in a text that shares its content with a
/// line, entered in the same state, and has no inline comment.
proof fn lemma_rescan_content(t: Seq<char>, text: Seq<char>, e: int, end: int)
    requires
        0 <= e < end <= comment_start(t) <= t.len(),
        forall|j: int| 0 <= j < e ==> is_plain(#[trigger] t[j]),
        forall|j: int| 0 <= j < comment_start(t) ==> !starts_comment(t, j),
        end - e <= text.len(),
        text.subrange(0, end - e) == t.subrange(e, end),
    ensures
        forall|j: int| 0 <= j < end - e ==> !starts_comment(text, j),
        scan_state(text, end - e) == scan_state(t, end),
{
    let g = end - e;
    lemma_scan_plain(t, 0, e);
    assert(scan_state(t, e) == scan_state(text, 0));
    lemma_scan_segment(t, text, e, 0, g);
    assert forall|j: int| 0 <= j < g implies !starts_comment(text, j) by {
        assert(starts_comment(t, e + j) == starts_comment(text, 0 + j));
    }
    assert(scan_state(t, e + g) == scan_state(text, 0 + g));
}

/// The parts of a text made of the content of a line, a space, and the inline
/// comment of that line.
proof fn lemma_rescan_comment(t: Seq<char>, text: Seq<char>, e: int, end: int)
    requires
        0 <= e < end <= comment_start(t) < t.len(),
        is_trimmed(t),
        forall|j: int| 0 <= j < e ==> is_plain(#[trigger] t[j]),
        forall|j: int| 0 <= j < comment_start(t) ==> !starts_comment(t, j),
        forall|j: int| end <= j < comment_start(t) ==> is_space(#[trigger] t[j]),
        starts_comment(t, comment_start(t)),
        !is_space(t[end - 1]),
        text == t.subrange(e, end) + seq![' '] + t.skip(comment_start(t)),
    ensures
        split_comment(text) == (t.subrange(e, end), Some(t.skip(comment_start(t)))),
{
    let cs = comment_start(t);
    let seg = t.subrange(e, end);
    let c = t.skip(cs);
    let g = end - e;
    assert(text.subrange(0, g) =~= seg);
    lemma_rescan_content(t, text, e, end);
    assert(text[g] == ' ');
    lemma_scan_plain(text, g, g + 1);
    assert forall|j: int| end <= j < cs implies is_plain(#[trigger] t[j]) by {
        assert(is_space(t[j]));
    }
    lemma_scan_plain(t, end, cs);
    assert(scan_state(t, cs) == scan_state(text, g + 1));
    assert(text.subrange(g + 1, g + 1 + c.len()) =~= t.subrange(cs, cs + c.len()));
    lemma_scan_segment(t, text, cs, g + 1, c.len() as int);
    assert(starts_comment(t, cs + 0) == starts_comment(text, g + 1 + 0));
    assert(!starts_comment(text, g));
    lemma_comment_from_is(text, 0, g + 1);
    assert(text.take(g + 1) =~= seg + seq![' ']);
    assert(seg.last() == t[end - 1]);
    lemma_trim_end_of_padded(text.take(g + 1), g);
    assert(text.take(g + 1).take(g) =~= seg);
    assert(text.skip(g + 1) =~= c);
    assert(c[0] == '#');
    assert(c.last() == t.last());
    lemma_trim_fixed(c);
}

/// The parts of a text that is the content of a line without inline comment.
proof fn lemma_rescan_bare(t: Seq<char>, text: Seq<char>, e: int, end: int)
    requires
        0 <= e < end <= comment_start(t) <= t.len(),
        forall|j: int| 0 <= j < e ==> is_plain(#[trigger] t[j]),
        forall|j: int| 0 <= j < comment_start(t) ==> !starts_comment(t, j),
        text == t.subrange(e, end),
    ensures
        split_comment(text) == (text, None::<Seq<char>>),
{
    assert(text.subrange(0, end - e) =~= t.subrange(e, end));
    lemma_rescan_content(t, text, e, end);
    lemma_comment_from_is(text, 0, text.len() as int);
}

/// The emitted text of an assignment that is not trimmed parses again to the
/// same key, value and inline comment, or to an invalid line where the key
/// was nothing but `export `.
pub proof fn lemma_reparse_untrimmed(raw: Seq<char>, number: nat, again: nat)
    requires
        classify_spec(raw, number) is KeyValue,
        ({
            let record = classify_spec(raw, number);
            !needs_trimming(
                normalized_key(record->key, record->has_export),
                record->value,
                record->inline_comment,
            )
        }),
    ensures
        ({
            let record = classify_spec(raw, number);
            let key = normalized_key(record->key, record->has_export);
            let text = assignment_text(key, record->value, record->inline_comment);
            classify_spec(text, again) == if key.len() == 0 {
                LineView::Invalid { content: text, line: again }
            } else {
                LineView::KeyValue {
                    key,
                    value: record->value,
                    line: again,
                    inline_comment: record->inline_comment,
                    references: Seq::empty(),
                    has_export: starts_with(text, "export "@),
                }
            }
        }),
{
    reveal_strlit("=");
    reveal_strlit(" ");
    lemma_assignment_layout(raw, number);
    lemma_assignment_parts(raw, number);
    let t = trim(raw);
    let record = classify_spec(raw, number);
    let value = record->value;
    let comment = record->inline_comment;
    let at = record->key.len() as int;
    let end = at + 1 + value.len();
    let cs = comment_start(t);
    let e: int = if record->has_export {
        7
    } else {
        0
    };
    let key = normalized_key(record->key, record->has_export);
    assert(key =~= t.subrange(e, at)) by {
        if record->has_export {
            assert(starts_with(record->key, "export "@));
        }
    }
    let text = assignment_text(key, value, comment);
    let seg = t.subrange(e, end);
    assert(seg =~= key + seq!['='] + value);
    assert forall|j: int| 0 <= j < e implies is_plain(#[trigger] t[j]) by {
        assert(t[j] == record->key.take(7)[j]);
    }
    assert(split_comment(text) == (seg, comment)) by {
        match comment {
            None => {
                assert(text =~= seg);
                lemma_rescan_bare(t, text, e, end);
            },
            Some(c) => {
                assert(text =~= seg + seq![' '] + c);
                lemma_rescan_comment(t, text, e, end);
            },
        }
    }
    assert(!contains_space(key));
    assert(trim(key) == key) by {
        lemma_trim_without_space(key);
    }
    assert(!key.contains('=')) by {
        if key.contains('=') {
            let j = choose|j: int| 0 <= j < key.len() && key[j] == '=';
            assert(record->key[e + j] == '=');
            assert(record->key.contains('='));
        }
    }
    assert(is_trimmed(text) && text.len() > 0 && text[0] != '#') by {
        assert(text[0] == seg[0]);
        assert(text.last() == t.last());
        assert(seg[0] == t[e]);
        if key.len() > 0 {
            assert(seg[0] == key[0]);
            assert(!is_space(key[0]));
        }
        if t[e] == '#' {
            lemma_scan_plain(t, 0, e);
            assert(starts_comment(t, e));
        }
    }
    lemma_classify_parts(text, key, value, comment, again);
}

/// The parts of a text made of a stretch of a line's key, `=`, and a stretch
/// of its value up to the end of the content, where only plain characters
/// were left out.
proof fn lemma_rescan_trimmed(t: Seq<char>, text: Seq<char>, a0: int, a1: int, b0: int, end: int)
    requires
        0 <= a0 <= a1 < b0 <= end <= comment_start(t) <= t.len(),
        forall|j: int| 0 <= j < a0 ==> is_plain(#[trigger] t[j]),
        forall|j: int| a1 <= j < b0 ==> is_plain(#[trigger] t[j]),
        forall|j: int| 0 <= j < comment_start(t) ==> !starts_comment(t, j),
        text == t.subrange(a0, a1) + seq!['='] + t.subrange(b0, end),
    ensures
        split_comment(text) == (text, None::<Seq<char>>),
        a0 < a1 ==> text[0] != '#',
{
    let la = a1 - a0;
    let lb = end - b0;
    lemma_scan_plain(t, 0, a0);
    assert(scan_state(t, a0) == scan_state(text, 0));
    assert(text.subrange(0, la) =~= t.subrange(a0, a1));
    lemma_scan_segment(t, text, a0, 0, la);
    assert(scan_state(t, a0 + la) == scan_state(text, 0 + la));
    assert(text[la] == '=');
    lemma_scan_plain(text, la, la + 1);
    lemma_scan_plain(t, a1, b0);
    assert(scan_state(t, b0) == scan_state(text, la + 1));
    assert(text.subrange(la + 1, la + 1 + lb) =~= t.subrange(b0, end));
    lemma_scan_segment(t, text, b0, la + 1, lb);
    assert forall|j: int| 0 <= j < text.len() implies !starts_comment(text, j) by {
        if j < la {
            assert(starts_comment(t, a0 + j) == starts_comment(text, 0 + j));
        } else if j > la {
            let k = j - la - 1;
            assert(starts_comment(t, b0 + k) == starts_comment(text, la + 1 + k));
        }
    }
    lemma_comment_from_is(text, 0, text.len() as int);
    if a0 < a1 && text[0] == '#' {
        assert(t[a0] == '#');
        assert(starts_comment(t, a0));
    }
}

/// Where the trimmed form of a stretch of a text stands in that text.
proof fn lemma_trim_of_stretch(t: Seq<char>, from: int, to: int) -> (r: (int, int))
    requires
        0 <= from <= to <= t.len(),
    ensures
        from <= r.0 <= r.1 <= to,
        trim(t.subrange(from, to)) == t.subrange(r.0, r.1),
        forall|j: int| from <= j < r.0 ==> is_space(#[trigger] t[j]),
        forall|j: int| r.1 <= j < to ==> is_space(#[trigger] t[j]),
        r.0 < r.1 ==> !is_space(t[r.0]) && !is_space(t[r.1 - 1]),
        r.0 == r.1 ==> r.0 == to,
{
    let part = t.subrange(from, to);
    lemma_trim_is_trimmed(part);
    lemma_content_start(part, 0);
    lemma_content_end(part, part.len() as int);
    if trim(part).len() > 0 {
        let a = content_start(part, 0);
        let b = content_end(part, part.len() as int);
        assert(part.subrange(a, b) =~= t.subrange(from + a, from + b));
        assert forall|j: int| from <= j < from + a implies is_space(#[trigger] t[j]) by {
            assert(part[j - from] == t[j]);
        }
        assert forall|j: int| from + b <= j < to implies is_space(#[trigger] t[j]) by {
            assert(part[j - from] == t[j]);
        }
        assert(part[a] == t[from + a]);
        assert(part[b - 1] == t[from + b - 1]);
        (from + a, from + b)
    } else {
        assert(trim(part) =~= t.subrange(to, to));
        assert forall|j: int| from <= j < to implies is_space(#[trigger] t[j]) by {
            assert(part[j - from] == t[j]);
        }
        (to, to)
    }
}

/// The emitted text of an assignment that is trimmed parses again to the
/// trimmed key and the trimmed value, without inline comment, or to an
/// invalid line where one of the two is blank.
pub proof fn lemma_reparse_trimmed(raw: Seq<char>, number: nat, again: nat)
    requires
        classify_spec(raw, number) is KeyValue,
        ({
            let record = classify_spec(raw, number);
            needs_trimming(
                normalized_key(record->key, record->has_export),
                record->value,
                record->inline_comment,
            )
        }),
    ensures
        ({
            let record = classify_spec(raw, number);
            let key = normalized_key(record->key, record->has_export);
            let text = assignment_text(key, record->value, record->inline_comment);
            classify_spec(text, again) == if trim(key).len() == 0 || trim(record->value).len()
                == 0 {
                LineView::Invalid { content: text, line: again }
            } else {
                LineView::KeyValue {
                    key: trim(key),
                    value: trim(record->value),
                    line: again,
                    inline_comment: None,
                    references: Seq::empty(),
                    has_export: starts_with(text, "export "@),
                }
            }
        }),
{
    reveal_strlit("=");
    lemma_assignment_layout(raw, number);
    let t = trim(raw);
    let record = classify_spec(raw, number);
    let value = record->value;
    let at = record->key.len() as int;
    let end = at + 1 + value.len();
    let e: int = if record->has_export {
        7
    } else {
        0
    };
    let key = normalized_key(record->key, record->has_export);
    assert(key =~= t.subrange(e, at)) by {
        if record->has_export {
            assert(starts_with(record->key, "export "@));
        }
    }
    let text = assignment_text(key, value, record->inline_comment);
    let (a0, a1) = lemma_trim_of_stretch(t, e, at);
    let (b0, b1) = lemma_trim_of_stretch(t, at + 1, end);
    assert(b1 == end) by {
        if b1 < end {
            assert(is_space(t[end - 1]));
        }
    }
    let short_key = t.subrange(a0, a1);
    let short_value = t.subrange(b0, end);
    assert(text =~= short_key + seq!['='] + short_value);
    assert forall|j: int| 0 <= j < a0 implies is_plain(#[trigger] t[j]) by {
        if j < e {
            assert(t[j] == record->key.take(7)[j]);
        } else {
            assert(is_space(t[j]));
        }
    }
    assert forall|j: int| a1 <= j < b0 implies is_plain(#[trigger] t[j]) by {
        if j != at {
            assert(is_space(t[j]));
        }
    }
    lemma_rescan_trimmed(t, text, a0, a1, b0, end);
    assert(!short_key.contains('=')) by {
        if short_key.contains('=') {
            let j = choose|j: int| 0 <= j < short_key.len() && short_key[j] == '=';
            lemma_assignment_parts(raw, number);
            assert(record->key[a0 + j] == t[a0 + j]);
            assert(record->key.contains('='));
        }
    }
    assert(is_trimmed(text) && text.len() > 0) by {
        if a0 < a1 {
            assert(text[0] == t[a0]);
        } else {
            assert(text[0] == '=');
        }
        if b0 < end {
            assert(text.last() == t[end - 1]);
        } else {
            assert(text.last() == '=');
        }
    }
    assert(text[0] != '#');
    lemma_trim_idempotent(key);
    lemma_trim_idempotent(value);
    lemma_classify_parts(text, short_key, short_value, None, again);
}

/// The key and value to which the emitted text of the assignment `record`
/// parses again, or `None` where it parses to an invalid line.
pub open spec fn restated(record: LineView) -> Option<(Seq<char>, Seq<char>)>
    recommends
        record is KeyValue,
{
    let key = normalized_key(record->key, record->has_export);
    if needs_trimming(key, record->value, record->inline_comment) {
        if trim(key).len() == 0 || trim(record->value).len() == 0 {
            None
        } else {
            Some((trim(key), trim(record->value)))
        }
    } else if key.len() == 0 {
        None
    } else {
        Some((key, record->value))
    }
}

/// The key to which the emitted text of `record` parses again.
pub open spec fn restated_key(record: LineView) -> Seq<char>
    recommends
        record is KeyValue,
        restated(record) is Some,
{
    match restated(record) {
        Some(pair) => pair.0,
        None => Seq::empty(),
    }
}

/// The value to which the emitted text of `record` parses again.
pub open spec fn restated_value(record: LineView) -> Seq<char>
    recommends
        record is KeyValue,
        restated(record) is Some,
{
    match restated(record) {
        Some(pair) => pair.1,
        None => Seq::empty(),
    }
}

/// The text that the formatter emits for `record`, without the line feed.
pub open spec fn emitted_text(record: LineView) -> Seq<char> {
    match record {
        LineView::Comment(text) => text,
        LineView::Empty => Seq::empty(),
        LineView::Invalid { .. } => Seq::empty(),
        LineView::KeyValue { key, value, inline_comment, has_export, .. } => assignment_text(
            normalized_key(key, has_export),
            value,
            inline_comment,
        ),
    }
}

/// Whether `record` is what the parser makes of some line.
pub open spec fn is_parsed(record: LineView) -> bool {
    exists|raw: Seq<char>, number: nat|
        !raw.contains('\n') && record == #[trigger] parse_line_spec(raw, number)
}

/// The emitted text of a parsed assignment parses again as `restated` says.
pub proof fn lemma_reparse_assignment(record: LineView, again: nat)
    requires
        is_parsed(record),
        record is KeyValue,
    ensures
        match restated(record) {
            None => classify_spec(emitted_text(record), again) is Invalid,
            Some((key, value)) => {
                &&& classify_spec(emitted_text(record), again) is KeyValue
                &&& classify_spec(emitted_text(record), again)->key == key
                &&& classify_spec(emitted_text(record), again)->value == value
                &&& key == registered_key(
                    normalized_key(record->key, record->has_export),
                    record->value,
                    record->inline_comment,
                )
                &&& trim(key).len() > 0
            },
        },
{
    let (raw, number) = choose|raw: Seq<char>, number: nat|
        !raw.contains('\n') && record == #[trigger] parse_line_spec(raw, number);
    let plain = classify_spec(raw, number);
    assert(plain is KeyValue);
    assert(plain->key == record->key && plain->value == record->value && plain->has_export
        == record->has_export && plain->inline_comment == record->inline_comment);
    let key = normalized_key(record->key, record->has_export);
    if needs_trimming(key, record->value, record->inline_comment) {
        lemma_reparse_trimmed(raw, number, again);
        lemma_trim_idempotent(key);
    } else {
        lemma_reparse_untrimmed(raw, number, again);
        lemma_trim_without_space(key);
    }
}

/// The emitted text of a parsed comment or blank line parses again to the
/// same record.
pub proof fn lemma_reparse_other(record: LineView, again: nat)
    requires
        is_parsed(record),
        record is Comment || record is Empty,
    ensures
        classify_spec(emitted_text(record), again) == record,
{
    let (raw, number) = choose|raw: Seq<char>, number: nat|
        !raw.contains('\n') && record == #[trigger] parse_line_spec(raw, number);
    lemma_trim_is_trimmed(raw);
    match record {
        LineView::Comment(text) => {
            assert(text == trim(raw));
            lemma_trim_fixed(text);
        },
        _ => {
            let nothing = Seq::<char>::empty();
            lemma_trim_is_trimmed(nothing);
            assert(trim(nothing).len() == 0);
        },
    }
}

/// The emitted text of a parsed record holds no line feed.
pub proof fn lemma_emitted_text_holds_no_feed(record: LineView)
    requires
        is_parsed(record),
    ensures
        !emitted_text(record).contains('\n'),
{
    let (raw, number) = choose|raw: Seq<char>, number: nat|
        !raw.contains('\n') && record == #[trigger] parse_line_spec(raw, number);
    let t = trim(raw);
    lemma_trim_holds_no_feed(raw);
    match record {
        LineView::KeyValue { key, value, inline_comment, has_export, .. } => {
            lemma_assignment_layout(raw, number);
            let at = key.len() as int;
            let end = at + 1 + value.len();
            lemma_part_holds_no_feed(t, 0, at);
            lemma_part_holds_no_feed(t, at + 1, end);
            let nk = normalized_key(key, has_export);
            assert(!nk.contains('\n')) by {
                if nk != key {
                    lemma_part_holds_no_feed(key, 7, key.len() as int);
                }
            }
            let comment = match inline_comment {
                Some(c) => c,
                None => Seq::empty(),
            };
            assert(!comment.contains('\n')) by {
                if inline_comment is Some {
                    lemma_part_holds_no_feed(t, comment_start(t), t.len() as int);
                } else if comment.contains('\n') {
                    let k = choose|k: int| 0 <= k < comment.len() && comment[k] == '\n';
                }
            }
            lemma_assignment_text_holds_no_feed(nk, value, inline_comment);
        },
        LineView::Comment(c) => {},
        _ => {
            let text = emitted_text(record);
            if text.contains('\n') {
                let k = choose|k: int| 0 <= k < text.len() && text[k] == '\n';
            }
        },
    }
}

/// The text of an assignment holds no line feed where its parts hold none.
proof fn lemma_assignment_text_holds_no_feed(
    key: Seq<char>,
    value: Seq<char>,
    inline_comment: Option<Seq<char>>,
)
    requires
        !key.contains('\n'),
        !value.contains('\n'),
        inline_comment matches Some(c) ==> !c.contains('\n'),
    ensures
        !assignment_text(key, value, inline_comment).contains('\n'),
{
    reveal_strlit("=");
    reveal_strlit(" ");
    let equals = "="@;
    let space = " "@;
    assert(!equals.contains('\n')) by {
        if equals.contains('\n') {
            let k = choose|k: int| 0 <= k < equals.len() && equals[k] == '\n';
        }
    }
    assert(!space.contains('\n')) by {
        if space.contains('\n') {
            let k = choose|k: int| 0 <= k < space.len() && space[k] == '\n';
        }
    }
    if needs_trimming(key, value, inline_comment) {
        lemma_trim_holds_no_feed(key);
        lemma_trim_holds_no_feed(value);
        lemma_concat_holds_no_feed(trim(key), equals);
        lemma_concat_holds_no_feed(trim(key) + equals, trim(value));
    } else {
        lemma_concat_holds_no_feed(key, equals);
        lemma_concat_holds_no_feed(key + equals, value);
        if let Some(c) = inline_comment {
            lemma_concat_holds_no_feed(key + equals + value, space);
            lemma_concat_holds_no_feed(key + equals + value + space, c);
        }
    }
}

} // verus!
