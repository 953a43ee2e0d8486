//! What holds of the validator's findings.

use crate::parser::{defined_keys, has_duplicate_key, LineView};
use crate::text::trim;
use crate::validator::{
    all_issues, assignment_issues, assignment_lines, assigns, group_issues, has_hard_error,
    invalid_issues, is_hard_error, key_issues, missing_keys, reference_issues,
    repeated_assignment_issues, undefined_names, validate_spec, IssueView,
};
use vstd::prelude::*;

verus! {

/// Whether `record` is an assignment whose key or value is blank.
pub open spec fn is_blank_assignment(record: LineView) -> bool {
    record is KeyValue && (trim(record->key).len() == 0 || trim(record->value).len() == 0)
}

/// Whether some line of `lines` is an assignment whose key or value is blank.
pub open spec fn has_blank_assignment(lines: Seq<LineView>) -> bool {
    exists|i: int| 0 <= i < lines.len() && is_blank_assignment(#[trigger] lines[i])
}

/// A hard error among `a + b` is one among `a` or one among `b`.
pub proof fn lemma_hard_error_concat(a: Seq<IssueView>, b: Seq<IssueView>)
    ensures
        has_hard_error(a + b) <==> has_hard_error(a) || has_hard_error(b),
{
    if has_hard_error(a + b) {
        let i = choose|i: int| 0 <= i < (a + b).len() && is_hard_error(#[trigger] (a + b)[i]);
        if i < a.len() {
            assert(is_hard_error(a[i]));
        } else {
            assert(is_hard_error(b[i - a.len()]));
        }
    }
    if has_hard_error(a) {
        let i = choose|i: int| 0 <= i < a.len() && is_hard_error(#[trigger] a[i]);
        assert(is_hard_error((a + b)[i]));
    }
    if has_hard_error(b) {
        let i = choose|i: int| 0 <= i < b.len() && is_hard_error(#[trigger] b[i]);
        assert(is_hard_error((a + b)[i + a.len()]));
    }
}

/// A missing required key is no hard error.
pub proof fn lemma_missing_keys_are_advisory(required: Seq<Seq<char>>, present: Seq<Seq<char>>)
    ensures
        !has_hard_error(missing_keys(required, present)),
    decreases required.len(),
{
    if required.len() > 0 {
        lemma_missing_keys_are_advisory(required.drop_last(), present);
        let rest = missing_keys(required.drop_last(), present);
        if !present.contains(required.last()) {
            let one = seq![IssueView::MissingRequired { key: required.last() }];
            assert(missing_keys(required, present) =~= rest + one);
            lemma_hard_error_concat(rest, one);
            if has_hard_error(one) {
                let i = choose|i: int| 0 <= i < one.len() && is_hard_error(#[trigger] one[i]);
            }
        }
    }
}

/// An invalid line is no hard error.
pub proof fn lemma_invalid_lines_are_advisory(lines: Seq<LineView>)
    ensures
        !has_hard_error(invalid_issues(lines)),
    decreases lines.len(),
{
    if lines.len() > 0 {
        lemma_invalid_lines_are_advisory(lines.drop_last());
        let rest = invalid_issues(lines.drop_last());
        if let LineView::Invalid { content, line } = lines.last() {
            let one = seq![IssueView::InvalidLine { content, line }];
            assert(invalid_issues(lines) =~= rest + one);
            lemma_hard_error_concat(rest, one);
            if has_hard_error(one) {
                let i = choose|i: int| 0 <= i < one.len() && is_hard_error(#[trigger] one[i]);
            }
        }
    }
}

proof fn lemma_undefined_names_are_advisory(
    key: Seq<char>,
    names: Seq<Seq<char>>,
    line: nat,
    defined: Seq<Seq<char>>,
)
    ensures
        !has_hard_error(undefined_names(key, names, line, defined)),
    decreases names.len(),
{
    if names.len() > 0 {
        lemma_undefined_names_are_advisory(key, names.drop_last(), line, defined);
        let rest = undefined_names(key, names.drop_last(), line, defined);
        if !defined.contains(names.last()) {
            let one = seq![IssueView::UndefinedReference { key, name: names.last(), line }];
            assert(undefined_names(key, names, line, defined) =~= rest + one);
            lemma_hard_error_concat(rest, one);
            if has_hard_error(one) {
                let i = choose|i: int| 0 <= i < one.len() && is_hard_error(#[trigger] one[i]);
            }
        }
    }
}

/// An undefined reference is no hard error.
pub proof fn lemma_references_are_advisory(lines: Seq<LineView>, defined: Seq<Seq<char>>)
    ensures
        !has_hard_error(reference_issues(lines, defined)),
    decreases lines.len(),
{
    if lines.len() > 0 {
        lemma_references_are_advisory(lines.drop_last(), defined);
        if let LineView::KeyValue { key, line, references, .. } = lines.last() {
            lemma_undefined_names_are_advisory(key, references, line, defined);
            lemma_hard_error_concat(
                reference_issues(lines.drop_last(), defined),
                undefined_names(key, references, line, defined),
            );
        }
    }
}

/// The issues of one assignment hold a hard error exactly where its key or
/// its value is blank.
pub proof fn lemma_assignment_hard_error(record: LineView)
    ensures
        has_hard_error(assignment_issues(record)) <==> is_blank_assignment(record),
{
    let issues = assignment_issues(record);
    if let LineView::KeyValue { key, value, line, inline_comment, .. } = record {
        if trim(key).len() == 0 {
            let at = issues.len() - 1 - (if trim(value).len() == 0 {
                1int
            } else {
                0int
            });
            assert(is_hard_error(issues[at]));
        }
        if trim(value).len() == 0 {
            assert(is_hard_error(issues[issues.len() - 1]));
        }
        if has_hard_error(issues) {
            let i = choose|i: int| 0 <= i < issues.len() && is_hard_error(#[trigger] issues[i]);
        }
    } else {
        if has_hard_error(issues) {
            let i = choose|i: int| 0 <= i < issues.len() && is_hard_error(#[trigger] issues[i]);
        }
    }
}

/// The issues of the assignments to `key` hold a hard error exactly where one
/// of these assignments has a blank key or value.
pub proof fn lemma_repeated_hard_error(lines: Seq<LineView>, key: Seq<char>)
    ensures
        has_hard_error(repeated_assignment_issues(lines, key)) <==> exists|i: int|
            0 <= i < lines.len() && assigns(#[trigger] lines[i], key) && is_blank_assignment(
                lines[i],
            ),
    decreases lines.len(),
{
    if lines.len() == 0 {
        if has_hard_error(repeated_assignment_issues(lines, key)) {
            let i = choose|i: int|
                0 <= i < repeated_assignment_issues(lines, key).len() && is_hard_error(
                    #[trigger] repeated_assignment_issues(lines, key)[i],
                );
        }
    } else {
        let head = lines.drop_last();
        lemma_repeated_hard_error(head, key);
        if assigns(lines.last(), key) {
            lemma_assignment_hard_error(lines.last());
            lemma_hard_error_concat(
                repeated_assignment_issues(head, key),
                assignment_issues(lines.last()),
            );
        }
        if has_hard_error(repeated_assignment_issues(lines, key)) {
            if has_hard_error(repeated_assignment_issues(head, key)) {
                let i = choose|i: int|
                    0 <= i < head.len() && assigns(#[trigger] head[i], key)
                        && is_blank_assignment(head[i]);
                assert(lines[i] == head[i]);
            } else {
                assert(assigns(lines[lines.len() - 1], key));
            }
        }
        if exists|i: int|
            0 <= i < lines.len() && assigns(#[trigger] lines[i], key) && is_blank_assignment(
                lines[i],
            ) {
            let i = choose|i: int|
                0 <= i < lines.len() && assigns(#[trigger] lines[i], key) && is_blank_assignment(
                    lines[i],
                );
            if i < head.len() {
                assert(head[i] == lines[i]);
            }
        }
    }
}

/// Several lines are listed for `key` exactly where two lines assign it.
pub proof fn lemma_assignment_lines_count(lines: Seq<LineView>, key: Seq<char>)
    ensures
        assignment_lines(lines, key).len() > 0 <==> exists|i: int|
            0 <= i < lines.len() && assigns(#[trigger] lines[i], key),
        assignment_lines(lines, key).len() > 1 <==> exists|i: int, j: int|
            0 <= i < j < lines.len() && assigns(#[trigger] lines[i], key) && assigns(
                #[trigger] lines[j],
                key,
            ),
    decreases lines.len(),
{
    if lines.len() > 0 {
        let head = lines.drop_last();
        let last = lines.len() - 1;
        lemma_assignment_lines_count(head, key);
        assert forall|i: int| 0 <= i < head.len() implies head[i] == lines[i] by {}
        if assignment_lines(lines, key).len() > 0 {
            if assigns(lines.last(), key) {
                assert(assigns(lines[last], key));
            } else {
                let i = choose|i: int| 0 <= i < head.len() && assigns(#[trigger] head[i], key);
                assert(assigns(lines[i], key));
            }
        }
        if exists|i: int| 0 <= i < lines.len() && assigns(#[trigger] lines[i], key) {
            let i = choose|i: int| 0 <= i < lines.len() && assigns(#[trigger] lines[i], key);
            if i < last {
                assert(assigns(head[i], key));
            }
        }
        if assignment_lines(lines, key).len() > 1 {
            if assigns(lines.last(), key) {
                let i = choose|i: int| 0 <= i < head.len() && assigns(#[trigger] head[i], key);
                assert(assigns(lines[i], key) && assigns(lines[last], key));
            } else {
                let (i, j) = choose|i: int, j: int|
                    0 <= i < j < head.len() && assigns(#[trigger] head[i], key) && assigns(
                        #[trigger] head[j],
                        key,
                    );
                assert(assigns(lines[i], key) && assigns(lines[j], key));
            }
        }
        if exists|i: int, j: int|
            0 <= i < j < lines.len() && assigns(#[trigger] lines[i], key) && assigns(
                #[trigger] lines[j],
                key,
            ) {
            let (i, j) = choose|i: int, j: int|
                0 <= i < j < lines.len() && assigns(#[trigger] lines[i], key) && assigns(
                    #[trigger] lines[j],
                    key,
                );
            assert(assigns(head[i], key));
            if j < last {
                assert(assigns(head[j], key));
            }
        }
    }
}

/// The issues of `key` hold a hard error exactly where two lines assign it or
/// one of its assignments has a blank key or value.
pub proof fn lemma_group_hard_error(lines: Seq<LineView>, key: Seq<char>)
    ensures
        has_hard_error(group_issues(lines, key)) <==> (exists|i: int, j: int|
            0 <= i < j < lines.len() && assigns(#[trigger] lines[i], key) && assigns(
                #[trigger] lines[j],
                key,
            )) || (exists|i: int|
            0 <= i < lines.len() && assigns(#[trigger] lines[i], key) && is_blank_assignment(
                lines[i],
            )),
{
    lemma_assignment_lines_count(lines, key);
    lemma_repeated_hard_error(lines, key);
    let duplicate = if assignment_lines(lines, key).len() > 1 {
        seq![IssueView::DuplicateKey { key, lines: assignment_lines(lines, key) }]
    } else {
        Seq::empty()
    };
    lemma_hard_error_concat(duplicate, repeated_assignment_issues(lines, key));
    if assignment_lines(lines, key).len() > 1 {
        assert(is_hard_error(duplicate[0]));
    } else if has_hard_error(duplicate) {
        let i = choose|i: int| 0 <= i < duplicate.len() && is_hard_error(#[trigger] duplicate[i]);
    }
}

/// The issues of the first `count` keys hold a hard error exactly where those
/// of one of these keys do.
pub proof fn lemma_key_issues_hard_error(lines: Seq<LineView>, keys: Seq<Seq<char>>, count: int)
    requires
        0 <= count <= keys.len(),
    ensures
        has_hard_error(key_issues(lines, keys, count)) <==> exists|g: int|
            0 <= g < count && has_hard_error(#[trigger] group_issues(lines, keys[g])),
    decreases count,
{
    if count == 0 {
        if has_hard_error(key_issues(lines, keys, count)) {
            let i = choose|i: int|
                0 <= i < key_issues(lines, keys, count).len() && is_hard_error(
                    #[trigger] key_issues(lines, keys, count)[i],
                );
        }
    } else {
        lemma_key_issues_hard_error(lines, keys, count - 1);
        let key = keys[count - 1];
        let earlier = keys.take(count - 1);
        if earlier.contains(key) {
            let g = choose|g: int| 0 <= g < earlier.len() && earlier[g] == key;
            assert(keys[g] == key);
            if has_hard_error(group_issues(lines, key)) {
                assert(has_hard_error(group_issues(lines, keys[g])));
            }
        } else {
            lemma_hard_error_concat(key_issues(lines, keys, count - 1), group_issues(lines, key));
        }
        if exists|g: int|
            0 <= g < count && has_hard_error(#[trigger] group_issues(lines, keys[g])) {
            let g = choose|g: int|
                0 <= g < count && has_hard_error(#[trigger] group_issues(lines, keys[g]));
            if g < count - 1 {
                assert(has_hard_error(group_issues(lines, keys[g])));
            }
        }
    }
}

/// Whether some line of `lines` assigns `key`.
pub open spec fn is_assigned(lines: Seq<LineView>, key: Seq<char>) -> bool {
    exists|i: int| 0 <= i < lines.len() && assigns(#[trigger] lines[i], key)
}

/// The keys of `lines` are those that some line assigns.
pub proof fn lemma_defined_keys(lines: Seq<LineView>)
    ensures
        forall|g: int|
            0 <= g < defined_keys(lines).len() ==> is_assigned(
                lines,
                #[trigger] defined_keys(lines)[g],
            ),
        forall|i: int|
            0 <= i < lines.len() && #[trigger] lines[i] is KeyValue ==> defined_keys(
                lines,
            ).contains(lines[i]->key),
    decreases lines.len(),
{
    if lines.len() > 0 {
        let head = lines.drop_last();
        lemma_defined_keys(head);
        let keys = defined_keys(lines);
        assert forall|g: int| 0 <= g < keys.len() implies is_assigned(lines, #[trigger] keys[g]) by {
            if g < defined_keys(head).len() {
                assert(is_assigned(head, defined_keys(head)[g]));
                let i = choose|i: int|
                    0 <= i < head.len() && assigns(#[trigger] head[i], defined_keys(head)[g]);
                assert(assigns(lines[i], keys[g]));
            } else {
                assert(assigns(lines[lines.len() - 1], keys[g]));
            }
        }
        assert forall|i: int| 0 <= i < lines.len() && #[trigger] lines[i] is KeyValue implies keys.contains(
            lines[i]->key,
        ) by {
            if i < head.len() {
                assert(head[i] is KeyValue);
                let g = choose|g: int|
                    0 <= g < defined_keys(head).len() && defined_keys(head)[g] == head[i]->key;
                assert(keys[g] == lines[i]->key);
            } else {
                assert(keys[keys.len() - 1] == lines[i]->key);
            }
        }
    }
}

/// The issues of `lines` hold a hard error exactly where two lines assign one
/// key, or an assignment has a blank key or value.
pub proof fn lemma_hard_error_iff(lines: Seq<LineView>, example: Option<Seq<LineView>>)
    ensures
        has_hard_error(all_issues(lines, example)) <==> has_duplicate_key(lines)
            || has_blank_assignment(lines),
{
    let keys = defined_keys(lines);
    let missing = match example {
        Some(e) => missing_keys(defined_keys(e), keys),
        None => Seq::empty(),
    };
    let invalid = invalid_issues(lines);
    let by_key = key_issues(lines, keys, keys.len() as int);
    let undefined = reference_issues(lines, keys);
    match example {
        Some(e) => {
            lemma_missing_keys_are_advisory(defined_keys(e), keys);
        },
        None => {
            if has_hard_error(missing) {
                let i = choose|i: int| 0 <= i < missing.len() && is_hard_error(#[trigger] missing[i]);
            }
        },
    }
    lemma_invalid_lines_are_advisory(lines);
    lemma_references_are_advisory(lines, keys);
    lemma_hard_error_concat(missing, invalid);
    lemma_hard_error_concat(missing + invalid, by_key);
    lemma_hard_error_concat(missing + invalid + by_key, undefined);
    lemma_key_issues_hard_error(lines, keys, keys.len() as int);
    lemma_defined_keys(lines);
    if has_hard_error(by_key) {
        let g = choose|g: int|
            0 <= g < keys.len() && has_hard_error(#[trigger] group_issues(lines, keys[g]));
        lemma_group_hard_error(lines, keys[g]);
        if exists|i: int, j: int|
            0 <= i < j < lines.len() && assigns(#[trigger] lines[i], keys[g]) && assigns(
                #[trigger] lines[j],
                keys[g],
            ) {
            let (i, j) = choose|i: int, j: int|
                0 <= i < j < lines.len() && assigns(#[trigger] lines[i], keys[g]) && assigns(
                    #[trigger] lines[j],
                    keys[g],
                );
            assert(lines[i] is KeyValue && lines[j] is KeyValue);
        } else {
            let i = choose|i: int|
                0 <= i < lines.len() && assigns(#[trigger] lines[i], keys[g])
                    && is_blank_assignment(lines[i]);
            assert(is_blank_assignment(lines[i]));
        }
    }
    if has_duplicate_key(lines) {
        let (i, j) = choose|i: int, j: int|
            0 <= i < j < lines.len() && #[trigger] lines[i] is KeyValue && #[trigger] lines[j]
                is KeyValue && lines[i]->key == lines[j]->key;
        let key = lines[i]->key;
        let g = choose|g: int| 0 <= g < keys.len() && keys[g] == key;
        assert(assigns(lines[i], key) && assigns(lines[j], key));
        lemma_group_hard_error(lines, keys[g]);
        assert(has_hard_error(group_issues(lines, keys[g])));
    }
    if has_blank_assignment(lines) {
        let i = choose|i: int| 0 <= i < lines.len() && is_blank_assignment(#[trigger] lines[i]);
        let key = lines[i]->key;
        let g = choose|g: int| 0 <= g < keys.len() && keys[g] == key;
        assert(assigns(lines[i], key));
        lemma_group_hard_error(lines, keys[g]);
        assert(has_hard_error(group_issues(lines, keys[g])));
    }
}

/// A file in which two lines assign one key fails validation in strict mode,
/// and passes without it.
pub proof fn lemma_duplicate_fails_only_in_strict_mode(
    lines: Seq<LineView>,
    example: Option<Seq<LineView>>,
)
    requires
        has_duplicate_key(lines),
    ensures
        !validate_spec(lines, example, true).valid,
        validate_spec(lines, example, false).valid,
        validate_spec(lines, example, true).issues == validate_spec(lines, example, false).issues,
{
    lemma_hard_error_iff(lines, example);
}

/// Without strict mode every file passes validation; in strict mode a file
/// passes exactly where no two lines assign one key and no assignment has a
/// blank key or value.
pub proof fn lemma_verdict(lines: Seq<LineView>, example: Option<Seq<LineView>>, error_mode: bool)
    ensures
        validate_spec(lines, example, error_mode).valid <==> !error_mode || !(has_duplicate_key(
            lines,
        ) || has_blank_assignment(lines)),
{
    lemma_hard_error_iff(lines, example);
}

/// Every invalid line is reported, with its content and its line number.
pub proof fn lemma_invalid_line_is_reported(
    lines: Seq<LineView>,
    example: Option<Seq<LineView>>,
    at: int,
)
    requires
        0 <= at < lines.len(),
        lines[at] is Invalid,
    ensures
        all_issues(lines, example).contains(
            IssueView::InvalidLine { content: lines[at]->content, line: lines[at]->Invalid_line },
        ),
{
    let issue = IssueView::InvalidLine {
        content: lines[at]->content,
        line: lines[at]->Invalid_line,
    };
    lemma_invalid_issues_hold(lines, at);
    let keys = defined_keys(lines);
    let missing = match example {
        Some(e) => missing_keys(defined_keys(e), keys),
        None => Seq::empty(),
    };
    let invalid = invalid_issues(lines);
    let k = choose|k: int| 0 <= k < invalid.len() && invalid[k] == issue;
    assert(all_issues(lines, example)[missing.len() + k] == issue);
}

proof fn lemma_invalid_issues_hold(lines: Seq<LineView>, at: int)
    requires
        0 <= at < lines.len(),
        lines[at] is Invalid,
    ensures
        invalid_issues(lines).contains(
            IssueView::InvalidLine { content: lines[at]->content, line: lines[at]->Invalid_line },
        ),
    decreases lines.len(),
{
    let issue = IssueView::InvalidLine {
        content: lines[at]->content,
        line: lines[at]->Invalid_line,
    };
    let issues = invalid_issues(lines);
    if at == lines.len() - 1 {
        assert(issues[issues.len() - 1] == issue);
    } else {
        lemma_invalid_issues_hold(lines.drop_last(), at);
        let before = invalid_issues(lines.drop_last());
        let k = choose|k: int| 0 <= k < before.len() && before[k] == issue;
        assert(issues[k] == issue);
    }
}

proof fn lemma_undefined_names_hold(
    key: Seq<char>,
    names: Seq<Seq<char>>,
    line: nat,
    defined: Seq<Seq<char>>,
    which: int,
)
    requires
        0 <= which < names.len(),
        !defined.contains(names[which]),
    ensures
        undefined_names(key, names, line, defined).contains(
            IssueView::UndefinedReference { key, name: names[which], line },
        ),
    decreases names.len(),
{
    let issue = IssueView::UndefinedReference { key, name: names[which], line };
    let issues = undefined_names(key, names, line, defined);
    if which == names.len() - 1 {
        assert(issues[issues.len() - 1] == issue);
    } else {
        lemma_undefined_names_hold(key, names.drop_last(), line, defined, which);
        let before = undefined_names(key, names.drop_last(), line, defined);
        let k = choose|k: int| 0 <= k < before.len() && before[k] == issue;
        assert(issues[k] == issue);
    }
}

proof fn lemma_reference_issues_hold(
    lines: Seq<LineView>,
    defined: Seq<Seq<char>>,
    at: int,
    which: int,
)
    requires
        0 <= at < lines.len(),
        lines[at] is KeyValue,
        0 <= which < lines[at]->references.len(),
        !defined.contains(lines[at]->references[which]),
    ensures
        reference_issues(lines, defined).contains(
            IssueView::UndefinedReference {
                key: lines[at]->key,
                name: lines[at]->references[which],
                line: lines[at]->KeyValue_line,
            },
        ),
    decreases lines.len(),
{
    let issue = IssueView::UndefinedReference {
        key: lines[at]->key,
        name: lines[at]->references[which],
        line: lines[at]->KeyValue_line,
    };
    let issues = reference_issues(lines, defined);
    let before = reference_issues(lines.drop_last(), defined);
    if at == lines.len() - 1 {
        lemma_undefined_names_hold(
            lines[at]->key,
            lines[at]->references,
            lines[at]->KeyValue_line,
            defined,
            which,
        );
        let own = undefined_names(
            lines[at]->key,
            lines[at]->references,
            lines[at]->KeyValue_line,
            defined,
        );
        let k = choose|k: int| 0 <= k < own.len() && own[k] == issue;
        assert(issues[before.len() + k] == issue);
    } else {
        lemma_reference_issues_hold(lines.drop_last(), defined, at, which);
        let k = choose|k: int| 0 <= k < before.len() && before[k] == issue;
        assert(issues[k] == issue);
    }
}

/// Every reference to a name that no line of the file defines is reported,
/// with the key that refers, the name, and the line number.
pub proof fn lemma_undefined_reference_is_reported(
    lines: Seq<LineView>,
    example: Option<Seq<LineView>>,
    at: int,
    which: int,
)
    requires
        0 <= at < lines.len(),
        lines[at] is KeyValue,
        0 <= which < lines[at]->references.len(),
        !defined_keys(lines).contains(lines[at]->references[which]),
    ensures
        all_issues(lines, example).contains(
            IssueView::UndefinedReference {
                key: lines[at]->key,
                name: lines[at]->references[which],
                line: lines[at]->KeyValue_line,
            },
        ),
{
    let issue = IssueView::UndefinedReference {
        key: lines[at]->key,
        name: lines[at]->references[which],
        line: lines[at]->KeyValue_line,
    };
    let keys = defined_keys(lines);
    lemma_reference_issues_hold(lines, keys, at, which);
    let undefined = reference_issues(lines, keys);
    let all = all_issues(lines, example);
    let k = choose|k: int| 0 <= k < undefined.len() && undefined[k] == issue;
    assert(all[all.len() - undefined.len() + k] == issue);
}


} // verus!
