//! The sorter: the assignments of a file in alphabetical order, or grouped by
//! the prefix of their keys.

use crate::order::{arrange, positions, sort_keys, sorted_positions, stable_order};
use crate::parser::{has_assignment, parse_env_file, parse_spec, Line, LineView};
use crate::references::{reference_pattern, regex_compiles, ParseError};
use crate::text::{chars_of, find_from, index_of, seen_before, text_equal};
use vstd::prelude::*;
use vstd::string::*;

verus! {

/// The upper-case form of `text`, as `str::to_uppercase` computes it.
pub uninterp spec fn uppercase(text: Seq<char>) -> Seq<char>;

/// The upper-case form of `text`: what `str::to_uppercase` of the standard
/// library returns, which follows the Unicode case mappings. Nothing more is
/// claimed of the result than that it is a function of `text`.
#[verifier::external_body]
fn to_upper(text: &str) -> (r: String)
    ensures
        r@ == uppercase(text@),
{
    text.to_uppercase()
}

/// The key and value of each assignment among `lines`, in order.
pub open spec fn pairs_of(lines: Seq<LineView>) -> Seq<(Seq<char>, Seq<char>)>
    decreases lines.len(),
{
    if lines.len() == 0 {
        Seq::empty()
    } else {
        match lines.last() {
            LineView::KeyValue { key, value, .. } => pairs_of(lines.drop_last()).push((key, value)),
            _ => pairs_of(lines.drop_last()),
        }
    }
}

/// The keys of `pairs`.
pub open spec fn pair_keys(pairs: Seq<(Seq<char>, Seq<char>)>) -> Seq<Seq<char>> {
    Seq::new(pairs.len(), |i: int| pairs[i].0)
}

/// `pairs` in ascending order of their keys; pairs with the same key stay in
/// the order in which they stand.
pub open spec fn sorted_pairs(pairs: Seq<(Seq<char>, Seq<char>)>) -> Seq<(Seq<char>, Seq<char>)> {
    arrange(pairs, stable_order(pair_keys(pairs), pairs.len() as int))
}

/// One line `key=value` for each of `pairs`.
pub open spec fn render_pairs(pairs: Seq<(Seq<char>, Seq<char>)>) -> Seq<char>
    decreases pairs.len(),
{
    if pairs.len() == 0 {
        Seq::empty()
    } else {
        render_pairs(pairs.drop_last()) + pairs.last().0 + "="@ + pairs.last().1 + "\n"@
    }
}

/// The group of `key`: what stands before its first `_`, or `MISC` for a key
/// without one.
pub open spec fn label_of(key: Seq<char>) -> Seq<char> {
    let i = index_of(key, '_');
    if i == key.len() {
        "MISC"@
    } else {
        key.take(i)
    }
}

/// The group of each of `pairs`.
pub open spec fn pair_labels(pairs: Seq<(Seq<char>, Seq<char>)>) -> Seq<Seq<char>> {
    Seq::new(pairs.len(), |i: int| label_of(pairs[i].0))
}

/// The pairs of the group `label`, in order.
pub open spec fn members(pairs: Seq<(Seq<char>, Seq<char>)>, label: Seq<char>) -> Seq<
    (Seq<char>, Seq<char>),
>
    decreases pairs.len(),
{
    if pairs.len() == 0 {
        Seq::empty()
    } else if label_of(pairs.last().0) == label {
        members(pairs.drop_last(), label).push(pairs.last())
    } else {
        members(pairs.drop_last(), label)
    }
}

/// A group as text: the header with `shown` as the group's name, the pairs,
/// and a blank line.
pub open spec fn group_text(shown: Seq<char>, entries: Seq<(Seq<char>, Seq<char>)>) -> Seq<
    char,
> {
    "# "@ + shown + "\n"@ + render_pairs(entries) + "\n"@
}

/// The groups of the first `count` of `pairs`, each where its first pair
/// stands, with its members sorted by key.
pub open spec fn groups_text(pairs: Seq<(Seq<char>, Seq<char>)>, count: int) -> Seq<char>
    decreases count,
{
    let labels = pair_labels(pairs);
    if count <= 0 {
        Seq::empty()
    } else if labels.take(count - 1).contains(labels[count - 1]) {
        groups_text(pairs, count - 1)
    } else {
        groups_text(pairs, count - 1) + group_text(
            uppercase(labels[count - 1]),
            sorted_pairs(members(pairs, labels[count - 1])),
        )
    }
}

/// The sorted text of `lines`: all assignments by key and a blank line, or
/// the groups in the order in which they first occur.
pub open spec fn sort_spec(lines: Seq<LineView>, alpha: bool) -> Seq<char> {
    let pairs = pairs_of(lines);
    if alpha {
        render_pairs(sorted_pairs(pairs)) + "\n"@
    } else {
        groups_text(pairs, pairs.len() as int)
    }
}

/// The key and value of each assignment among `lines`.
fn collect_pairs(lines: &[Line]) -> (pairs: Vec<(String, String)>)
    ensures
        pairs.deep_view() == pairs_of(lines.deep_view()),
{
    let ghost all = lines.deep_view();
    let mut pairs: Vec<(String, String)> = Vec::new();
    let mut i: usize = 0;
    assert(pairs.deep_view() =~= pairs_of(all.take(0)));
    while i < lines.len()
        invariant
            i <= lines.len(),
            all == lines.deep_view(),
            pairs.deep_view() == pairs_of(all.take(i as int)),
        decreases lines.len() - i,
    {
        assert(all.take(i + 1).drop_last() =~= all.take(i as int));
        assert(all.take(i + 1).last() == lines[i as int]@);
        if let Line::KeyValue { key, value, .. } = &lines[i] {
            let ghost before = pairs.deep_view();
            pairs.push((key.clone(), value.clone()));
            assert(pairs.deep_view() =~= before.push((key@, value@)));
        }
        i += 1;
    }
    assert(all.take(lines.len() as int) =~= all);
    pairs
}

/// Appends to `out` one line for each of `pairs`, in ascending order of their
/// keys.
fn push_sorted(out: &mut String, pairs: &Vec<(String, String)>)
    ensures
        final(out)@ == old(out)@ + render_pairs(sorted_pairs(pairs.deep_view())),
{
    let mut keys: Vec<Vec<char>> = Vec::new();
    let mut i: usize = 0;
    while i < pairs.len()
        invariant
            i <= pairs.len(),
            keys.len() == i,
            forall|j: int| 0 <= j < i ==> keys[j]@ == pairs[j].0@,
        decreases pairs.len() - i,
    {
        keys.push(chars_of(pairs[i].0.as_str()));
        i += 1;
    }
    let order = sorted_positions(&keys);
    assert(sort_keys(keys@) =~= pair_keys(pairs.deep_view()));
    let ghost sorted = sorted_pairs(pairs.deep_view());
    let mut k: usize = 0;
    assert(old(out)@ + render_pairs(sorted.take(0)) =~= old(out)@);
    while k < order.len()
        invariant
            k <= order.len() == pairs.len(),
            forall|j: int| 0 <= j < order.len() ==> order[j] < pairs.len(),
            sorted == arrange(pairs.deep_view(), positions(order@)),
            out@ == old(out)@ + render_pairs(sorted.take(k as int)),
        decreases order.len() - k,
    {
        let pair = &pairs[order[k]];
        assert(sorted.take(k + 1).drop_last() =~= sorted.take(k as int));
        assert(sorted.take(k + 1).last() == (pair.0@, pair.1@));
        out.append(pair.0.as_str());
        out.append("=");
        out.append(pair.1.as_str());
        out.append("\n");
        assert(out@ =~= old(out)@ + render_pairs(sorted.take(k + 1)));
        k += 1;
    }
    assert(sorted.take(order.len() as int) =~= sorted);
}

/// The group of `key`.
fn label(key: &str) -> (r: String)
    ensures
        r@ == label_of(key@),
{
    let v = chars_of(key);
    let mut i: usize = 0;
    while i < v.len() && v[i] != '_'
        invariant
            i <= v.len(),
            v@ == key@,
            index_of(key@, '_') == find_from(key@, '_', i as int),
        decreases v.len() - i,
    {
        i += 1;
    }
    if i == v.len() {
        "MISC".to_owned()
    } else {
        key.substring_char(0, i).to_owned()
    }
}

/// The pairs of the group `name`.
fn collect_members(pairs: &Vec<(String, String)>, labels: &Vec<String>, name: &String) -> (found:
    Vec<(String, String)>)
    requires
        labels.deep_view() == pair_labels(pairs.deep_view()),
    ensures
        found.deep_view() == members(pairs.deep_view(), name@),
{
    let ghost all = pairs.deep_view();
    let mut found: Vec<(String, String)> = Vec::new();
    let mut i: usize = 0;
    assert(found.deep_view() =~= members(all.take(0), name@));
    assert(labels.deep_view().len() == pairs.deep_view().len());
    while i < pairs.len()
        invariant
            i <= pairs.len() == labels.len(),
            all == pairs.deep_view(),
            labels.deep_view() == pair_labels(all),
            found.deep_view() == members(all.take(i as int), name@),
        decreases pairs.len() - i,
    {
        assert(all.take(i + 1).drop_last() =~= all.take(i as int));
        assert(all.take(i + 1).last() == all[i as int]);
        assert(labels.deep_view()[i as int] == label_of(all[i as int].0));
        if labels[i] == *name {
            let ghost before = found.deep_view();
            found.push((pairs[i].0.clone(), pairs[i].1.clone()));
            assert(found.deep_view() =~= before.push(all[i as int]));
        }
        i += 1;
    }
    assert(all.take(pairs.len() as int) =~= all);
    found
}

/// Appends to `out` a group: the header with `shown` as the group's name, one
/// line for each of `entries` in ascending order of their keys, and a blank
/// line.
pub fn push_group(out: &mut String, shown: &str, entries: &Vec<(String, String)>)
    ensures
        final(out)@ == old(out)@ + group_text(shown@, sorted_pairs(entries.deep_view())),
{
    out.append("# ");
    out.append(shown);
    out.append("\n");
    push_sorted(out, entries);
    out.append("\n");
    assert(out@ =~= old(out)@ + group_text(shown@, sorted_pairs(entries.deep_view())));
}

/// The assignments of `lines` as sorted text. With `method` equal to `alpha`
/// they are sorted by key and followed by a blank line; with anything else
/// they are grouped by the prefix of their keys, the groups in the order in
/// which they first occur, each under a header with its name in upper case.
pub fn sort_lines(lines: &[Line], method: &str) -> (output: String)
    ensures
        output@ == sort_spec(lines.deep_view(), method@ == "alpha"@),
{
    let pairs = collect_pairs(lines);
    let mut output = String::new();
    if text_equal(method, "alpha") {
        push_sorted(&mut output, &pairs);
        output.append("\n");
        assert(output@ =~= sort_spec(lines.deep_view(), true));
    } else {
        let mut labels: Vec<String> = Vec::new();
        let mut i: usize = 0;
        while i < pairs.len()
            invariant
                i <= pairs.len(),
                labels.len() == i,
                forall|j: int| 0 <= j < i ==> labels[j]@ == label_of(pairs[j].0@),
            decreases pairs.len() - i,
        {
            labels.push(label(pairs[i].0.as_str()));
            i += 1;
        }
        assert(labels.deep_view() =~= pair_labels(pairs.deep_view()));
        let mut g: usize = 0;
        assert(output@ =~= groups_text(pairs.deep_view(), 0));
        while g < labels.len()
            invariant
                g <= labels.len() == pairs.len(),
                labels.deep_view() == pair_labels(pairs.deep_view()),
                output@ == groups_text(pairs.deep_view(), g as int),
            decreases labels.len() - g,
        {
            if !seen_before(&labels, g) {
                let found = collect_members(&pairs, &labels, &labels[g]);
                let shown = to_upper(labels[g].as_str());
                push_group(&mut output, shown.as_str(), &found);
            }
            g += 1;
        }
    }
    output
}

/// Parses `content`, the text of a `.env` file, and sorts its assignments as
/// [`sort_lines`] does. Fails where parsing fails.
pub fn sort(content: &str, method: &str) -> (r: Result<String, ParseError>)
    ensures
        r is Err <==> has_assignment(content@) && !regex_compiles(reference_pattern()),
        r matches Ok(output) ==> output@ == sort_spec(parse_spec(content@), method@ == "alpha"@),
{
    match parse_env_file(content) {
        Ok(lines) => {
            let records = lines.as_slice();
            assert(records.deep_view() =~= lines.deep_view());
            Ok(sort_lines(records, method))
        },
        Err(e) => Err(e),
    }
}

} // verus!
