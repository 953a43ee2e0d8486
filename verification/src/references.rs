//! References to other variables, written `${NAME}`, which a regular
//! expression finds.

use vstd::prelude::*;

verus! {

/// `regex::Error`, the error with which `regex::Regex::new` rejects a
/// pattern. Nothing is claimed of what it holds.
#[verifier::external_type_specification]
#[verifier::external_body]
pub struct ExRegexError(regex::Error);

/// Why a text could not be parsed.
#[derive(Debug, Clone, Copy, PartialEq, Eq)]
pub enum ParseError {
    /// The regular expression engine did not accept the pattern for
    /// references.
    Pattern,
}

/// Whether `regex::Regex::new` accepts `pattern`.
pub uninterp spec fn regex_compiles(pattern: Seq<char>) -> bool;

/// What capture group `group` holds in each of the successive
/// non-overlapping matches of `pattern` in `haystack`, as
/// `regex::Regex::captures_iter` yields them: the text that the group
/// matched, or `None` where the pattern has no such group or the group took
/// no part in the match.
pub uninterp spec fn regex_group_matches(pattern: Seq<char>, group: nat, haystack: Seq<char>) -> Seq<
    Option<Seq<char>>,
>;

/// Compiles `pattern` with `regex::Regex::new` and walks `haystack` with
/// `regex::Regex::captures_iter`, taking from each match the text of capture
/// group `group` by `regex::Captures::get` and `regex::Match::as_str`.
///
/// The contract claims that compilation succeeds or fails by the pattern
/// alone, and that the capture texts are a function of pattern, group and
/// haystack. It claims nothing of what they are.
#[verifier::external_body]
fn group_matches(pattern: &str, group: usize, haystack: &str) -> (r: Result<
    Vec<Option<String>>,
    regex::Error,
>)
    ensures
        r is Ok == regex_compiles(pattern@),
        r matches Ok(found) ==> found.deep_view() == regex_group_matches(
            pattern@,
            group as nat,
            haystack@,
        ),
{
    let re = regex::Regex::new(pattern)?;
    Ok(re.captures_iter(haystack).map(|c| c.get(group).map(|m| m.as_str().to_owned())).collect())
}

/// The pattern of a reference: `${`, a name of upper-case letters, digits and
/// underscores that does not begin with a digit, and `}`. The name is capture
/// group 1.
pub open spec fn reference_pattern() -> Seq<char> {
    r"\$\{([A-Z_][A-Z0-9_]*)\}"@
}

/// The texts of `found` that are present, in order.
pub open spec fn present(found: Seq<Option<Seq<char>>>) -> Seq<Seq<char>>
    decreases found.len(),
{
    if found.len() == 0 {
        Seq::empty()
    } else {
        match found.last() {
            Some(text) => present(found.drop_last()).push(text),
            None => present(found.drop_last()),
        }
    }
}

/// The names that `text` refers to, in order of occurrence.
pub open spec fn reference_names(text: Seq<char>) -> Seq<Seq<char>> {
    present(regex_group_matches(reference_pattern(), 1, text))
}

/// The texts of `found` that are present, in order.
pub fn present_names(found: Vec<Option<String>>) -> (names: Vec<String>)
    ensures
        names.deep_view() == present(found.deep_view()),
{
    let ghost all = found.deep_view();
    let mut names: Vec<String> = Vec::new();
    let mut i: usize = 0;
    assert(names.deep_view() =~= present(all.take(0)));
    while i < found.len()
        invariant
            i <= found.len(),
            all == found.deep_view(),
            names.deep_view() == present(all.take(i as int)),
        decreases found.len() - i,
    {
        assert(all.take(i + 1).drop_last() =~= all.take(i as int));
        assert(all.take(i + 1).last() == found[i as int].deep_view());
        if let Some(text) = &found[i] {
            let ghost before = names.deep_view();
            names.push(text.clone());
            assert(names.deep_view() =~= before.push(text@));
        }
        i += 1;
    }
    assert(all.take(found.len() as int) =~= all);
    names
}

/// What the first capture group of `pattern` holds in each match in `text`
/// in which it takes part, in order of occurrence. Fails where the regular
/// expression engine rejects the pattern.
pub fn capture_names(pattern: &str, text: &str) -> (r: Result<Vec<String>, ParseError>)
    ensures
        r is Ok == regex_compiles(pattern@),
        r matches Ok(names) ==> names.deep_view() == present(
            regex_group_matches(pattern@, 1, text@),
        ),
{
    match group_matches(pattern, 1, text) {
        Ok(found) => Ok(present_names(found)),
        Err(_) => Err(ParseError::Pattern),
    }
}

/// The names that `value` refers to as `${NAME}`, in order of occurrence.
/// Fails where the regular expression engine rejects the pattern.
pub fn extract_variable_reference(value: &str) -> (r: Result<Vec<String>, ParseError>)
    ensures
        r is Ok == regex_compiles(reference_pattern()),
        r matches Ok(names) ==> names.deep_view() == reference_names(value@),
{
    capture_names(r"\$\{([A-Z_][A-Z0-9_]*)\}", value)
}

} // verus!
