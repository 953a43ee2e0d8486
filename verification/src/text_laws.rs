//! What holds of trimming, searching and line splitting.

use crate::text::{
    contains_space, content_end, content_start, find_from, is_space, lemma_content_end,
    lemma_content_start, lemma_find_from, lex_before_from, lines_from, split_lines, trim, trim_end,
};
use vstd::prelude::*;

verus! {

/// Whether `s` neither begins nor ends with whitespace.
pub open spec fn is_trimmed(s: Seq<char>) -> bool {
    s.len() == 0 || (!is_space(s[0]) && !is_space(s.last()))
}

/// Trimming changes exactly the texts that begin or end with whitespace.
pub proof fn lemma_trim_fixed(s: Seq<char>)
    ensures
        trim(s) == s <==> is_trimmed(s),
{
    lemma_content_start(s, 0);
    lemma_content_end(s, s.len() as int);
    let a = content_start(s, 0);
    let b = content_end(s, s.len() as int);
    if is_trimmed(s) {
        if s.len() > 0 {
            assert(a == 0) by {
                if a > 0 {
                    assert(is_space(s[0]));
                }
            }
            assert(b == s.len()) by {
                if b < s.len() {
                    assert(is_space(s[s.len() - 1]));
                }
            }
            assert(s.subrange(0, s.len() as int) =~= s);
        } else {
            assert(trim(s) =~= s);
        }
    }
    if trim(s) == s && s.len() > 0 {
        assert(a < b);
        assert(s.subrange(a, b).len() == b - a);
    }
}

/// What trimming leaves neither begins nor ends with whitespace, and is a
/// part of the text.
pub proof fn lemma_trim_is_trimmed(s: Seq<char>)
    ensures
        is_trimmed(trim(s)),
        trim(s).len() <= s.len(),
        trim(s).len() > 0 ==> {
            &&& 0 <= content_start(s, 0) < content_end(s, s.len() as int) <= s.len()
            &&& trim(s) == s.subrange(content_start(s, 0), content_end(s, s.len() as int))
        },
        trim(s).len() == 0 <==> forall|i: int| 0 <= i < s.len() ==> is_space(#[trigger] s[i]),
{
    lemma_content_start(s, 0);
    lemma_content_end(s, s.len() as int);
    let a = content_start(s, 0);
    let b = content_end(s, s.len() as int);
    if a < b {
        assert(!is_space(s[a]));
        assert(!is_space(s[b - 1]));
    } else {
        assert forall|i: int| 0 <= i < s.len() implies is_space(#[trigger] s[i]) by {
            if i >= a {
                assert(a < s.len());
                assert(b > a) by {
                    if b <= a {
                        assert(is_space(s[a]));
                    }
                }
            }
        }
    }
}

/// Trimming a second time changes nothing.
pub proof fn lemma_trim_idempotent(s: Seq<char>)
    ensures
        trim(trim(s)) == trim(s),
{
    lemma_trim_is_trimmed(s);
    lemma_trim_fixed(trim(s));
}

/// A text without whitespace is left as it is by trimming.
pub proof fn lemma_trim_without_space(s: Seq<char>)
    requires
        !contains_space(s),
    ensures
        trim(s) == s,
{
    if s.len() > 0 {
        assert(!is_space(s[0]));
        assert(!is_space(s[s.len() - 1]));
    }
    lemma_trim_fixed(s);
}

/// What stands before the end of the content is left by `trim_end`; the rest
/// is whitespace.
pub proof fn lemma_trim_end(s: Seq<char>)
    ensures
        trim_end(s).len() <= s.len(),
        trim_end(s) == s.take(trim_end(s).len() as int),
        trim_end(s).len() > 0 ==> !is_space(trim_end(s).last()),
        forall|i: int| trim_end(s).len() <= i < s.len() ==> is_space(#[trigger] s[i]),
{
    lemma_content_end(s, s.len() as int);
}

/// The index of the first `c` at or after `from` is fixed by what it holds
/// and by what stands before it.
pub proof fn lemma_find_from_is(s: Seq<char>, c: char, from: int, at: int)
    requires
        0 <= from <= at <= s.len(),
        forall|j: int| from <= j < at ==> #[trigger] s[j] != c,
        at < s.len() ==> s[at] == c,
    ensures
        find_from(s, c, from) == at,
    decreases at - from,
{
    if from < at {
        lemma_find_from_is(s, c, from + 1, at);
    }
}

/// `lines`, each followed by a line feed.
pub open spec fn join_lines(lines: Seq<Seq<char>>) -> Seq<char>
    decreases lines.len(),
{
    if lines.len() == 0 {
        Seq::empty()
    } else {
        join_lines(lines.drop_last()) + lines.last() + seq!['\n']
    }
}

/// `join_lines`, taken from the front.
pub proof fn lemma_join_lines_front(lines: Seq<Seq<char>>)
    requires
        lines.len() > 0,
    ensures
        join_lines(lines) == lines[0] + seq!['\n'] + join_lines(lines.skip(1)),
    decreases lines.len(),
{
    if lines.len() == 1 {
        assert(lines.drop_last() =~= Seq::<Seq<char>>::empty());
        assert(lines.skip(1) =~= Seq::<Seq<char>>::empty());
        assert(join_lines(lines) =~= lines[0] + seq!['\n'] + join_lines(lines.skip(1)));
    } else {
        lemma_join_lines_front(lines.drop_last());
        assert(lines.drop_last().skip(1) =~= lines.skip(1).drop_last());
        assert(lines.drop_last()[0] == lines[0]);
        assert(lines.skip(1).last() == lines.last());
        assert(join_lines(lines) =~= lines[0] + seq!['\n'] + join_lines(lines.skip(1)));
    }
}

/// The lines of a text hold no line feed.
pub proof fn lemma_lines_hold_no_feed(s: Seq<char>, from: int)
    requires
        0 <= from <= s.len(),
    ensures
        forall|i: int|
            0 <= i < lines_from(s, from).len() ==> !(#[trigger] lines_from(s, from)[i]).contains(
                '\n',
            ),
    decreases s.len() - from,
{
    if from < s.len() {
        let end = find_from(s, '\n', from);
        lemma_find_from(s, '\n', from);
        let first = s.subrange(from, end);
        if end + 1 <= s.len() {
            lemma_lines_hold_no_feed(s, end + 1);
        }
        let rest = lines_from(s, end + 1);
        assert forall|i: int| 0 <= i < lines_from(s, from).len() implies !(#[trigger] lines_from(
            s,
            from,
        )[i]).contains('\n') by {
            if i == 0 {
                if first.contains('\n') {
                    let k = choose|k: int| 0 <= k < first.len() && first[k] == '\n';
                    assert(s[from + k] == '\n');
                }
            } else {
                assert(lines_from(s, from)[i] == rest[i - 1]);
            }
        }
    }
}

/// A text that is empty or ends with a line feed is its lines, each followed
/// by a line feed.
pub proof fn lemma_join_of_lines(s: Seq<char>, from: int)
    requires
        0 <= from <= s.len(),
        s.len() > 0 ==> s.last() == '\n',
    ensures
        join_lines(lines_from(s, from)) == s.skip(from),
    decreases s.len() - from,
{
    if from < s.len() {
        let end = find_from(s, '\n', from);
        lemma_find_from(s, '\n', from);
        assert(end < s.len()) by {
            if end == s.len() {
                assert(s[s.len() - 1] != '\n');
            }
        }
        lemma_join_of_lines(s, end + 1);
        let lines = lines_from(s, from);
        lemma_join_lines_front(lines);
        assert(lines.skip(1) =~= lines_from(s, end + 1));
        assert(s.skip(from) =~= s.subrange(from, end) + seq!['\n'] + s.skip(end + 1));
    } else {
        assert(s.skip(from) =~= Seq::<char>::empty());
    }
}

/// The lines of a text made of lines that hold no line feed, each followed by
/// a line feed, are those lines.
pub proof fn lemma_lines_of_join(lines: Seq<Seq<char>>)
    requires
        forall|i: int| 0 <= i < lines.len() ==> !(#[trigger] lines[i]).contains('\n'),
    ensures
        split_lines(join_lines(lines)) == lines,
    decreases lines.len(),
{
    let s = join_lines(lines);
    if lines.len() == 0 {
        assert(split_lines(s) =~= lines);
    } else {
        lemma_join_lines_front(lines);
        let first = lines[0];
        let rest = lines.skip(1);
        let tail = join_lines(rest);
        assert forall|i: int| 0 <= i < rest.len() implies !(#[trigger] rest[i]).contains('\n') by {
            assert(rest[i] == lines[i + 1]);
        }
        lemma_lines_of_join(rest);
        assert(s == first + seq!['\n'] + tail);
        assert forall|j: int| 0 <= j < first.len() implies #[trigger] s[j] != '\n' by {
            assert(s[j] == first[j]);
            if first[j] == '\n' {
                assert(first.contains('\n'));
            }
        }
        assert(s[first.len() as int] == '\n');
        lemma_find_from_is(s, '\n', 0, first.len() as int);
        assert(s.subrange(0, first.len() as int) =~= first);
        let next = first.len() as int + 1;
        assert(s.skip(next) =~= tail);
        lemma_lines_shift(s, tail, next, 0);
        assert(split_lines(s) =~= seq![first] + lines_from(s, next));
        assert(lines =~= seq![first] + rest);
    }
}

/// The lines of a text from `from` on are those of its part from `from` on.
pub proof fn lemma_lines_shift(s: Seq<char>, tail: Seq<char>, offset: int, from: int)
    requires
        0 <= offset <= s.len(),
        tail == s.skip(offset),
        0 <= from <= tail.len(),
    ensures
        lines_from(s, offset + from) == lines_from(tail, from),
    decreases tail.len() - from,
{
    if from < tail.len() {
        let end = find_from(tail, '\n', from);
        lemma_find_from(tail, '\n', from);
        assert forall|j: int| offset + from <= j < offset + end implies #[trigger] s[j] != '\n' by {
            assert(tail[j - offset] == s[j]);
        }
        if end < tail.len() {
            assert(s[offset + end] == tail[end]);
        }
        lemma_find_from_is(s, '\n', offset + from, offset + end);
        assert(s.subrange(offset + from, offset + end) =~= tail.subrange(from, end));
        if end + 1 <= tail.len() {
            lemma_lines_shift(s, tail, offset, end + 1);
        } else {
            assert(lines_from(s, offset + end + 1) =~= lines_from(tail, end + 1));
        }
    }
}

/// A part of a text that holds no line feed holds none.
pub proof fn lemma_part_holds_no_feed(s: Seq<char>, from: int, to: int)
    requires
        !s.contains('\n'),
        0 <= from <= to <= s.len(),
    ensures
        !s.subrange(from, to).contains('\n'),
{
    let part = s.subrange(from, to);
    if part.contains('\n') {
        let k = choose|k: int| 0 <= k < part.len() && part[k] == '\n';
        assert(s[from + k] == '\n');
    }
}

/// Two texts that hold no line feed hold none when put together.
pub proof fn lemma_concat_holds_no_feed(a: Seq<char>, b: Seq<char>)
    requires
        !a.contains('\n'),
        !b.contains('\n'),
    ensures
        !(a + b).contains('\n'),
{
    let s = a + b;
    if s.contains('\n') {
        let k = choose|k: int| 0 <= k < s.len() && s[k] == '\n';
        if k < a.len() {
            assert(a[k] == '\n');
        } else {
            assert(b[k - a.len()] == '\n');
        }
    }
}

/// The trimmed form of a text that holds no line feed holds none.
pub proof fn lemma_trim_holds_no_feed(s: Seq<char>)
    requires
        !s.contains('\n'),
    ensures
        !trim(s).contains('\n'),
{
    lemma_trim_is_trimmed(s);
    if trim(s).len() > 0 {
        lemma_part_holds_no_feed(s, content_start(s, 0), content_end(s, s.len() as int));
    } else if trim(s).contains('\n') {
        let k = choose|k: int| 0 <= k < trim(s).len() && trim(s)[k] == '\n';
    }
}

/// No text sorts before itself in code point order.
pub proof fn lemma_lex_irreflexive(a: Seq<char>, i: int)
    requires
        0 <= i,
    ensures
        !lex_before_from(a, a, i),
    decreases a.len() - i,
{
    if i < a.len() {
        lemma_lex_irreflexive(a, i + 1);
    }
}

/// The code point order is transitive.
pub proof fn lemma_lex_transitive(a: Seq<char>, b: Seq<char>, c: Seq<char>, i: int)
    requires
        0 <= i,
        lex_before_from(a, b, i),
        lex_before_from(b, c, i),
    ensures
        lex_before_from(a, c, i),
    decreases a.len() - i,
{
    if i < a.len() && i < b.len() && i < c.len() && a[i] == b[i] && b[i] == c[i] {
        lemma_lex_transitive(a, b, c, i + 1);
    }
}

/// In code point order, what does not sort before a text that does not sort
/// before a third does not sort before the third.
pub proof fn lemma_lex_negatively_transitive(a: Seq<char>, b: Seq<char>, c: Seq<char>, i: int)
    requires
        0 <= i,
        !lex_before_from(a, b, i),
        !lex_before_from(b, c, i),
    ensures
        !lex_before_from(a, c, i),
    decreases a.len() - i,
{
    if i < a.len() && i < b.len() && i < c.len() {
        vstd::utf8::char_u32_cast(a[i], a[i] as u32);
        vstd::utf8::char_u32_cast(b[i], b[i] as u32);
        vstd::utf8::char_u32_cast(c[i], c[i] as u32);
        if a[i] == b[i] && b[i] == c[i] {
            lemma_lex_negatively_transitive(a, b, c, i + 1);
        }
    }
}

} // verus!
