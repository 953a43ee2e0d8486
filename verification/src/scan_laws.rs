//! What holds of the scan for inline comments.

use crate::parser::{comment_from, scan_state, scan_step, starts_comment, ScanState};

use vstd::prelude::*;

verus! {

/// Whether `c` leaves the scan as it is, but for ending an escape: it is no
/// backslash, no quote and no `#`.
pub open spec fn is_plain(c: char) -> bool {
    c != '\\' && c != '"' && c != '\'' && c != '#'
}

/// Over a stretch that two texts share, entered in the same state, the scan
/// passes through the same states and meets the same comment starts.
pub proof fn lemma_scan_segment(x: Seq<char>, y: Seq<char>, x0: int, y0: int, n: int)
    requires
        0 <= n,
        0 <= x0,
        x0 + n <= x.len(),
        0 <= y0,
        y0 + n <= y.len(),
        x.subrange(x0, x0 + n) == y.subrange(y0, y0 + n),
        scan_state(x, x0) == scan_state(y, y0),
    ensures
        forall|j: int| 0 <= j <= n ==> scan_state(x, x0 + j) == #[trigger] scan_state(y, y0 + j),
        forall|j: int|
            0 <= j < n ==> starts_comment(x, x0 + j) == #[trigger] starts_comment(y, y0 + j),
    decreases n,
{
    if n > 0 {
        assert(x.subrange(x0, x0 + n - 1) =~= x.subrange(x0, x0 + n).take(n - 1));
        assert(y.subrange(y0, y0 + n - 1) =~= y.subrange(y0, y0 + n).take(n - 1));
        lemma_scan_segment(x, y, x0, y0, n - 1);
        assert(scan_state(x, x0 + (n - 1)) == scan_state(y, y0 + (n - 1)));
        assert(x[x0 + n - 1] == x.subrange(x0, x0 + n)[n - 1]);
        assert(y[y0 + n - 1] == y.subrange(y0, y0 + n)[n - 1]);
        assert(scan_state(x, x0 + n) == scan_step(scan_state(x, x0 + n - 1), x[x0 + n - 1]));
        assert(scan_state(y, y0 + n) == scan_step(scan_state(y, y0 + n - 1), y[y0 + n - 1]));
        assert forall|j: int| 0 <= j <= n implies scan_state(x, x0 + j) == #[trigger] scan_state(
            y,
            y0 + j,
        ) by {
            if j < n {
            }
        }
        assert forall|j: int| 0 <= j < n implies starts_comment(x, x0 + j)
            == #[trigger] starts_comment(y, y0 + j) by {
            if j == n - 1 {
                assert(scan_state(x, x0 + j) == scan_state(y, y0 + j));
            }
        }
    }
}

/// A stretch of plain characters holds no comment start, and leaves the scan
/// inside the same quotes and unescaped; an empty stretch changes nothing.
pub proof fn lemma_scan_plain(x: Seq<char>, a: int, b: int)
    requires
        0 <= a <= b <= x.len(),
        forall|j: int| a <= j < b ==> is_plain(#[trigger] x[j]),
    ensures
        scan_state(x, b) == (if b > a {
            ScanState { quote: scan_state(x, a).quote, escaped: false }
        } else {
            scan_state(x, a)
        }),
        forall|j: int| a <= j < b ==> !starts_comment(x, j),
    decreases b - a,
{
    if b > a {
        lemma_scan_plain(x, a, b - 1);
        assert(is_plain(x[b - 1]));
        assert(scan_state(x, b) == scan_step(scan_state(x, b - 1), x[b - 1]));
    }
}

/// The first comment start is where a comment may begin and none may before.
pub proof fn lemma_comment_from_is(s: Seq<char>, from: int, at: int)
    requires
        0 <= from <= at <= s.len(),
        forall|j: int| from <= j < at ==> !starts_comment(s, j),
        at < s.len() ==> starts_comment(s, at),
    ensures
        comment_from(s, from) == at,
    decreases at - from,
{
    if from < at {
        lemma_comment_from_is(s, from + 1, at);
    }
}

} // verus!
