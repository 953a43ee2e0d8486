//! What holds of the sorter's output.

use crate::order::{arrange, stable_order, SortKey};
use crate::order_laws::{
    is_arrangement, is_stably_sorted, lemma_sorted_keys_ascend, lemma_stable_order,
};
use crate::parser::LineView;
use crate::sorter::{pair_keys, pairs_of, sort_spec, sorted_pairs};
use crate::text::lex_before;
use vstd::prelude::*;

verus! {

/// Sorting arranges the pairs: each pair stands in the result once, no key
/// sorts before a key that stands before it, and pairs with one key keep
/// their order.
pub proof fn lemma_sorted_pairs(pairs: Seq<(Seq<char>, Seq<char>)>)
    ensures
        ({
            let order = stable_order(pair_keys(pairs), pairs.len() as int);
            &&& is_arrangement(order, pairs.len() as int)
            &&& is_stably_sorted(pair_keys(pairs), order)
            &&& sorted_pairs(pairs) == arrange(pairs, order)
        }),
        sorted_pairs(pairs).len() == pairs.len(),
        forall|i: int, j: int|
            0 <= i < j < pairs.len() ==> !lex_before(
                (#[trigger] sorted_pairs(pairs)[j]).0,
                (#[trigger] sorted_pairs(pairs)[i]).0,
            ),
{
    let keys = pair_keys(pairs);
    let order = stable_order(keys, pairs.len() as int);
    lemma_stable_order(keys, pairs.len() as int);
    lemma_sorted_keys_ascend(keys, order);
    assert forall|i: int, j: int| 0 <= i < j < pairs.len() implies !lex_before(
        (#[trigger] sorted_pairs(pairs)[j]).0,
        (#[trigger] sorted_pairs(pairs)[i]).0,
    ) by {
        assert(!keys[order[j]].before(keys[order[i]]));
    }
}

/// The sorter takes the assignments alone: a line that is none may be left
/// out without any change to the sorted text.
pub proof fn lemma_sort_drops_other_lines(lines: Seq<LineView>, at: int, alpha: bool)
    requires
        0 <= at < lines.len(),
        !(lines[at] is KeyValue),
    ensures
        sort_spec(lines.remove(at), alpha) == sort_spec(lines, alpha),
{
    lemma_pairs_without(lines, at);
}

/// The pairs of `lines` do not change where a line that is no assignment is
/// left out.
pub proof fn lemma_pairs_without(lines: Seq<LineView>, at: int)
    requires
        0 <= at < lines.len(),
        !(lines[at] is KeyValue),
    ensures
        pairs_of(lines.remove(at)) == pairs_of(lines),
    decreases lines.len(),
{
    if at == lines.len() - 1 {
        assert(lines.remove(at) =~= lines.drop_last());
    } else {
        lemma_pairs_without(lines.drop_last(), at);
        assert(lines.remove(at).drop_last() =~= lines.drop_last().remove(at));
        assert(lines.remove(at).last() == lines.last());
    }
}

} // verus!
