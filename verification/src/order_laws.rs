//! What holds of the stable order.

use crate::order::{insert_stable, stable_order, SortKey};
use vstd::prelude::*;

verus! {

/// Whether position `a` belongs before position `b`: its key sorts before
/// the other, or the keys count as equal and `a` is the earlier position.
pub open spec fn belongs_before<K: SortKey>(keys: Seq<K>, a: int, b: int) -> bool {
    keys[a].before(keys[b]) || (!keys[b].before(keys[a]) && a < b)
}

/// Whether `order` lists positions of `keys` so that each belongs before all
/// that follow it.
pub open spec fn is_stably_sorted<K: SortKey>(keys: Seq<K>, order: Seq<int>) -> bool {
    forall|i: int, j: int|
        0 <= i < j < order.len() ==> belongs_before(keys, #[trigger] order[i], #[trigger] order[j])
}

/// Whether `order` lists each of the positions `0..n` once.
pub open spec fn is_arrangement(order: Seq<int>, n: int) -> bool {
    &&& order.len() == n
    &&& forall|i: int| 0 <= i < order.len() ==> 0 <= #[trigger] order[i] < n
    &&& forall|i: int, j: int|
        0 <= i < j < order.len() ==> #[trigger] order[i] != #[trigger] order[j]
}

/// Where a stable insertion puts the new position.
pub open spec fn insert_point<K: SortKey>(order: Seq<int>, keys: Seq<K>, x: int) -> int
    decreases order.len(),
{
    if order.len() > 0 && keys[x].before(keys[order.last()]) {
        insert_point(order.drop_last(), keys, x)
    } else {
        order.len() as int
    }
}

/// A stable insertion puts the new position behind the last position whose
/// key it does not sort before, and before all that follow.
pub proof fn lemma_insert_point<K: SortKey>(order: Seq<int>, keys: Seq<K>, x: int)
    ensures
        0 <= insert_point(order, keys, x) <= order.len(),
        insert_stable(order, keys, x) == order.insert(insert_point(order, keys, x), x),
        forall|j: int|
            insert_point(order, keys, x) <= j < order.len() ==> keys[x].before(
                keys[#[trigger] order[j]],
            ),
        insert_point(order, keys, x) > 0 ==> !keys[x].before(
            keys[order[insert_point(order, keys, x) - 1]],
        ),
    decreases order.len(),
{
    let p = insert_point(order, keys, x);
    if order.len() > 0 && keys[x].before(keys[order.last()]) {
        lemma_insert_point(order.drop_last(), keys, x);
        assert(order.insert(p, x) =~= order.drop_last().insert(p, x).push(order.last()));
        assert forall|j: int| p <= j < order.len() implies keys[x].before(
            keys[#[trigger] order[j]],
        ) by {
            if j < order.len() - 1 {
                assert(order.drop_last()[j] == order[j]);
            }
        }
        if p > 0 {
            assert(order.drop_last()[p - 1] == order[p - 1]);
        }
    } else {
        assert(order.insert(p, x) =~= order.push(x));
    }
}

/// A stable insertion of a position behind all listed ones keeps the list
/// stably sorted.
pub proof fn lemma_insert_keeps_sorted<K: SortKey>(order: Seq<int>, keys: Seq<K>, x: int)
    requires
        is_stably_sorted(keys, order),
        forall|i: int| 0 <= i < order.len() ==> 0 <= #[trigger] order[i] < x,
    ensures
        is_stably_sorted(keys, insert_stable(order, keys, x)),
        is_arrangement(order, x) ==> is_arrangement(insert_stable(order, keys, x), x + 1),
{
    lemma_insert_point(order, keys, x);
    let p = insert_point(order, keys, x);
    let after = insert_stable(order, keys, x);
    assert forall|i: int| 0 <= i < p implies !keys[x].before(keys[#[trigger] order[i]]) by {
        if i < p - 1 {
            assert(belongs_before(keys, order[i], order[p - 1]));
            if keys[x].before(keys[order[i]]) {
                if keys[order[i]].before(keys[order[p - 1]]) {
                    K::lemma_transitive(keys[x], keys[order[i]], keys[order[p - 1]]);
                } else {
                    K::lemma_negatively_transitive(keys[x], keys[order[p - 1]], keys[order[i]]);
                }
            }
        }
    }
    assert forall|i: int, j: int| 0 <= i < j < after.len() implies belongs_before(
        keys,
        #[trigger] after[i],
        #[trigger] after[j],
    ) by {
        let a = if i < p {
            i
        } else {
            i - 1
        };
        let b = if j < p {
            j
        } else {
            j - 1
        };
        if i == p {
            assert(after[j] == order[b]);
        } else if j == p {
            assert(after[i] == order[a]);
        } else {
            assert(after[i] == order[a] && after[j] == order[b]);
            assert(belongs_before(keys, order[a], order[b]));
        }
    }
    if is_arrangement(order, x) {
        assert forall|i: int, j: int| 0 <= i < j < after.len() implies #[trigger] after[i]
            != #[trigger] after[j] by {
            let a = if i < p {
                i
            } else {
                i - 1
            };
            let b = if j < p {
                j
            } else {
                j - 1
            };
            if i == p {
                assert(after[j] == order[b]);
            } else if j == p {
                assert(after[i] == order[a]);
            } else {
                assert(after[i] == order[a] && after[j] == order[b]);
            }
        }
        assert forall|i: int| 0 <= i < after.len() implies 0 <= #[trigger] after[i] < x + 1 by {
            if i < p {
                assert(after[i] == order[i]);
            } else if i > p {
                assert(after[i] == order[i - 1]);
            }
        }
    }
}

/// The stable order of the first `n` keys lists each of the positions `0..n`
/// once, each before all that it belongs before: the keys ascend, and
/// positions whose keys count as equal keep their order.
pub proof fn lemma_stable_order<K: SortKey>(keys: Seq<K>, n: int)
    requires
        0 <= n <= keys.len(),
    ensures
        is_arrangement(stable_order(keys, n), n),
        is_stably_sorted(keys, stable_order(keys, n)),
    decreases n,
{
    if n > 0 {
        lemma_stable_order(keys, n - 1);
        lemma_insert_keeps_sorted(stable_order(keys, n - 1), keys, n - 1);
    }
}

/// In a stably sorted list no key sorts before a key that stands before it.
pub proof fn lemma_sorted_keys_ascend<K: SortKey>(keys: Seq<K>, order: Seq<int>)
    requires
        is_stably_sorted(keys, order),
    ensures
        forall|i: int, j: int|
            0 <= i < j < order.len() ==> !keys[#[trigger] order[j]].before(
                keys[#[trigger] order[i]],
            ),
{
    assert forall|i: int, j: int| 0 <= i < j < order.len() implies !keys[#[trigger] order[j]].before(
        keys[#[trigger] order[i]],
    ) by {
        assert(belongs_before(keys, order[i], order[j]));
        if keys[order[j]].before(keys[order[i]]) {
            K::lemma_transitive(keys[order[i]], keys[order[j]], keys[order[i]]);
            K::lemma_irreflexive(keys[order[i]]);
        }
    }
}

} // verus!
