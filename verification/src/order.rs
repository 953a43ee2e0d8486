//! Stable ordering of items by a key.

use crate::text::{chars_before, lex_before};
use crate::text_laws::{
    lemma_lex_irreflexive, lemma_lex_negatively_transitive, lemma_lex_transitive,
};
use vstd::prelude::*;

verus! {

/// A mathematical key by which items are arranged. Its order is a strict
/// weak order: keys of which neither sorts before the other count as equal.
pub trait SortKey: Sized {
    /// Whether `self` sorts strictly before `other`.
    spec fn before(self, other: Self) -> bool;

    /// No key sorts before itself.
    proof fn lemma_irreflexive(a: Self)
        ensures
            !a.before(a),
    ;

    /// What sorts before a key that sorts before a third sorts before the
    /// third.
    proof fn lemma_transitive(a: Self, b: Self, c: Self)
        requires
            a.before(b),
            b.before(c),
        ensures
            a.before(c),
    ;

    /// What does not sort before a key that does not sort before a third
    /// does not sort before the third.
    proof fn lemma_negatively_transitive(a: Self, b: Self, c: Self)
        requires
            !a.before(b),
            !b.before(c),
        ensures
            !a.before(c),
    ;
}

impl SortKey for nat {
    open spec fn before(self, other: nat) -> bool {
        self < other
    }

    proof fn lemma_irreflexive(a: nat) {
    }

    proof fn lemma_transitive(a: nat, b: nat, c: nat) {
    }

    proof fn lemma_negatively_transitive(a: nat, b: nat, c: nat) {
    }
}

impl SortKey for Seq<char> {
    open spec fn before(self, other: Seq<char>) -> bool {
        lex_before(self, other)
    }

    proof fn lemma_irreflexive(a: Seq<char>) {
        lemma_lex_irreflexive(a, 0);
    }

    proof fn lemma_transitive(a: Seq<char>, b: Seq<char>, c: Seq<char>) {
        lemma_lex_transitive(a, b, c, 0);
    }

    proof fn lemma_negatively_transitive(a: Seq<char>, b: Seq<char>, c: Seq<char>) {
        lemma_lex_negatively_transitive(a, b, c, 0);
    }
}

/// `order`, which arranges positions of `keys`, with position `x` added
/// behind every position whose key does not sort after the key at `x`.
pub open spec fn insert_stable<K: SortKey>(order: Seq<int>, keys: Seq<K>, x: int) -> Seq<int>
    decreases order.len(),
{
    if order.len() > 0 && keys[x].before(keys[order.last()]) {
        insert_stable(order.drop_last(), keys, x).push(order.last())
    } else {
        order.push(x)
    }
}

/// The positions `0..n` of `keys`, arranged by ascending key; positions with
/// equivalent keys stay in ascending order.
pub open spec fn stable_order<K: SortKey>(keys: Seq<K>, n: int) -> Seq<int>
    decreases n,
{
    if n <= 0 {
        Seq::empty()
    } else {
        insert_stable(stable_order(keys, n - 1), keys, n - 1)
    }
}

/// The items at the positions that `order` lists.
pub open spec fn arrange<A>(items: Seq<A>, order: Seq<int>) -> Seq<A> {
    Seq::new(order.len(), |i: int| items[order[i]])
}

/// `order` as mathematical positions.
pub open spec fn positions(order: Seq<usize>) -> Seq<int> {
    Seq::new(order.len(), |i: int| order[i] as int)
}

/// An executable value with a sort key.
pub trait Sortable {
    type Key: SortKey;

    /// The key of this value.
    spec fn sort_key(&self) -> Self::Key;

    /// Whether this value's key sorts strictly before that of `other`.
    fn sorts_before(&self, other: &Self) -> (r: bool)
        ensures
            r == self.sort_key().before(other.sort_key()),
    ;
}

impl Sortable for usize {
    type Key = nat;

    open spec fn sort_key(&self) -> nat {
        *self as nat
    }

    fn sorts_before(&self, other: &usize) -> (r: bool) {
        *self < *other
    }
}

impl Sortable for Vec<char> {
    type Key = Seq<char>;

    open spec fn sort_key(&self) -> Seq<char> {
        self@
    }

    fn sorts_before(&self, other: &Vec<char>) -> (r: bool) {
        chars_before(self, other)
    }
}

/// The keys of `items`.
pub open spec fn sort_keys<T: Sortable>(items: Seq<T>) -> Seq<T::Key> {
    Seq::new(items.len(), |i: int| items[i].sort_key())
}

/// Inserting behind a position `p` is the same as inserting stably, when all
/// keys from `p` on sort after the new key and the key before `p` does not.
pub proof fn lemma_insert_stable_at<K: SortKey>(order: Seq<int>, keys: Seq<K>, x: int, p: int)
    requires
        0 <= p <= order.len(),
        forall|j: int| p <= j < order.len() ==> keys[x].before(#[trigger] keys[order[j]]),
        p > 0 ==> !keys[x].before(keys[order[p - 1]]),
    ensures
        insert_stable(order, keys, x) == order.insert(p, x),
    decreases order.len(),
{
    if p == order.len() {
        assert(order.insert(p, x) =~= order.push(x));
    } else {
        assert(keys[x].before(keys[order[order.len() - 1]]));
        lemma_insert_stable_at(order.drop_last(), keys, x, p);
        assert(order.insert(p, x) =~= order.drop_last().insert(p, x).push(order.last()));
    }
}

/// The positions of `items` in stable ascending order of their keys.
pub fn sorted_positions<T: Sortable>(items: &Vec<T>) -> (order: Vec<usize>)
    ensures
        order.len() == items.len(),
        forall|j: int| 0 <= j < order.len() ==> order[j] < items.len(),
        positions(order@) == stable_order(sort_keys(items@), items.len() as int),
{
    let mut order: Vec<usize> = Vec::new();
    let mut n: usize = 0;
    assert(positions(order@) =~= stable_order(sort_keys(items@), 0));
    while n < items.len()
        invariant
            n <= items.len(),
            order.len() == n,
            forall|j: int| 0 <= j < n ==> order[j] < n,
            positions(order@) == stable_order(sort_keys(items@), n as int),
        decreases items.len() - n,
    {
        let ghost keys = sort_keys(items@);
        let ghost before = positions(order@);
        let mut p: usize = n;
        while p > 0 && items[n].sorts_before(&items[order[p - 1]])
            invariant
                p <= n < items.len(),
                order.len() == n,
                keys == sort_keys(items@),
                before == positions(order@),
                forall|j: int| 0 <= j < n ==> order[j] < n,
                forall|j: int| p <= j < n ==> keys[n as int].before(#[trigger] keys[before[j]]),
            decreases p,
        {
            p -= 1;
        }
        proof {
            lemma_insert_stable_at(before, keys, n as int, p as int);
        }
        order.insert(p, n);
        assert(positions(order@) =~= before.insert(p as int, n as int));
        n += 1;
    }
    order
}

} // verus!
