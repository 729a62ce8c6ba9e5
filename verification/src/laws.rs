//! Laws of the heap order: what parent-by-parent order gives globally.
use vstd::prelude::*;

use crate::Comparator;
use crate::Heap;
use crate::heap_ordered;
use crate::parent_of;
use crate::respects_order;

verus! {

/// Node `a` lies on the parent chain of node `d` (strictly above it).
pub open spec fn is_ancestor_of(a: int, d: int) -> bool
    decreases d,
{
    0 <= a < d && (parent_of(d) == a || is_ancestor_of(a, parent_of(d)))
}

/// In a heap-ordered sequence, under a comparator that respects its order,
/// no element outranks any of its ancestors.
pub proof fn lemma_no_node_outranks_ancestor<T, C: Comparator<T>>(
    c: C,
    s: Seq<T>,
    a: int,
    d: int,
)
    requires
        respects_order::<T, C>(c),
        heap_ordered(c, s),
        is_ancestor_of(a, d),
        d < s.len(),
    ensures
        !c.ranks_above(s[d], s[a]),
    decreases d,
{
    let p = parent_of(d);
    assert(!c.ranks_above(s[d], s[p]));
    if p != a {
        lemma_no_node_outranks_ancestor(c, s, a, p);
    }
}

/// In a heap-ordered sequence, under a comparator that respects its order,
/// no element outranks the root: the root has the highest priority.
pub proof fn lemma_root_outranks_rest<T, C: Comparator<T>>(c: C, s: Seq<T>, k: int)
    requires
        respects_order::<T, C>(c),
        heap_ordered(c, s),
        0 <= k < s.len(),
    ensures
        !c.ranks_above(s[k], s[0]),
    decreases k,
{
    if k > 0 {
        lemma_root_outranks_rest(c, s, parent_of(k));
    }
}

/// The two lemmas above, restated on a heap value: after any sequence of
/// `add` and `remove_first` calls the heap is well-formed, and then no
/// element outranks an ancestor, in particular the root.
pub proof fn lemma_heap_order<T, C: Comparator<T>>(h: Heap<T, C>, a: int, d: int)
    requires
        h.ordering_ok(),
        h.wf(),
        is_ancestor_of(a, d),
        d < h@.len(),
    ensures
        !h.ordering().ranks_above(h@[d], h@[a]),
        !h.ordering().ranks_above(h@[d], h@[0]),
{
    lemma_no_node_outranks_ancestor(h.ordering(), h@, a, d);
    lemma_root_outranks_rest(h.ordering(), h@, d);
}

/// The outputs come ranked highest first: no element of `out` outranks one
/// that stands before it.
pub open spec fn ranked_highest_first<T, C: Comparator<T>>(c: C, out: Seq<T>) -> bool {
    forall|i: int, j: int|
        0 <= i < j < out.len() ==> !c.ranks_above(#[trigger] out[j], #[trigger] out[i])
}

/// One successful `remove_first` call, seen on the heap's contents: `prev`
/// was heap-ordered and non-empty, `out` is the root that was returned, and
/// the contents shrank by exactly that element.  These are the facts
/// `remove_first` ensures on a non-empty heap.
pub open spec fn removal_step<T, C: Comparator<T>>(
    c: C,
    prev: Seq<T>,
    next: Seq<T>,
    out: T,
) -> bool {
    &&& heap_ordered(c, prev)
    &&& prev.len() > 0
    &&& out == prev[0]
    &&& next.len() == prev.len() - 1
    &&& next.to_multiset() == prev.to_multiset().remove(prev[0])
}

/// A drain of the heap: `states[k]` is the heap's contents before the `k`-th
/// removal and `outs[k]` is what that removal returned.
pub open spec fn removal_chain<T, C: Comparator<T>>(
    c: C,
    states: Seq<Seq<T>>,
    outs: Seq<T>,
) -> bool {
    &&& states.len() == outs.len() + 1
    &&& forall|k: int|
        0 <= k < outs.len() ==> #[trigger] removal_step(c, states[k], states[k + 1], outs[k])
}

/// Along a removal chain an element present in a later state was already
/// present in every earlier state: removals only take elements away.
proof fn lemma_chain_keeps_elements<T, C: Comparator<T>>(
    c: C,
    states: Seq<Seq<T>>,
    outs: Seq<T>,
    i: int,
    j: int,
    e: T,
)
    requires
        removal_chain(c, states, outs),
        0 <= i <= j < states.len(),
        states[j].to_multiset().count(e) > 0,
    ensures
        states[i].to_multiset().count(e) > 0,
    decreases j - i,
{
    broadcast use vstd::multiset::group_multiset_axioms;

    if i < j {
        lemma_chain_keeps_elements(c, states, outs, i + 1, j, e);
        assert(removal_step(c, states[i], states[i + 1], outs[i]));
        assert(states[i + 1].to_multiset() == states[i].to_multiset().remove(states[i][0]));
    }
}

/// Extraction order law: draining a heap whose comparator respects its order
/// by repeated successful `remove_first` calls yields the elements ranked
/// highest first — no element removed later outranks one removed earlier —
/// and leaves exactly the starting count minus one element per removal.
pub proof fn lemma_extraction_order<T, C: Comparator<T>>(c: C, states: Seq<Seq<T>>, outs: Seq<T>)
    requires
        respects_order::<T, C>(c),
        removal_chain(c, states, outs),
    ensures
        ranked_highest_first(c, outs),
        states[outs.len() as int].len() == states[0].len() - outs.len(),
    decreases outs.len(),
{
    broadcast use vstd::seq_lib::group_to_multiset_ensures;
    broadcast use vstd::multiset::group_multiset_axioms;

    assert forall|i: int, j: int| 0 <= i < j < outs.len() implies !c.ranks_above(
        outs[j],
        outs[i],
    ) by {
        assert(removal_step(c, states[i], states[i + 1], outs[i]));
        assert(removal_step(c, states[j], states[j + 1], outs[j]));
        let e = outs[j];
        assert(states[j].contains(e));
        assert(states[j].to_multiset().count(e) > 0);
        lemma_chain_keeps_elements(c, states, outs, i + 1, j, e);
        assert(states[i + 1].to_multiset() == states[i].to_multiset().remove(states[i][0]));
        assert(states[i].to_multiset().count(e) > 0);
        assert(states[i].contains(e));
        let k = choose|k: int| 0 <= k < states[i].len() && states[i][k] == e;
        lemma_root_outranks_rest(c, states[i], k);
    }
    if outs.len() > 0 {
        let shorter_states = states.drop_last();
        let shorter_outs = outs.drop_last();
        assert(removal_chain(c, shorter_states, shorter_outs)) by {
            assert forall|k: int| 0 <= k < shorter_outs.len() implies removal_step(
                c,
                shorter_states[k],
                shorter_states[k + 1],
                shorter_outs[k],
            ) by {
                assert(removal_step(c, states[k], states[k + 1], outs[k]));
            }
        }
        lemma_extraction_order(c, shorter_states, shorter_outs);
        let m = outs.len() - 1;
        assert(removal_step(c, states[m], states[m + 1], outs[m]));
    }
}

} // verus!
