//! A growable binary heap (priority queue) whose ordering is supplied by the
//! caller: a comparator decides which of two elements must sit closer to the
//! root.  The storage is a `Vec` read as a complete binary tree: the parent of
//! index `i` (for `i >= 1`) lives at `(i - 1) / 2`, its children at `2i + 1`
//! and `2i + 2`.
use vstd::prelude::*;
use vstd::std_specs::cmp::PartialOrdSpec;
use vstd::string::StrSliceExecFns;

pub mod laws;

verus! {

/// A priority ordering over values of type `T`.
///
/// `ranks_above(a, b)` is the mathematical relation "`a` has strictly higher
/// priority than `b` and must sit closer to the root"; `outranks` is its
/// executable form.  `obeys` says on which instances the executable form is
/// known to agree with the relation (it is `true` for every comparator this
/// crate defines).
pub trait Comparator<T>: Sized {
    spec fn obeys(&self) -> bool;

    spec fn ranks_above(&self, a: T, b: T) -> bool;

    fn outranks(&self, a: &T, b: &T) -> (r: bool)
        ensures
            self.obeys() ==> r == self.ranks_above(*a, *b),
    ;
}

/// The comparator `c` is usable as a heap ordering: its executable form is
/// exact, the relation is asymmetric, and "does not outrank" is transitive.
/// Every strict weak ordering has these properties.
pub open spec fn respects_order<T, C: Comparator<T>>(c: C) -> bool {
    &&& c.obeys()
    &&& forall|a: T, b: T| #[trigger] c.ranks_above(a, b) ==> !c.ranks_above(b, a)
    &&& forall|a: T, b: T, d: T|
        !#[trigger] c.ranks_above(a, b) && !#[trigger] c.ranks_above(b, d) ==> !c.ranks_above(a, d)
}

/// Orders by `<`: the root of a heap built on this comparator is the minimum.
pub struct MinOrder;

impl<T: PartialOrd> Comparator<T> for MinOrder {
    open spec fn obeys(&self) -> bool {
        T::obeys_partial_cmp_spec()
    }

    open spec fn ranks_above(&self, a: T, b: T) -> bool {
        a.partial_cmp_spec(&b) == Some(core::cmp::Ordering::Less)
    }

    fn outranks(&self, a: &T, b: &T) -> (r: bool) {
        a.lt(b)
    }
}

/// Orders by `>`: the root of a heap built on this comparator is the maximum.
pub struct MaxOrder;

impl<T: PartialOrd> Comparator<T> for MaxOrder {
    open spec fn obeys(&self) -> bool {
        T::obeys_partial_cmp_spec()
    }

    open spec fn ranks_above(&self, a: T, b: T) -> bool {
        a.partial_cmp_spec(&b) == Some(core::cmp::Ordering::Greater)
    }

    fn outranks(&self, a: &T, b: &T) -> (r: bool) {
        a.gt(b)
    }
}

/// Orders string slices by character count: a shorter string outranks a
/// longer one.  Strings of equal length are tied.
pub struct ShorterFirst;

impl<'a> Comparator<&'a str> for ShorterFirst {
    open spec fn obeys(&self) -> bool {
        true
    }

    open spec fn ranks_above(&self, a: &'a str, b: &'a str) -> bool {
        a@.len() < b@.len()
    }

    fn outranks(&self, a: &&'a str, b: &&'a str) -> (r: bool) {
        (*a).unicode_len() < (*b).unicode_len()
    }
}

/// The index of the parent of tree node `i`, meaningful for `i >= 1`.
pub open spec fn parent_of(i: int) -> int {
    (i - 1) / 2
}

/// Every node except the root sits no higher than its parent allows: no
/// element outranks its parent.
pub open spec fn heap_ordered<T, C: Comparator<T>>(c: C, s: Seq<T>) -> bool {
    forall|i: int| 1 <= i < s.len() ==> !c.ranks_above(#[trigger] s[i], s[parent_of(i)])
}

/// Heap order everywhere except that node `x` itself may outrank its parent.
pub open spec fn heap_ordered_except<T, C: Comparator<T>>(c: C, s: Seq<T>, x: int) -> bool {
    forall|i: int|
        1 <= i < s.len() && i != x ==> !c.ranks_above(#[trigger] s[i], s[parent_of(i)])
}

/// Heap order everywhere except that the children of node `x` may outrank it.
pub open spec fn heap_ordered_except_below<T, C: Comparator<T>>(c: C, s: Seq<T>, x: int) -> bool {
    forall|i: int|
        1 <= i < s.len() && parent_of(i) != x ==> !c.ranks_above(#[trigger] s[i], s[parent_of(i)])
}

/// No child of node `x` outranks the element at index `top`.
pub open spec fn children_below<T, C: Comparator<T>>(c: C, s: Seq<T>, x: int, top: int) -> bool {
    forall|i: int|
        1 <= i < s.len() && parent_of(i) == x ==> !c.ranks_above(#[trigger] s[i], s[top])
}

/// Exchanges the element at `k` with the last element (a no-op when `k` is
/// the last index).
fn swap_with_last<T>(v: &mut Vec<T>, k: usize)
    requires
        k < old(v).len(),
    ensures
        final(v)@ == old(v)@.update(k as int, old(v)@[old(v)@.len() - 1]).update(
            old(v)@.len() - 1,
            old(v)@[k as int],
        ),
{
    let x = v.swap_remove(k);
    v.push(x);
    proof {
        assert(v@ =~= old(v)@.update(k as int, old(v)@[old(v)@.len() - 1]).update(
            old(v)@.len() - 1,
            old(v)@[k as int],
        ));
    }
}

/// Swapping two elements of a sequence leaves its multiset of elements as it
/// was.
proof fn lemma_swap_multiset<T>(s: Seq<T>, i: int, j: int)
    requires
        0 <= i < s.len(),
        0 <= j < s.len(),
    ensures
        s.update(i, s[j]).update(j, s[i]).to_multiset() == s.to_multiset(),
{
    broadcast use vstd::seq_lib::group_to_multiset_ensures;
    broadcast use vstd::multiset::group_multiset_axioms;

    if i == j {
        assert(s.update(i, s[j]).update(j, s[i]) =~= s);
    } else {
        let s1 = s.update(i, s[j]);
        let s2 = s1.update(j, s[i]);
        assert(s.contains(s[i]));
        assert(s.to_multiset().count(s[i]) > 0);
        assert(s1.to_multiset() == s.to_multiset().insert(s[j]).remove(s[i]));
        assert(s2.to_multiset() == s1.to_multiset().insert(s[i]).remove(s1[j]));
        assert(s1[j] == s[j]);
        assert(s2.to_multiset() =~= s.to_multiset());
    }
}

/// Exchanges the elements at indices `i` and `j`.
fn exchange<T>(v: &mut Vec<T>, i: usize, j: usize)
    requires
        i < old(v).len(),
        j < old(v).len(),
    ensures
        final(v)@ == old(v)@.update(i as int, old(v)@[j as int]).update(j as int, old(v)@[i as int]),
        final(v)@.to_multiset() == old(v)@.to_multiset(),
        final(v)@.len() == old(v)@.len(),
{
    proof {
        lemma_swap_multiset(v@, i as int, j as int);
    }
    let last = v.len() - 1;
    if i == j {
        proof {
            assert(v@ =~= old(v)@.update(i as int, old(v)@[j as int]).update(
                j as int,
                old(v)@[i as int],
            ));
        }
    } else if j == last {
        swap_with_last(v, i);
    } else if i == last {
        swap_with_last(v, j);
        proof {
            assert(v@ =~= old(v)@.update(i as int, old(v)@[j as int]).update(
                j as int,
                old(v)@[i as int],
            ));
        }
    } else {
        swap_with_last(v, i);
        swap_with_last(v, j);
        swap_with_last(v, i);
        proof {
            assert(v@ =~= old(v)@.update(i as int, old(v)@[j as int]).update(
                j as int,
                old(v)@[i as int],
            ));
        }
    }
}

/// Dropping the last element of a sequence removes one occurrence of it from
/// the multiset of elements.
proof fn lemma_drop_last_multiset<T>(u: Seq<T>)
    requires
        u.len() >= 1,
    ensures
        u.drop_last().to_multiset() == u.to_multiset().remove(u.last()),
{
    broadcast use vstd::seq_lib::group_to_multiset_ensures;
    broadcast use vstd::multiset::group_multiset_axioms;

    assert(u =~= u.drop_last().push(u.last()));
    assert(u.to_multiset() == u.drop_last().to_multiset().insert(u.last()));
    assert(u.drop_last().to_multiset() =~= u.to_multiset().remove(u.last()));
}

/// A binary heap over `T`, ordered by the comparator `C`.
///
/// Its view is the backing sequence; `wf` says the sequence is heap-ordered
/// under the comparator.  `add` and `remove_first` keep `wf` whenever the
/// comparator respects its order (see `respects_order`).
pub struct Heap<T, C: Comparator<T>> {
    storage: Vec<T>,
    comparator: C,
}

impl<T, C: Comparator<T>> View for Heap<T, C> {
    type V = Seq<T>;

    closed spec fn view(&self) -> Seq<T> {
        self.storage@
    }
}

impl<T, C: Comparator<T>> Heap<T, C> {
    /// The comparator this heap was built with; it never changes.
    pub closed spec fn ordering(self) -> C {
        self.comparator
    }

    /// The heap invariant: no element outranks its parent.
    pub open spec fn wf(self) -> bool {
        heap_ordered(self.ordering(), self@)
    }

    /// The heap's comparator is usable as an ordering (see `respects_order`).
    pub open spec fn ordering_ok(self) -> bool {
        respects_order::<T, C>(self.ordering())
    }

    /// An empty heap configured with the given comparator.
    pub fn new(comparator: C) -> (r: Self)
        ensures
            r@ == Seq::<T>::empty(),
            r.ordering() == comparator,
            r.wf(),
    {
        let storage = Vec::new();
        Heap { storage, comparator }
    }

    /// A read-only reference to the highest-priority element, absent when the
    /// heap is empty.
    pub fn top(&self) -> (r: Option<&T>)
        ensures
            match r {
                Some(x) => self@.len() > 0 && *x == self@[0],
                None => self@.len() == 0,
            },
    {
        if self.storage.len() > 0 {
            Some(&self.storage[0])
        } else {
            None
        }
    }

    /// The number of stored elements.
    pub fn len(&self) -> (r: usize)
        ensures
            r == self@.len(),
    {
        self.storage.len()
    }

    /// Inserts an element, then restores the invariant by sifting it upward.
    /// Always succeeds; the element count grows by exactly one.
    pub fn add(&mut self, element: T)
        requires
            old(self).wf(),
            old(self).ordering_ok(),
        ensures
            final(self).wf(),
            final(self)@.len() == old(self)@.len() + 1,
            final(self)@.to_multiset() == old(self)@.to_multiset().insert(element),
            final(self).ordering() == old(self).ordering(),
    {
        broadcast use vstd::seq_lib::group_to_multiset_ensures;

        self.storage.push(element);
        let max_index = self.storage.len() - 1;
        self.sift_up(max_index);
    }

    /// Moves the element at `from_index` toward the root until it no longer
    /// outranks its parent.  Restores heap order given that (a) every other
    /// node respects its parent and (b) the children of `from_index` do not
    /// outrank its parent.
    fn sift_up(&mut self, from_index: usize)
        requires
            old(self).ordering_ok(),
            from_index < old(self)@.len(),
            heap_ordered_except(old(self).ordering(), old(self)@, from_index as int),
            from_index >= 1 ==> children_below(
                old(self).ordering(),
                old(self)@,
                from_index as int,
                parent_of(from_index as int),
            ),
        ensures
            final(self).wf(),
            final(self)@.len() == old(self)@.len(),
            final(self)@.to_multiset() == old(self)@.to_multiset(),
            final(self).ordering() == old(self).ordering(),
    {
        let ghost c = self.comparator;
        let ghost s0 = self.storage@;
        let mut idx = from_index;
        while idx > 0
            invariant
                self.comparator == c,
                respects_order::<T, C>(c),
                idx < self.storage@.len(),
                self.storage@.len() == s0.len(),
                self.storage@.to_multiset() == s0.to_multiset(),
                heap_ordered_except(c, self.storage@, idx as int),
                idx >= 1 ==> children_below(
                    c,
                    self.storage@,
                    idx as int,
                    parent_of(idx as int),
                ),
            ensures
                self.comparator == c,
                self.storage@.len() == s0.len(),
                self.storage@.to_multiset() == s0.to_multiset(),
                heap_ordered(c, self.storage@),
            decreases idx,
        {
            let ghost s = self.storage@;
            let pidx = (idx - 1) / 2;
            proof {
                assert(pidx as int == parent_of(idx as int));
                assert(pidx < idx);
            }
            if self.comparator.outranks(&self.storage[idx], &self.storage[pidx]) {
                exchange(&mut self.storage, idx, pidx);
                proof {
                    let t = self.storage@;
                    let j = idx as int;
                    let p = pidx as int;
                    assert(c.ranks_above(s[j], s[p]));
                    assert(heap_ordered_except(c, t, p)) by {
                        assert forall|i: int|
                            1 <= i < t.len() && i != p implies !c.ranks_above(
                            t[i],
                            t[parent_of(i)],
                        ) by {
                            if i == j {
                                assert(t[j] == s[p]);
                                assert(t[p] == s[j]);
                            } else if parent_of(i) == j {
                                assert(t[i] == s[i]);
                                assert(!c.ranks_above(s[i], s[p]));
                            } else if parent_of(i) == p {
                                assert(t[i] == s[i]);
                                assert(!c.ranks_above(s[i], s[p]));
                                assert(!c.ranks_above(s[i], s[j])) by {
                                    if c.ranks_above(s[i], s[j]) {
                                        assert(!c.ranks_above(s[j], s[i]));
                                        assert(!c.ranks_above(s[j], s[p]));
                                    }
                                }
                            } else {
                                assert(t[i] == s[i]);
                                assert(t[parent_of(i)] == s[parent_of(i)]);
                            }
                        }
                    }
                    if p >= 1 {
                        let g = parent_of(p);
                        assert(children_below(c, t, p, g)) by {
                            assert forall|i: int|
                                1 <= i < t.len() && parent_of(i) == p implies !c.ranks_above(
                                t[i],
                                t[g],
                            ) by {
                                assert(g < p);
                                assert(t[g] == s[g]);
                                assert(!c.ranks_above(s[p], s[g]));
                                if i == j {
                                    assert(t[j] == s[p]);
                                } else {
                                    assert(t[i] == s[i]);
                                    assert(!c.ranks_above(s[i], s[p]));
                                }
                            }
                        }
                    }
                }
                idx = pidx;
            } else {
                proof {
                    let j = idx as int;
                    let p = pidx as int;
                    assert(!c.ranks_above(s[j], s[p]));
                    assert(heap_ordered(c, self.storage@));
                }
                break;
            }
        }
    }

    /// Removes and returns the highest-priority element, absent when the heap
    /// is empty.  The root is swapped with the last element, the storage
    /// shrinks by one, and the new root is sifted downward.  Nothing that
    /// remains outranks the element returned.
    pub fn remove_first(&mut self) -> (r: Option<T>)
        requires
            old(self).wf(),
            old(self).ordering_ok(),
        ensures
            final(self).wf(),
            final(self).ordering() == old(self).ordering(),
            old(self)@.len() == 0 ==> r is None && final(self)@ == old(self)@,
            old(self)@.len() > 0 ==> {
                &&& r == Some(old(self)@[0])
                &&& final(self)@.len() == old(self)@.len() - 1
                &&& final(self)@.to_multiset() == old(self)@.to_multiset().remove(old(self)@[0])
                &&& forall|i: int|
                    0 <= i < final(self)@.len() ==> !old(self).ordering().ranks_above(
                        #[trigger] final(self)@[i],
                        old(self)@[0],
                    )
            },
    {
        broadcast use vstd::seq_lib::group_to_multiset_ensures;
        broadcast use vstd::multiset::group_multiset_axioms;

        let ghost c = self.comparator;
        let ghost s = self.storage@;
        if self.storage.len() > 0 {
            let result = self.storage.swap_remove(0);
            proof {
                let n = s.len();
                let u = s.update(0, s[n - 1]);
                assert(u.last() == s[n - 1]);
                assert(self.storage@ == u.drop_last());
                lemma_drop_last_multiset(u);
                assert(u.to_multiset() == s.to_multiset().insert(s[n - 1]).remove(s[0]));
                assert(self.storage@.to_multiset() =~= s.to_multiset().remove(s[0]));
                assert(heap_ordered_except_below(c, self.storage@, 0)) by {
                    let t = self.storage@;
                    assert forall|i: int|
                        1 <= i < t.len() && parent_of(i) != 0 implies !c.ranks_above(
                        t[i],
                        t[parent_of(i)],
                    ) by {
                        assert(t[i] == s[i]);
                        assert(t[parent_of(i)] == s[parent_of(i)]);
                    }
                }
            }
            if self.storage.len() > 0 {
                self.sift_down(0);
            }
            proof {
                let t = self.storage@;
                assert forall|i: int| 0 <= i < t.len() implies !c.ranks_above(t[i], s[0]) by {
                    assert(t.contains(t[i]));
                    assert(t.to_multiset().count(t[i]) > 0);
                    assert(s.to_multiset().count(t[i]) > 0);
                    assert(s.contains(t[i]));
                    let k = choose|k: int| 0 <= k < s.len() && s[k] == t[i];
                    crate::laws::lemma_root_outranks_rest(c, s, k);
                }
            }
            Some(result)
        } else {
            None
        }
    }

    /// Moves the element at `from_index` toward the leaves while a child
    /// outranks it, descending each time into the highest-ranked of the
    /// qualifying children.  Restores heap order given that (a) every node
    /// outside the children of `from_index` respects its parent and (b) the
    /// children of `from_index` do not outrank its parent.
    fn sift_down(&mut self, from_index: usize)
        requires
            old(self).ordering_ok(),
            from_index < old(self)@.len(),
            heap_ordered_except_below(old(self).ordering(), old(self)@, from_index as int),
            from_index >= 1 ==> children_below(
                old(self).ordering(),
                old(self)@,
                from_index as int,
                parent_of(from_index as int),
            ),
        ensures
            final(self).wf(),
            final(self)@.len() == old(self)@.len(),
            final(self)@.to_multiset() == old(self)@.to_multiset(),
            final(self).ordering() == old(self).ordering(),
    {
        let ghost c = self.comparator;
        let ghost s0 = self.storage@;
        let mut idx = from_index;
        while idx < self.storage.len() / 2
            invariant
                self.comparator == c,
                respects_order::<T, C>(c),
                idx < self.storage@.len(),
                self.storage@.len() == s0.len(),
                self.storage@.to_multiset() == s0.to_multiset(),
                heap_ordered_except_below(c, self.storage@, idx as int),
                idx >= 1 ==> children_below(
                    c,
                    self.storage@,
                    idx as int,
                    parent_of(idx as int),
                ),
            ensures
                self.comparator == c,
                self.storage@.len() == s0.len(),
                self.storage@.to_multiset() == s0.to_multiset(),
                heap_ordered(c, self.storage@),
            decreases self.storage@.len() - idx,
        {
            let ghost s = self.storage@;
            let n = self.storage.len();
            let left = 2 * idx + 1;
            let right = left + 1;
            proof {
                assert(left < n);
                assert(parent_of(left as int) == idx as int);
                assert(right < n ==> parent_of(right as int) == idx as int);
                assert forall|i: int| 1 <= i < n && parent_of(i) == idx as int implies i
                    == left as int || i == right as int by {}
            }
            let cidx = if right < n && self.comparator.outranks(
                &self.storage[right],
                &self.storage[left],
            ) {
                right
            } else {
                left
            };
            proof {
                // the chosen child is ranked at least as high as the other
                assert forall|i: int|
                    1 <= i < n && parent_of(i) == idx as int && i != cidx
                        as int implies !c.ranks_above(s[i], s[cidx as int]) by {}
            }
            if self.comparator.outranks(&self.storage[cidx], &self.storage[idx]) {
                exchange(&mut self.storage, idx, cidx);
                proof {
                    let t = self.storage@;
                    let x = idx as int;
                    let cc = cidx as int;
                    assert(c.ranks_above(s[cc], s[x]));
                    assert(heap_ordered_except_below(c, t, cc)) by {
                        assert forall|i: int|
                            1 <= i < t.len() && parent_of(i) != cc implies !c.ranks_above(
                            t[i],
                            t[parent_of(i)],
                        ) by {
                            if i == x {
                                assert(t[x] == s[cc]);
                                assert(t[parent_of(x)] == s[parent_of(x)]);
                                assert(!c.ranks_above(s[cc], s[parent_of(x)]));
                            } else if i == cc {
                                assert(t[cc] == s[x]);
                                assert(t[x] == s[cc]);
                            } else if parent_of(i) == x {
                                assert(t[i] == s[i]);
                                assert(!c.ranks_above(s[i], s[cc]));
                            } else {
                                assert(t[i] == s[i]);
                                assert(t[parent_of(i)] == s[parent_of(i)]);
                            }
                        }
                    }
                    assert(children_below(c, t, cc, parent_of(cc))) by {
                        assert forall|i: int|
                            1 <= i < t.len() && parent_of(i) == cc implies !c.ranks_above(
                            t[i],
                            t[x],
                        ) by {
                            assert(i > cc);
                            assert(t[i] == s[i]);
                            assert(t[x] == s[cc]);
                            assert(!c.ranks_above(s[i], s[cc]));
                        }
                    }
                }
                idx = cidx;
            } else {
                proof {
                    let t = self.storage@;
                    let x = idx as int;
                    let cc = cidx as int;
                    assert(!c.ranks_above(s[cc], s[x]));
                    assert(heap_ordered(c, t)) by {
                        assert forall|i: int| 1 <= i < t.len() implies !c.ranks_above(
                            t[i],
                            t[parent_of(i)],
                        ) by {
                            if parent_of(i) == x && i != cc {
                                assert(!c.ranks_above(s[i], s[cc]));
                            }
                        }
                    }
                }
                break;
            }
        }
    }
}

impl<T: PartialOrd> Heap<T, MinOrder> {
    /// An empty heap whose root is always the minimum element.
    pub fn min_heap() -> (r: Self)
        ensures
            r@ == Seq::<T>::empty(),
            r.ordering() == MinOrder,
            r.wf(),
    {
        Heap::new(MinOrder)
    }
}

impl<T: PartialOrd> Heap<T, MaxOrder> {
    /// An empty heap whose root is always the maximum element.
    pub fn max_heap() -> (r: Self)
        ensures
            r@ == Seq::<T>::empty(),
            r.ordering() == MaxOrder,
            r.wf(),
    {
        Heap::new(MaxOrder)
    }
}

} // verus!
