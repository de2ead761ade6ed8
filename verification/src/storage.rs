use vstd::prelude::*;
use vstd::seq_lib::lemma_multiset_commutative;
use crate::order::{sort_in_place, TotalOrder};

verus! {

broadcast use vstd::seq_lib::group_to_multiset_ensures;

/// A sequence is sorted in non-decreasing order.
pub open spec fn sorted(s: Seq<usize>) -> bool {
    forall|a: int, b: int| 0 <= a <= b < s.len() ==> s[a] <= s[b]
}

/// What `swap_remove(i)` leaves behind: the last element moves into slot `i`.
pub open spec fn swap_removed<T>(s: Seq<T>, i: int) -> Seq<T> {
    s.update(i, s.last()).drop_last()
}

/// The elements of `e` at positions `lo..hi` whose position is not in `removed`,
/// in the order they had.
pub open spec fn kept_between<T>(e: Seq<T>, removed: Set<int>, lo: int, hi: int) -> Seq<T>
    decreases hi - lo,
{
    if lo >= hi {
        Seq::empty()
    } else {
        let rest = kept_between(e, removed, lo + 1, hi);
        if removed.contains(lo) {
            rest
        } else {
            seq![e[lo]] + rest
        }
    }
}

/// The positions below `len` that occur in `indices`.
pub open spec fn index_set(indices: Seq<usize>, len: nat) -> Set<int> {
    Set::new(|v: int| 0 <= v < len && indices.contains(v as usize))
}

/// The elements of `e` that survive removing every position listed in `indices`
/// (positions out of range, and repeated positions, remove nothing more).
pub open spec fn kept_elements<T>(e: Seq<T>, indices: Seq<usize>) -> Seq<T> {
    kept_between(e, index_set(indices, e.len()), 0, e.len() as int)
}

/// What swap-removing, largest position first, every position of `removed`
/// in `lo..hi` does to `e`: each removal moves the last element into the hole.
pub open spec fn swap_cascade<T>(e: Seq<T>, removed: Set<int>, lo: int, hi: int) -> Seq<T>
    decreases hi - lo,
{
    if hi <= lo {
        e
    } else {
        swap_cascade(
            if removed.contains(hi - 1) {
                swap_removed(e, hi - 1)
            } else {
                e
            },
            removed,
            lo,
            hi - 1,
        )
    }
}

proof fn lemma_cascade_split<T>(e: Seq<T>, s: Set<int>, lo: int, mid: int, hi: int)
    requires
        lo <= mid <= hi,
    ensures
        swap_cascade(e, s, lo, hi) == swap_cascade(swap_cascade(e, s, mid, hi), s, lo, mid),
    decreases hi - mid,
{
    if mid < hi {
        let e1 = if s.contains(hi - 1) {
            swap_removed(e, hi - 1)
        } else {
            e
        };
        lemma_cascade_split(e1, s, lo, mid, hi - 1);
    }
}

proof fn lemma_cascade_none<T>(e: Seq<T>, s: Set<int>, lo: int, hi: int)
    requires
        forall|v: int| lo <= v < hi ==> !s.contains(v),
    ensures
        swap_cascade(e, s, lo, hi) == e,
    decreases hi - lo,
{
    if lo < hi {
        lemma_cascade_none(e, s, lo, hi - 1);
    }
}

/// With `v` the only position of `s` in `v..hi`, the cascade over `v..hi` is
/// one swap-removal at `v`.
proof fn lemma_cascade_single<T>(e: Seq<T>, s: Set<int>, v: int, hi: int)
    requires
        v < hi,
        s.contains(v),
        forall|w: int| v < w < hi ==> !s.contains(w),
    ensures
        swap_cascade(e, s, v, hi) == swap_removed(e, v),
{
    lemma_cascade_split(e, s, v, v + 1, hi);
    lemma_cascade_none(e, s, v + 1, hi);
    assert(swap_cascade(e, s, v, v + 1) == swap_cascade(swap_removed(e, v), s, v, v));
}

/// The positions of `s` in `lo..hi`, counted.
pub open spec fn count_in(s: Set<int>, lo: int, hi: int) -> nat
    decreases hi - lo,
{
    if hi <= lo {
        0
    } else {
        count_in(s, lo, hi - 1) + if s.contains(hi - 1) {
            1nat
        } else {
            0nat
        }
    }
}

/// The positions of `s` below `k`, as a finite set, number `count_in(s, 0, k)`.
proof fn lemma_count_in_is_len(s: Set<int>, k: int)
    requires
        0 <= k,
    ensures
        Set::new(|v: int| 0 <= v < k && s.contains(v)).finite(),
        Set::new(|v: int| 0 <= v < k && s.contains(v)).len() == count_in(s, 0, k),
    decreases k,
{
    let t = Set::new(|v: int| 0 <= v < k && s.contains(v));
    if k == 0 {
        assert(t =~= Set::<int>::empty());
    } else {
        lemma_count_in_is_len(s, k - 1);
        let t0 = Set::new(|v: int| 0 <= v < k - 1 && s.contains(v));
        if s.contains(k - 1) {
            assert(t =~= t0.insert(k - 1));
        } else {
            assert(t =~= t0);
        }
    }
}

proof fn lemma_cascade_len<T>(e: Seq<T>, s: Set<int>, lo: int, hi: int)
    requires
        0 <= lo,
        hi <= e.len(),
    ensures
        swap_cascade(e, s, lo, hi).len() == e.len() - count_in(s, lo, hi),
    decreases hi - lo,
{
    if lo < hi {
        let e1 = if s.contains(hi - 1) {
            swap_removed(e, hi - 1)
        } else {
            e
        };
        lemma_cascade_len(e1, s, lo, hi - 1);
    }
}

/// The cascade over every position removes as many elements as `s` lists
/// positions below the length.
proof fn lemma_removed_count<T>(e: Seq<T>, s: Set<int>)
    requires
        forall|v: int| #[trigger] s.contains(v) ==> 0 <= v < e.len(),
    ensures
        s.finite(),
        swap_cascade(e, s, 0, e.len() as int).len() == e.len() - s.len(),
{
    lemma_count_in_is_len(s, e.len() as int);
    assert(Set::new(|v: int| 0 <= v < e.len() && s.contains(v)) =~= s);
    lemma_cascade_len(e, s, 0, e.len() as int);
}

proof fn lemma_kept_split<T>(e: Seq<T>, s: Set<int>, lo: int, mid: int, hi: int)
    requires
        lo <= mid <= hi,
    ensures
        kept_between(e, s, lo, hi) == kept_between(e, s, lo, mid) + kept_between(e, s, mid, hi),
    decreases mid - lo,
{
    if lo < mid {
        lemma_kept_split(e, s, lo + 1, mid, hi);
        assert(kept_between(e, s, lo, hi) =~= kept_between(e, s, lo, mid) + kept_between(
            e,
            s,
            mid,
            hi,
        ));
    } else {
        assert(kept_between(e, s, lo, mid) =~= Seq::<T>::empty());
        assert(kept_between(e, s, lo, hi) =~= kept_between(e, s, lo, mid) + kept_between(
            e,
            s,
            mid,
            hi,
        ));
    }
}

proof fn lemma_kept_untouched<T>(e: Seq<T>, s: Set<int>, lo: int, hi: int)
    requires
        0 <= lo <= hi <= e.len(),
        forall|v: int| lo <= v < hi ==> !s.contains(v),
    ensures
        kept_between(e, s, lo, hi) == e.subrange(lo, hi),
    decreases hi - lo,
{
    if lo < hi {
        lemma_kept_untouched(e, s, lo + 1, hi);
        assert(kept_between(e, s, lo, hi) =~= e.subrange(lo, hi));
    } else {
        assert(kept_between(e, s, lo, hi) =~= e.subrange(lo, hi));
    }
}

/// Looks for `x` among the first `hi` entries of the sorted slice `s`.
pub fn sorted_position(s: &[usize], hi: usize, x: usize) -> (r: Option<usize>)
    requires
        hi <= s@.len(),
        sorted(s@),
    ensures
        r matches Some(p) ==> p < hi && s@[p as int] == x,
        r is None ==> forall|p: int| 0 <= p < hi ==> s@[p] != x,
{
    let mut lo: usize = 0;
    let mut up: usize = hi;
    while lo < up
        invariant
            0 <= lo <= up <= hi <= s@.len(),
            sorted(s@),
            forall|p: int| 0 <= p < lo ==> s@[p] < x,
            forall|p: int| up <= p < hi ==> s@[p] > x,
        decreases up - lo,
    {
        let mid = lo + (up - lo) / 2;
        if s[mid] < x {
            lo = mid + 1;
        } else if s[mid] > x {
            up = mid;
        } else {
            return Some(mid);
        }
    }
    None
}

proof fn lemma_kept_none<T>(e: Seq<T>, s: Set<int>, lo: int, hi: int)
    requires
        forall|v: int| lo <= v < hi ==> s.contains(v),
    ensures
        kept_between(e, s, lo, hi) == Seq::<T>::empty(),
    decreases hi - lo,
{
    if lo < hi {
        lemma_kept_none(e, s, lo + 1, hi);
    }
}

/// Removing exactly the positions of the elements appended last gives back the
/// elements that were there before, in their order: `after` is any outcome
/// that `ElementStorage::remove_indices` allows for such indices.
pub proof fn lemma_remove_appended_restores<T>(
    before: Seq<T>,
    appended: Seq<T>,
    indices: Seq<usize>,
    after: Seq<T>,
)
    requires
        forall|v: int| #[trigger]
            index_set(indices, (before + appended).len()).contains(v) <==> (before.len() <= v
                < before.len() + appended.len()),
        after.len() == kept_elements(before + appended, indices).len(),
        forall|p: int|
            0 <= p < after.len() && (forall|v: int|
                index_set(indices, (before + appended).len()).contains(v) ==> p < v) ==> after[p]
                == (before + appended)[p],
    ensures
        after == before,
{
    let e = before + appended;
    let n = before.len() as int;
    let set = index_set(indices, e.len());
    lemma_kept_split(e, set, 0, n, e.len() as int);
    lemma_kept_untouched(e, set, 0, n);
    lemma_kept_none(e, set, n, e.len() as int);
    assert(kept_elements(e, indices).len() == n);
    assert forall|p: int| 0 <= p < after.len() implies after[p] == before[p] by {
        assert forall|v: int| set.contains(v) implies p < v by {}
    }
    assert(after =~= before);
}

/// Any simulation storage engine.
pub trait Storage {
    /// Number of items or cells currently active.
    spec fn spec_len(&self) -> nat;

    /// Number of items or cells currently active in the storage.
    fn len(&self) -> (r: usize)
        ensures
            r == self.spec_len(),
    ;

    /// Maximum items or cells before reallocation.
    fn capacity(&self) -> (r: usize)
        ensures
            r >= self.spec_len(),
    ;

    /// Returns `true` if the storage contains no elements.
    fn is_empty(&self) -> (r: bool)
        ensures
            r == (self.spec_len() == 0),
    {
        self.len() == 0
    }

    /// Called before the solver starts a step.
    fn pre_step(&mut self) {
    }

    /// Called after the solver completes a step.
    fn post_step(&mut self) {
    }

    /// Remove all items from storage without deallocating backing memory.
    fn clear(&mut self)
        ensures
            final(self).spec_len() == 0,
    ;
}

/// Storage of cells on a fixed `DIM`-dimensional grid (fluids, fields,
/// cellular automata): cells are addressed by coordinates and are never pushed
/// or removed.
pub trait GridStorage<const DIM: usize>: Storage {
    /// The payload of one cell.
    type CellData;

    /// The read-only view of the whole grid.
    type GridView<'a> where Self: 'a;

    /// The mutable view of the whole grid.
    type GridViewMut<'a> where Self: 'a;

    fn grid_view(&self) -> Self::GridView<'_>;

    fn grid_view_mut(&mut self) -> Self::GridViewMut<'_>;

    /// The cell at `coord`.
    fn get_cell(&self, coord: [usize; DIM]) -> &Self::CellData;
}

/// Storage of discrete, indexable simulation elements.
pub trait ElementStorage: Storage {
    /// The exchange format for an individual element.
    type Element;

    /// The elements held, in index order.
    spec fn elements(&self) -> Seq<Self::Element>;

    /// The active length is the number of elements.
    proof fn lemma_len_is_element_count(&self)
        ensures
            self.spec_len() == self.elements().len(),
    ;

    /// Appends an element to the end of the collection.
    fn push(&mut self, element: Self::Element)
        ensures
            final(self).elements() == old(self).elements().push(element),
    ;

    /// Removes the element at `index`, moving the last element into its slot.
    fn swap_remove(&mut self, index: usize) -> (r: Self::Element)
        requires
            index < old(self).elements().len(),
        ensures
            r == old(self).elements()[index as int],
            final(self).elements() == swap_removed(old(self).elements(), index as int),
    ;

    /// Appends every element of `items`, in order.
    fn extend_from_iter(&mut self, items: Vec<Self::Element>)
        ensures
            final(self).elements() == old(self).elements() + items@,
    {
        let ghost start = self.elements();
        let ghost all = items@;
        for item in it: items.into_iter()
            invariant
                it.seq() == all,
                self.elements() == start + all.take(it.index() as int),
        {
            self.push(item);
            assert(all.take(it.index() + 1) =~= all.take(it.index() as int).push(item));
        }
        assert(all.take(all.len() as int) =~= all);
    }

    /// Removes every element whose position is listed in `indices`, by repeated
    /// `swap_remove` from the highest position down. Positions out of range and
    /// repeated positions are ignored; `indices` is left sorted.
    fn remove_indices(&mut self, indices: &mut [usize])
        ensures
            sorted(final(indices)@),
            final(indices)@.to_multiset() == old(indices)@.to_multiset(),
            final(self).elements().to_multiset() == kept_elements(
                old(self).elements(),
                old(indices)@,
            ).to_multiset(),
            final(self).elements().len() == kept_elements(
                old(self).elements(),
                old(indices)@,
            ).len(),
            forall|p: int|
                0 <= p < final(self).elements().len() && (forall|v: int|
                    index_set(old(indices)@, old(self).elements().len()).contains(v) ==> p < v)
                    ==> final(self).elements()[p] == old(self).elements()[p],
            index_set(old(indices)@, old(self).elements().len()).finite(),
            final(self).elements().len() == old(self).elements().len() - index_set(
                old(indices)@,
                old(self).elements().len(),
            ).len(),
            final(self).elements() == swap_cascade(
                old(self).elements(),
                index_set(old(indices)@, old(self).elements().len()),
                0,
                old(self).elements().len() as int,
            ),
    {
        let ghost e0 = self.elements();
        let ghost l0: nat = e0.len();
        let ghost s0 = index_set(old(indices)@, l0);
        proof {
            self.lemma_len_is_element_count();
        }
        if indices.len() == 0 {
            proof {
                assert forall|v: int| 0 <= v < l0 implies !s0.contains(v) by {
                    assert(!old(indices)@.contains(v as usize));
                }
                lemma_kept_untouched(e0, s0, 0, l0 as int);
                assert(e0.subrange(0, l0 as int) =~= e0);
                lemma_cascade_none(e0, s0, 0, l0 as int);
                lemma_removed_count(e0, s0);
            }
            return;
        }
        sort_in_place(indices);
        let ghost ind = indices@;
        proof {
            assert forall|a: int, b: int| 0 <= a <= b < ind.len() implies ind[a] <= ind[b] by {
                assert(ind[a].spec_ordered(ind[b]));
            }
            assert forall|v: int| s0.contains(v) <==> 0 <= v < l0 && ind.contains(v as usize) by {
                assert(ind.contains(v as usize) <==> ind.to_multiset().count(v as usize) > 0);
                assert(old(indices)@.contains(v as usize) <==> old(indices)@.to_multiset().count(
                    v as usize,
                ) > 0);
            }
        }
        let mut current_len = self.len();
        let ghost mut bound: int = l0 as int;
        let mut k = indices.len();
        while k > 0
            invariant
                indices@ == ind,
                sorted(ind),
                0 < ind.len(),
                k <= ind.len(),
                l0 == e0.len(),
                current_len == self.elements().len(),
                self.spec_len() == self.elements().len(),
                self.elements() == swap_cascade(e0, s0, bound, l0 as int),
                0 <= bound <= current_len <= l0,
                bound < l0 ==> s0.contains(bound),
                forall|v: int| s0.contains(v) <==> 0 <= v < l0 && ind.contains(v as usize),
                forall|p: int| 0 <= p < bound ==> self.elements()[p] == e0[p],
                self.elements().subrange(bound, current_len as int).to_multiset() == kept_between(
                    e0,
                    s0,
                    bound,
                    l0 as int,
                ).to_multiset(),
                forall|j: int| 0 <= j < k ==> ind[j] < bound || ind[j] >= l0,
                forall|j: int|
                    k <= j < ind.len() ==> #[trigger] ind[j] >= bound || (k > 0 && ind[j] == ind[k - 1]),
            decreases k,
        {
            let i = k - 1;
            let target_idx = indices[i];
            if i > 0 && target_idx == indices[i - 1] {
                // repeated position: handled when its first copy comes up
            } else if target_idx < current_len {
                let tail_idx = current_len - 1;
                let ghost before = self.elements();
                proof {
                    assert(target_idx < bound);
                    self.lemma_len_is_element_count();
                }
                let _moved_item = self.swap_remove(target_idx);
                proof {
                    self.lemma_len_is_element_count();
                    lemma_remove_step(e0, s0, before, target_idx as int, bound, l0 as int);
                    assert forall|w: int| target_idx < w < bound implies !s0.contains(w) by {
                        if s0.contains(w) {
                            let j = choose|j: int| 0 <= j < ind.len() && ind[j] == w as usize;
                            if j < i {
                                assert(ind[j] <= ind[i as int]);
                            } else if j > i {
                                assert(ind[j] >= bound || ind[j] == ind[k - 1]);
                            }
                        }
                    }
                    lemma_remove_multiset(e0, s0, before, target_idx as int, bound, l0 as int);
                    assert(s0.contains(target_idx as int)) by {
                        assert(ind[i as int] == target_idx);
                    }
                    lemma_cascade_split(e0, s0, target_idx as int, bound, l0 as int);
                    lemma_cascade_single(before, s0, target_idx as int, bound);
                }
                if target_idx != tail_idx {
                    let found = sorted_position(indices, i, tail_idx);
                    if let Some(p) = found {
                        proof {
                            assert(ind[p as int] <= ind[i as int]);
                        }
                        let mut pos = p;
                        while pos > 0 && indices[pos - 1] > target_idx
                            invariant
                                pos < indices@.len(),
                            decreases pos,
                        {
                            indices[pos] = indices[pos - 1];
                            pos = pos - 1;
                        }
                        indices[pos] = target_idx;
                    }
                }
                current_len = current_len - 1;
                proof {
                    if i > 0 {
                        assert(ind[i - 1] != target_idx);
                        assert(ind[i - 1] <= ind[i as int]);
                    }
                    assert(ind[i as int] == target_idx);
                    assert(s0.contains(target_idx as int));
                    bound = target_idx as int;
                }
            }
            k = i;
        }
        proof {
            assert forall|v: int| 0 <= v < bound implies !s0.contains(v) by {
                if s0.contains(v) {
                    let j = choose|j: int| 0 <= j < ind.len() && ind[j] == v as usize;
                    assert(ind[j] >= bound);
                }
            }
            lemma_kept_untouched(e0, s0, 0, bound);
            lemma_kept_split(e0, s0, 0, bound, l0 as int);
            lemma_cascade_split(e0, s0, 0, bound, l0 as int);
            lemma_cascade_none(self.elements(), s0, 0, bound);
            lemma_removed_count(e0, s0);
            let el = self.elements();
            assert(el =~= el.subrange(0, bound) + el.subrange(bound, current_len as int));
            assert(el.subrange(0, bound) =~= e0.subrange(0, bound));
            lemma_multiset_commutative(el.subrange(0, bound), el.subrange(bound, current_len as int));
            lemma_multiset_commutative(e0.subrange(0, bound), kept_between(e0, s0, bound, l0 as int));
            assert(kept_elements(e0, old(indices)@) == kept_between(e0, s0, 0, l0 as int));
            assert(el.to_multiset().len() == el.len());
            assert(kept_elements(e0, old(indices)@).to_multiset().len() == kept_elements(e0, old(indices)@).len());
            assert forall|p: int|
                0 <= p < el.len() && (forall|v: int| s0.contains(v) ==> p < v) implies el[p] == e0[p] by {
                if p >= bound {
                    assert(bound < l0);
                    assert(s0.contains(bound));
                }
            }
        }
    }
}

/// Element storage laid out as one contiguous array of whole elements.
pub trait AosStorage: ElementStorage {
    fn as_slice(&self) -> (r: &[Self::Element])
        ensures
            r@ == self.elements(),
    ;

    fn as_slice_mut(&mut self) -> (r: &mut [Self::Element])
        ensures
            r@ == old(self).elements(),
            final(self).elements() == final(r)@,
    ;

    fn get(&self, i: usize) -> (r: &Self::Element)
        requires
            i < self.elements().len(),
        ensures
            *r == self.elements()[i as int],
    {
        &self.as_slice()[i]
    }
}

proof fn lemma_remove_multiset<T>(
    e0: Seq<T>,
    s0: Set<int>,
    before: Seq<T>,
    v: int,
    bound: int,
    l0: int,
)
    requires
        0 <= v < bound <= before.len() <= l0 == e0.len(),
        s0.contains(v),
        forall|w: int| v < w < bound ==> !s0.contains(w),
        forall|p: int| 0 <= p < bound ==> before[p] == e0[p],
        before.subrange(bound, before.len() as int).to_multiset() == kept_between(
            e0,
            s0,
            bound,
            l0,
        ).to_multiset(),
    ensures
        swap_removed(before, v).subrange(v, before.len() - 1).to_multiset() == kept_between(
            e0,
            s0,
            v,
            l0,
        ).to_multiset(),
{
    let n = swap_removed(before, v);
    let cl = before.len() as int;
    lemma_kept_split(e0, s0, v + 1, bound, l0);
    lemma_kept_untouched(e0, s0, v + 1, bound);
    assert(kept_between(e0, s0, v, l0) == kept_between(e0, s0, v + 1, l0));
    assert(before.subrange(v + 1, bound) =~= e0.subrange(v + 1, bound));
    assert(before.subrange(v + 1, cl) =~= before.subrange(v + 1, bound) + before.subrange(bound, cl));
    lemma_multiset_commutative(before.subrange(v + 1, bound), before.subrange(bound, cl));
    lemma_multiset_commutative(e0.subrange(v + 1, bound), kept_between(e0, s0, bound, l0));
    if v == cl - 1 {
        assert(n.subrange(v, cl - 1) =~= Seq::<T>::empty());
        assert(before.subrange(v + 1, cl) =~= Seq::<T>::empty());
    } else {
        assert(n.subrange(v, cl - 1) =~= seq![before[cl - 1]] + before.subrange(v + 1, cl - 1));
        assert(before.subrange(v + 1, cl) =~= before.subrange(v + 1, cl - 1) + seq![before[cl - 1]]);
        lemma_multiset_commutative(seq![before[cl - 1]], before.subrange(v + 1, cl - 1));
        lemma_multiset_commutative(before.subrange(v + 1, cl - 1), seq![before[cl - 1]]);
        assert(n.subrange(v, cl - 1).to_multiset() =~= before.subrange(v + 1, cl).to_multiset())
            by {
            broadcast use vstd::multiset::group_multiset_axioms;
        }
    }
}

proof fn lemma_remove_step<T>(e0: Seq<T>, s0: Set<int>, before: Seq<T>, v: int, bound: int, l0: int)
    requires
        0 <= v < bound <= before.len() <= l0 == e0.len(),
        forall|p: int| 0 <= p < bound ==> before[p] == e0[p],
    ensures
        forall|p: int| 0 <= p < v ==> swap_removed(before, v)[p] == e0[p],
        swap_removed(before, v).len() == before.len() - 1,
{
}

} // verus!
