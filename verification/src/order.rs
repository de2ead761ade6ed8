use vstd::prelude::*;
use vstd::seq_lib::to_multiset_update;

verus! {

broadcast use vstd::seq_lib::group_to_multiset_ensures;

/// A total preorder with an executable comparison.
pub trait TotalOrder: Sized {
    /// Whether `self` may come before `other`.
    spec fn spec_ordered(self, other: Self) -> bool;

    fn is_le(&self, other: &Self) -> (r: bool)
        ensures
            r == self.spec_ordered(*other),
    ;

    proof fn lemma_le_total(a: Self, b: Self)
        ensures
            a.spec_ordered(b) || b.spec_ordered(a),
    ;

    proof fn lemma_le_transitive(a: Self, b: Self, c: Self)
        requires
            a.spec_ordered(b),
            b.spec_ordered(c),
        ensures
            a.spec_ordered(c),
    ;
}

/// Positions in increasing numeric order.
impl TotalOrder for usize {
    open spec fn spec_ordered(self, other: usize) -> bool {
        self <= other
    }

    fn is_le(&self, other: &usize) -> (r: bool) {
        *self <= *other
    }

    proof fn lemma_le_total(a: usize, b: usize) {
    }

    proof fn lemma_le_transitive(a: usize, b: usize, c: usize) {
    }
}

/// Every element may come before every later one.
pub open spec fn sorted_by<T: TotalOrder>(s: Seq<T>) -> bool {
    forall|a: int, b: int| 0 <= a <= b < s.len() ==> #[trigger] s[a].spec_ordered(#[trigger] s[b])
}

/// Exchanging two elements keeps the multiset.
proof fn lemma_swap_preserves_multiset<T>(s: Seq<T>, a: int, b: int)
    requires
        0 <= a < s.len(),
        0 <= b < s.len(),
    ensures
        s.update(a, s[b]).update(b, s[a]).to_multiset() == s.to_multiset(),
{
    broadcast use vstd::multiset::group_multiset_axioms;

    let s1 = s.update(a, s[b]);
    to_multiset_update(s, a, s[b]);
    to_multiset_update(s1, b, s[a]);
    assert(s1.update(b, s[a]).to_multiset() =~= s.to_multiset());
}

/// Sorts `s` in place (insertion sort), keeping its elements.
pub fn sort_in_place<T: TotalOrder + Copy>(s: &mut [T])
    ensures
        sorted_by(final(s)@),
        final(s)@.to_multiset() == old(s)@.to_multiset(),
        final(s)@.len() == old(s)@.len(),
{
    let n = s.len();
    if n == 0 {
        return;
    }
    let mut i: usize = 1;
    proof {
        T::lemma_le_total(s@[0], s@[0]);
    }
    while i < n
        invariant
            s@.len() == n,
            s@.to_multiset() == old(s)@.to_multiset(),
            1 <= i <= n,
            forall|a: int, b: int| 0 <= a <= b < i ==> #[trigger] s@[a].spec_ordered(#[trigger] s@[b]),
        decreases n - i,
    {
        let mut j: usize = i;
        proof {
            T::lemma_le_total(s@[i as int], s@[i as int]);
        }
        while j > 0 && !s[j - 1].is_le(&s[j])
            invariant
                s@.len() == n,
                s@.to_multiset() == old(s)@.to_multiset(),
                0 <= j <= i < n,
                forall|a: int, b: int|
                    0 <= a <= b < j ==> #[trigger] s@[a].spec_ordered(#[trigger] s@[b]),
                forall|a: int, b: int|
                    j <= a <= b <= i ==> #[trigger] s@[a].spec_ordered(#[trigger] s@[b]),
                forall|a: int, b: int|
                    0 <= a < j && j < b <= i ==> #[trigger] s@[a].spec_ordered(#[trigger] s@[b]),
            decreases j,
        {
            let x = s[j - 1];
            let y = s[j];
            proof {
                T::lemma_le_total(x, y);
                lemma_swap_preserves_multiset(s@, j - 1, j as int);
            }
            s[j - 1] = y;
            s[j] = x;
            j = j - 1;
        }
        proof {
            assert forall|a: int, b: int| 0 <= a <= b < i + 1 implies #[trigger] s@[a].spec_ordered(
                #[trigger] s@[b],
            ) by {
                if a < j && j <= b {
                    T::lemma_le_transitive(s@[a], s@[j - 1], s@[j as int]);
                    T::lemma_le_transitive(s@[a], s@[j as int], s@[b]);
                }
            }
        }
        i = i + 1;
    }
}

} // verus!
