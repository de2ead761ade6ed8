use vstd::prelude::*;
use rustc_hash::FxHashMap;
use crate::grid_key::{GridCell, GridKey};
use crate::order::{sort_in_place, sorted_by};

verus! {

broadcast use vstd::seq_lib::group_to_multiset_ensures;

/// Pairs `(s[i], s[j])` for one fixed `i` and every `j > i`, in order of `j`.
pub open spec fn row_pairs(s: Seq<usize>, i: int) -> Seq<(usize, usize)> {
    Seq::new((s.len() - i - 1) as nat, |t: int| (s[i], s[i + 1 + t]))
}

/// The rows of `row_pairs` for `i < n`, one after the other.
pub open spec fn intra_pairs(s: Seq<usize>, n: int) -> Seq<(usize, usize)>
    decreases n,
{
    if n <= 0 {
        Seq::empty()
    } else {
        intra_pairs(s, n - 1) + row_pairs(s, n - 1)
    }
}

/// Pairs `(a[i], b[j])` for `i < n` and every `j`, `i` major.
pub open spec fn cross_pairs(a: Seq<usize>, b: Seq<usize>, n: int) -> Seq<(usize, usize)>
    decreases n,
{
    if n <= 0 {
        Seq::empty()
    } else {
        cross_pairs(a, b, n - 1) + Seq::new(b.len(), |t: int| (a[n - 1], b[t]))
    }
}

/// A spatial hash grid: the particle indices of each occupied cell, and the
/// keys of the cells that hold at least one index, in order of first use.
pub struct UniformGrid<K> {
    pub cells: FxHashMap<K, GridCell>,
    pub active_keys: Vec<K>,
}

impl<K: GridKey + Copy> UniformGrid<K> {
    /// The indices stored in the cell `key` (empty when there is no such cell).
    pub open spec fn cell_indices(&self, key: K) -> Seq<usize> {
        cell_indices_in(self.cells@, key)
    }

    /// Every non-empty cell is listed once in `active_keys`, and every listed
    /// cell is non-empty.
    pub open spec fn wf(&self) -> bool {
        &&& self.active_keys@.no_duplicates()
        &&& forall|k: K| #[trigger]
            self.active_keys@.contains(k) <==> self.cell_indices(k).len() > 0
    }

    /// The pairs visited for the neighbour offsets `offs[..n]` of the cell `key`.
    pub open spec fn neighbour_pairs(&self, key: K, offs: Seq<K>, n: int) -> Seq<(usize, usize)>
        decreases n,
    {
        if n <= 0 {
            Seq::empty()
        } else {
            let own = self.cell_indices(key);
            let other = self.cell_indices(key.spec_add(offs[n - 1]));
            self.neighbour_pairs(key, offs, n - 1) + cross_pairs(own, other, own.len() as int)
        }
    }

    /// The pairs visited for one active cell: inside the cell, then with each
    /// neighbour in offset order.
    pub open spec fn key_pairs(&self, key: K) -> Seq<(usize, usize)> {
        let own = self.cell_indices(key);
        intra_pairs(own, own.len() - 1) + self.neighbour_pairs(
            key,
            K::spec_offsets(),
            K::spec_offsets().len() as int,
        )
    }

    /// The pairs visited for the first `n` active cells.
    pub open spec fn visited_pairs(&self, n: int) -> Seq<(usize, usize)>
        decreases n,
    {
        if n <= 0 {
            Seq::empty()
        } else {
            self.visited_pairs(n - 1) + self.key_pairs(self.active_keys@[n - 1])
        }
    }

    pub fn new() -> (r: Self)
        ensures
            r.wf(),
            r.cells@ == Map::<K, GridCell>::empty(),
            r.active_keys@ == Seq::<K>::empty(),
    {
        let r = UniformGrid { cells: FxHashMap::default(), active_keys: Vec::new() };
        assert forall|k: K| #[trigger] r.active_keys@.contains(k) <==> r.cell_indices(k).len()
            > 0 by {}
        r
    }

    /// Drops the cells that hold no particle and releases spare memory; the
    /// particles of every cell and the active keys stay as they were.
    pub fn shrink_to_fit(&mut self)
        requires
            old(self).wf(),
        ensures
            final(self).wf(),
            final(self).active_keys@ == old(self).active_keys@,
            forall|k: K| #[trigger] final(self).cell_indices(k) == old(self).cell_indices(k),
            forall|k: K| #[trigger]
                final(self).cells@.contains_key(k) <==> old(self).cell_indices(k).len() > 0,
    {
        K::cells_retain_occupied(&mut self.cells);
        K::cells_shrink(&mut self.cells);
        vec_shrink_to_fit(&mut self.active_keys);
        proof {
            assert forall|k: K| #[trigger] self.cell_indices(k) == old(self).cell_indices(k) by {
                if old(self).cells@.contains_key(k) && old(self).cells@[k].indices@.len() > 0 {
                    assert(old(self).cells@.dom().filter(
                        |k2: K| old(self).cells@[k2].indices@.len() > 0,
                    ).contains(k));
                }
            }
            assert forall|k: K| #[trigger] self.active_keys@.contains(k) <==> self.cell_indices(k).len()
                > 0 by {
                assert(old(self).active_keys@.contains(k) <==> old(self).cell_indices(k).len() > 0);
            }
        }
    }

    /// Empties every active cell, keeping the cells themselves for reuse.
    pub fn clear(&mut self)
        requires
            old(self).wf(),
        ensures
            final(self).wf(),
            final(self).active_keys@ == Seq::<K>::empty(),
            final(self).cells@.dom() == old(self).cells@.dom(),
            forall|k: K| #[trigger] final(self).cell_indices(k) == Seq::<usize>::empty(),
    {
        let n = self.active_keys.len();
        let mut a: usize = 0;
        proof {
            assert forall|k: K| #![trigger cell_indices_in(self.cells@, k)]
                cell_indices_in(self.cells@, k).len() > 0 <==> exists|b: int|
                    0 <= b < n && self.active_keys@[b] == k by {
                assert(self.active_keys@.contains(k) == (self.cell_indices(k).len() > 0));
            }
        }
        while a < n
            invariant
                n == self.active_keys@.len(),
                self.active_keys@ == old(self).active_keys@,
                self.active_keys@.no_duplicates(),
                a <= n,
                self.cells@.dom() == old(self).cells@.dom(),
                forall|k: K|
                    #![trigger cell_indices_in(self.cells@, k)]
                    cell_indices_in(self.cells@, k).len() > 0 <==> exists|b: int|
                        a <= b < n && self.active_keys@[b] == k,
            decreases n - a,
        {
            let key = self.active_keys[a];
            let ghost before = self.cells@;
            let ghost keys = self.active_keys@;
            assert(forall|k: K| #![trigger cell_indices_in(before, k)]
                cell_indices_in(before, k).len() > 0 ==> exists|b: int|
                    a <= b < n && keys[b] == k);
            let taken = K::cell_take(&mut self.cells, &key);
            if let Some(mut cell) = taken {
                cell.indices.clear();
                K::cell_put(&mut self.cells, key, cell);
            }
            proof {
                assert(self.cells@.dom() =~= before.dom());
                assert(self.cell_indices(key) =~= Seq::<usize>::empty());
                assert forall|k: K| k != key implies self.cell_indices(k) == cell_indices_in(
                    before,
                    k,
                ) by {
                    assert(self.cells@.contains_key(k) == before.contains_key(k));
                    if before.contains_key(k) {
                        assert(self.cells@[k] == before[k]);
                    }
                }
                assert forall|k: K| #![trigger cell_indices_in(self.cells@, k)]
                    cell_indices_in(self.cells@, k).len() > 0 <==> exists|b: int|
                        a + 1 <= b < n && self.active_keys@[b] == k by {
                    if k != key {
                        assert(self.cell_indices(k) == cell_indices_in(before, k));
                        if cell_indices_in(before, k).len() > 0 {
                            assert(self.active_keys@ == keys);
                            let b = choose|b: int| a <= b < n && keys[b] == k;
                            assert(b != a);
                            assert(a + 1 <= b < n && self.active_keys@[b] == k);
                        }
                    } else {
                        if exists|b: int| a + 1 <= b < n && self.active_keys@[b] == k {
                            let b = choose|b: int| a + 1 <= b < n && self.active_keys@[b] == k;
                            assert(self.active_keys@[a as int] == self.active_keys@[b]);
                        }
                    }
                }
            }
            a = a + 1;
        }
        proof {
            assert forall|k: K| #[trigger] cell_indices_in(self.cells@, k) == Seq::<usize>::empty() by {
                assert(!(exists|b: int| n <= b < n && self.active_keys@[b] == k));
                assert(cell_indices_in(self.cells@, k) =~= Seq::<usize>::empty());
            }
        }
        self.active_keys.clear();
        proof {
            assert forall|k: K| #[trigger] self.active_keys@.contains(k) <==> self.cell_indices(
                k,
            ).len() > 0 by {
                assert(cell_indices_in(self.cells@, k) == Seq::<usize>::empty());
            }
            assert forall|k: K| #[trigger] self.cell_indices(k) == Seq::<usize>::empty() by {
                assert(cell_indices_in(self.cells@, k) == Seq::<usize>::empty());
            }
        }
    }

    /// Adds particle `index` to the cell `cell_key`, activating the cell when it
    /// was empty.
    pub fn insert(&mut self, cell_key: K, index: usize)
        requires
            old(self).wf(),
        ensures
            final(self).wf(),
            final(self).cell_indices(cell_key) == old(self).cell_indices(cell_key).push(index),
            forall|k: K| k != cell_key ==> #[trigger] final(self).cell_indices(k) == old(
                self,
            ).cell_indices(k),
            final(self).cells@.dom() == old(self).cells@.dom().insert(cell_key),
            final(self).active_keys@ == if old(self).cell_indices(cell_key).len() == 0 {
                old(self).active_keys@.push(cell_key)
            } else {
                old(self).active_keys@
            },
    {
        let ghost before = self.cells@;
        let taken = K::cell_take(&mut self.cells, &cell_key);
        match taken {
            Some(mut cell) => {
                if cell.indices.len() == 0 {
                    self.active_keys.push(cell_key);
                }
                cell.indices.push(index);
                K::cell_put(&mut self.cells, cell_key, cell);
            },
            None => {
                let mut cell = GridCell::new();
                cell.indices.push(index);
                K::cell_put(&mut self.cells, cell_key, cell);
                self.active_keys.push(cell_key);
            },
        }
        proof {
            assert(self.cells@.dom() =~= before.dom().insert(cell_key));
            assert forall|k: K| k != cell_key implies #[trigger] self.cell_indices(k)
                == old(self).cell_indices(k) by {
                assert(self.cells@.contains_key(k) == before.contains_key(k));
            }
            assert(self.cell_indices(cell_key) =~= old(self).cell_indices(cell_key).push(index));
            assert forall|k: K| #[trigger] self.active_keys@.contains(k) <==> self.cell_indices(
                k,
            ).len() > 0 by {
                if k != cell_key {
                    assert(self.cell_indices(k) == old(self).cell_indices(k));
                    assert(old(self).active_keys@.contains(k) == (old(self).cell_indices(k).len() > 0));
                    if self.active_keys@.contains(k) {
                        let j = choose|j: int| 0 <= j < self.active_keys@.len() && self.active_keys@[j] == k;
                        if j < old(self).active_keys@.len() {
                            assert(old(self).active_keys@[j] == k);
                        }
                    }
                    if old(self).active_keys@.contains(k) {
                        let j = choose|j: int| 0 <= j < old(self).active_keys@.len() && old(self).active_keys@[j] == k;
                        assert(self.active_keys@[j] == k);
                    }
                } else {
                    if old(self).cell_indices(cell_key).len() == 0 {
                        assert(self.active_keys@[self.active_keys@.len() - 1] == k);
                    } else {
                        assert(old(self).active_keys@.contains(k));
                    }
                }
            }
            if old(self).cell_indices(cell_key).len() == 0 {
                assert(!old(self).active_keys@.contains(cell_key));
                assert forall|a: int, b: int|
                    0 <= a < self.active_keys@.len() && 0 <= b < self.active_keys@.len() && a != b
                    implies self.active_keys@[a] != self.active_keys@[b] by {
                    let last = self.active_keys@.len() - 1;
                    if a == last {
                        assert(old(self).active_keys@[b] == self.active_keys@[b]);
                    } else if b == last {
                        assert(old(self).active_keys@[a] == self.active_keys@[a]);
                    } else {
                        assert(old(self).active_keys@[a] == self.active_keys@[a]);
                        assert(old(self).active_keys@[b] == self.active_keys@[b]);
                    }
                }
            }
        }
    }

    /// Clears the grid, then inserts particle `i` into the cell `keys[i]` for
    /// every `i` in order.
    pub fn populate(&mut self, keys: &[K])
        requires
            old(self).wf(),
        ensures
            final(self).wf(),
            forall|k: K| #[trigger] final(self).cell_indices(k) == indices_with_key(
                keys@,
                k,
                keys@.len() as int,
            ),
            final(self).active_keys@ == first_use_keys(keys@, keys@.len() as int),
    {
        self.clear();
        let n = keys.len();
        let mut i: usize = 0;
        while i < n
            invariant
                n == keys@.len(),
                i <= n,
                self.wf(),
                forall|k: K| #[trigger] self.cell_indices(k) == indices_with_key(
                    keys@,
                    k,
                    i as int,
                ),
                self.active_keys@ == first_use_keys(keys@, i as int),
            decreases n - i,
        {
            let key = keys[i];
            proof {
                lemma_first_use(keys@, key, i as int);
            }
            self.insert(key, i);
            proof {
                assert forall|k: K| #[trigger] self.cell_indices(k) == indices_with_key(
                    keys@,
                    k,
                    i + 1,
                ) by {
                    if k != key {
                        assert(self.cell_indices(k) == indices_with_key(keys@, k, i as int));
                    }
                }
            }
            i = i + 1;
        }
    }

    /// The visited pairs whose two indices are both below `max_len`, in visiting
    /// order: the pairs a collision pass over `max_len` particles resolves.
    pub fn pairs_below(&self, max_len: usize) -> (r: Vec<(usize, usize)>)
        ensures
            r@ == self.visited_pairs(self.active_keys@.len() as int).filter(
                |p: (usize, usize)| p.0 < max_len && p.1 < max_len,
            ),
    {
        let all = self.traverse_grid_cells();
        let ghost pred = |p: (usize, usize)| p.0 < max_len && p.1 < max_len;
        let mut out: Vec<(usize, usize)> = Vec::new();
        let n = all.len();
        let mut i: usize = 0;
        while i < n
            invariant
                n == all@.len(),
                i <= n,
                pred == (|p: (usize, usize)| p.0 < max_len && p.1 < max_len),
                out@ == all@.take(i as int).filter(pred),
            decreases n - i,
        {
            proof {
                assert(all@.take(i + 1) =~= all@.take(i as int).push(all@[i as int]));
                all@.take(i as int).lemma_filter_push(all@[i as int], pred);
            }
            let (a, b) = all[i];
            if a < max_len && b < max_len {
                out.push((a, b));
            }
            i = i + 1;
        }
        proof {
            assert(all@.take(n as int) =~= all@);
        }
        out
    }

    /// `populate`, then orders the active cells by their key, lexicographically.
    pub fn populate_sort(&mut self, keys: &[K])
        requires
            old(self).wf(),
        ensures
            final(self).wf(),
            forall|k: K| #[trigger] final(self).cell_indices(k) == indices_with_key(
                keys@,
                k,
                keys@.len() as int,
            ),
            sorted_by(final(self).active_keys@),
            final(self).active_keys@.to_multiset() == first_use_keys(
                keys@,
                keys@.len() as int,
            ).to_multiset(),
    {
        self.populate(keys);
        let ghost unsorted = self.active_keys@;
        let ghost cells = self.cells@;
        assert forall|k: K| #[trigger] cell_indices_in(cells, k) == indices_with_key(
            keys@,
            k,
            keys@.len() as int,
        ) by {
            assert(self.cell_indices(k) == indices_with_key(keys@, k, keys@.len() as int));
        }
        assert forall|k: K| #[trigger] unsorted.contains(k) <==> cell_indices_in(cells, k).len()
            > 0 by {
            assert(self.active_keys@.contains(k) <==> self.cell_indices(k).len() > 0);
        }
        sort_in_place(self.active_keys.as_mut_slice());
        proof {
            assert(self.cells@ == cells);
            assert forall|k: K| #[trigger] self.cell_indices(k) == indices_with_key(
                keys@,
                k,
                keys@.len() as int,
            ) by {
                assert(cell_indices_in(cells, k) == indices_with_key(keys@, k, keys@.len() as int));
            }
            unsorted.lemma_multiset_has_no_duplicates();
            self.active_keys@.lemma_multiset_has_no_duplicates_conv();
            assert forall|k: K| #[trigger] self.active_keys@.contains(k) <==> self.cell_indices(
                k,
            ).len() > 0 by {
                assert(self.active_keys@.contains(k) <==> self.active_keys@.to_multiset().count(k)
                    > 0);
                assert(unsorted.contains(k) <==> unsorted.to_multiset().count(k) > 0);
                assert(unsorted.contains(k) <==> cell_indices_in(cells, k).len() > 0);
            }
        }
    }

    /// The pairs of particle indices to test for contact, in the order they are
    /// visited: for each active cell, the pairs inside the cell, then the pairs
    /// formed with each neighbouring cell given by `GridKey::offsets`.
    pub fn traverse_grid_cells(&self) -> (r: Vec<(usize, usize)>)
        ensures
            r@ == self.visited_pairs(self.active_keys@.len() as int),
    {
        let mut out: Vec<(usize, usize)> = Vec::new();
        let offsets = K::offsets();
        let n = self.active_keys.len();
        let mut a: usize = 0;
        while a < n
            invariant
                n == self.active_keys@.len(),
                a <= n,
                offsets@ == K::spec_offsets(),
                out@ == self.visited_pairs(a as int),
            decreases n - a,
        {
            let cell_key = self.active_keys[a];
            let ghost start = out@;
            let empty: Vec<usize> = Vec::new();
            let indices = match K::cell_get(&self.cells, &cell_key) {
                Some(cell) => &cell.indices,
                None => &empty,
            };
            assert(indices@ == self.cell_indices(cell_key));
            push_intra_pairs(&mut out, indices);
            let m = offsets.len();
            let mut o: usize = 0;
            while o < m
                invariant
                    m == offsets@.len(),
                    o <= m,
                    offsets@ == K::spec_offsets(),
                    indices@ == self.cell_indices(cell_key),
                    out@ == start + intra_pairs(indices@, indices@.len() - 1)
                        + self.neighbour_pairs(cell_key, offsets@, o as int),
                decreases m - o,
            {
                let neighbor_key = cell_key.add(offsets[o]);
                match K::cell_get(&self.cells, &neighbor_key) {
                    Some(neighbor_cell) => {
                        push_cross_pairs(&mut out, indices, &neighbor_cell.indices);
                    },
                    None => {
                        assert(cross_pairs(
                            indices@,
                            self.cell_indices(neighbor_key),
                            indices@.len() as int,
                        ) =~= Seq::<(usize, usize)>::empty()) by {
                            lemma_cross_pairs_empty(
                                indices@,
                                self.cell_indices(neighbor_key),
                                indices@.len() as int,
                            );
                        }
                    },
                }
                proof {
                    assert(out@ =~= start + intra_pairs(indices@, indices@.len() - 1)
                        + self.neighbour_pairs(cell_key, offsets@, o + 1));
                }
                o = o + 1;
            }
            proof {
                assert(out@ =~= self.visited_pairs(a + 1));
            }
            a = a + 1;
        }
        out
    }
}

/// `Vec::shrink_to_fit`: std documents that it lowers the capacity only, so
/// the elements stay as they were.
#[verifier::external_body]
fn vec_shrink_to_fit<T>(v: &mut Vec<T>)
    ensures
        final(v)@ == old(v)@,
{
    v.shrink_to_fit();
}

/// The positions `i < n` with `keys[i] == k`, ascending.
pub open spec fn indices_with_key<K>(keys: Seq<K>, k: K, n: int) -> Seq<usize>
    decreases n,
{
    if n <= 0 {
        Seq::empty()
    } else if keys[n - 1] == k {
        indices_with_key(keys, k, n - 1).push((n - 1) as usize)
    } else {
        indices_with_key(keys, k, n - 1)
    }
}

/// The distinct keys among `keys[..n]`, in the order of their first occurrence.
pub open spec fn first_use_keys<K>(keys: Seq<K>, n: int) -> Seq<K>
    decreases n,
{
    if n <= 0 {
        Seq::empty()
    } else {
        let prev = first_use_keys(keys, n - 1);
        if prev.contains(keys[n - 1]) {
            prev
        } else {
            prev.push(keys[n - 1])
        }
    }
}

/// A key has been used among `keys[..n]` exactly when some particle was filed
/// under it.
proof fn lemma_first_use<K>(keys: Seq<K>, k: K, n: int)
    requires
        0 <= n <= keys.len(),
    ensures
        first_use_keys(keys, n).contains(k) <==> indices_with_key(keys, k, n).len() > 0,
    decreases n,
{
    if n > 0 {
        lemma_first_use(keys, k, n - 1);
        let prev = first_use_keys(keys, n - 1);
        if !prev.contains(keys[n - 1]) {
            assert(prev.push(keys[n - 1])[prev.len() as int] == keys[n - 1]);
            if prev.contains(k) {
                let j = choose|j: int| 0 <= j < prev.len() && prev[j] == k;
                assert(prev.push(keys[n - 1])[j] == k);
            }
            if prev.push(keys[n - 1]).contains(k) && k != keys[n - 1] {
                let ext = prev.push(keys[n - 1]);
                let j = choose|j: int| 0 <= j < ext.len() && ext[j] == k;
                assert(prev[j] == k);
            }
        }
    }
}

/// The indices stored under `k` in a cell map (empty when there is no such cell).
pub open spec fn cell_indices_in<K>(m: Map<K, GridCell>, k: K) -> Seq<usize> {
    if m.contains_key(k) {
        m[k].indices@
    } else {
        Seq::empty()
    }
}

proof fn lemma_cross_pairs_empty(a: Seq<usize>, b: Seq<usize>, n: int)
    requires
        b.len() == 0,
    ensures
        cross_pairs(a, b, n) == Seq::<(usize, usize)>::empty(),
    decreases n,
{
    if n > 0 {
        lemma_cross_pairs_empty(a, b, n - 1);
        assert(cross_pairs(a, b, n) =~= Seq::<(usize, usize)>::empty());
    }
}

/// Appends the pairs of distinct positions of `s`, lower position first.
fn push_intra_pairs(out: &mut Vec<(usize, usize)>, s: &Vec<usize>)
    ensures
        final(out)@ == old(out)@ + intra_pairs(s@, s@.len() - 1),
{
    let len = s.len();
    if len >= 2 {
        let mut i: usize = 0;
        while i < len - 1
            invariant
                len == s@.len(),
                len >= 2,
                i <= len - 1,
                out@ == old(out)@ + intra_pairs(s@, i as int),
            decreases len - i,
        {
            let ghost row_start = out@;
            let mut j: usize = i + 1;
            while j < len
                invariant
                    len == s@.len(),
                    i < j <= len,
                    out@ == row_start + row_pairs(s@, i as int).take(j - i - 1),
                decreases len - j,
            {
                out.push((s[i], s[j]));
                proof {
                    assert(out@ =~= row_start + row_pairs(s@, i as int).take(j - i));
                }
                j = j + 1;
            }
            proof {
                assert(row_pairs(s@, i as int).take(len - i - 1) =~= row_pairs(s@, i as int));
                assert(out@ =~= old(out)@ + intra_pairs(s@, i + 1));
            }
            i = i + 1;
        }
    } else {
        assert(intra_pairs(s@, s@.len() - 1) =~= Seq::<(usize, usize)>::empty());
        assert(out@ =~= old(out)@ + intra_pairs(s@, s@.len() - 1));
    }
}

/// Appends every pair `(x, y)` with `x` from `a` and `y` from `b`, `a` major.
fn push_cross_pairs(out: &mut Vec<(usize, usize)>, a: &Vec<usize>, b: &Vec<usize>)
    ensures
        final(out)@ == old(out)@ + cross_pairs(a@, b@, a@.len() as int),
{
    let la = a.len();
    let lb = b.len();
    let mut i: usize = 0;
    while i < la
        invariant
            la == a@.len(),
            lb == b@.len(),
            i <= la,
            out@ == old(out)@ + cross_pairs(a@, b@, i as int),
        decreases la - i,
    {
        let ghost row_start = out@;
        let mut j: usize = 0;
        while j < lb
            invariant
                la == a@.len(),
                lb == b@.len(),
                i < la,
                j <= lb,
                out@ == row_start + Seq::new(b@.len(), |t: int| (a@[i as int], b@[t])).take(
                    j as int,
                ),
            decreases lb - j,
        {
            out.push((a[i], b[j]));
            proof {
                assert(out@ =~= row_start + Seq::new(b@.len(), |t: int| (a@[i as int], b@[t])).take(
                    j + 1,
                ));
            }
            j = j + 1;
        }
        proof {
            assert(Seq::new(b@.len(), |t: int| (a@[i as int], b@[t])).take(lb as int) =~= Seq::new(
                b@.len(),
                |t: int| (a@[i as int], b@[t]),
            ));
            assert(out@ =~= old(out)@ + cross_pairs(a@, b@, i + 1));
        }
        i = i + 1;
    }
}

} // verus!
