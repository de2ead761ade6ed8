use vstd::prelude::*;
use crate::grid::{cross_pairs, indices_with_key, intra_pairs, row_pairs, UniformGrid};
use crate::grid_key::GridKey;
use vstd::seq_lib::lemma_no_dup_in_concat;

verus! {

/// `s` is strictly increasing.
pub open spec fn strictly_increasing(s: Seq<usize>) -> bool {
    forall|i: int, j: int| 0 <= i < j < s.len() ==> s[i] < s[j]
}

/// Whether a traversal of the grid filled from `keys` should visit `(a, b)`:
/// both are particles, and `b` shares the cell of `a` and comes after it, or
/// `b` sits in a cell that `a`'s cell lists as a neighbour.
pub open spec fn neighbour_pair<K: GridKey>(keys: Seq<K>, a: usize, b: usize) -> bool {
    &&& a < keys.len()
    &&& b < keys.len()
    &&& ((a < b && keys[a as int] == keys[b as int]) || exists|o: int|
        0 <= o < K::spec_offsets().len() && keys[b as int] == #[trigger] keys[a as int].spec_add(
            K::spec_offsets()[o],
        ))
}

/// The particles filed under `k` are those whose key is `k`, in increasing order.
proof fn lemma_indices_with_key<K>(keys: Seq<K>, k: K, n: int)
    requires
        0 <= n <= keys.len(),
        keys.len() <= usize::MAX,
    ensures
        strictly_increasing(indices_with_key(keys, k, n)),
        forall|x: usize| #[trigger]
            indices_with_key(keys, k, n).contains(x) <==> (x < n && keys[x as int] == k),
    decreases n,
{
    if n > 0 {
        lemma_indices_with_key(keys, k, n - 1);
        let prev = indices_with_key(keys, k, n - 1);
        let s = indices_with_key(keys, k, n);
        if keys[n - 1] == k {
            assert(s == prev.push((n - 1) as usize));
            assert forall|x: usize| #[trigger] s.contains(x) <==> (x < n && keys[x as int] == k) by {
                if s.contains(x) {
                    let i = choose|i: int| 0 <= i < s.len() && s[i] == x;
                    if i < prev.len() {
                        assert(prev[i] == x);
                        assert(prev.contains(x));
                    }
                }
                if x < n && keys[x as int] == k {
                    if x == n - 1 {
                        assert(s[prev.len() as int] == x);
                    } else {
                        assert(prev.contains(x));
                        let i = choose|i: int| 0 <= i < prev.len() && prev[i] == x;
                        assert(s[i] == x);
                    }
                }
            }
            assert forall|i: int, j: int| 0 <= i < j < s.len() implies s[i] < s[j] by {
                if j == prev.len() {
                    assert(prev.contains(prev[i]));
                } else {
                    assert(s[i] == prev[i] && s[j] == prev[j]);
                }
            }
        } else {
            assert(s == prev);
        }
    }
}

/// The pairs of the first `m` rows: a position below `m`, then a later one.
proof fn lemma_intra_pairs(s: Seq<usize>, m: int)
    requires
        0 <= m <= s.len(),
        strictly_increasing(s),
    ensures
        forall|p: (usize, usize)| #[trigger]
            intra_pairs(s, m).contains(p) <==> exists|i: int, j: int|
                0 <= i < m && i < j < s.len() && #[trigger] s[i] == p.0 && #[trigger] s[j] == p.1,
        intra_pairs(s, m).no_duplicates(),
    decreases m,
{
    if m > 0 {
        lemma_intra_pairs(s, m - 1);
        let prev = intra_pairs(s, m - 1);
        let row = row_pairs(s, m - 1);
        assert(intra_pairs(s, m) == prev + row);
        assert forall|p: (usize, usize)| #[trigger] (prev + row).contains(p) <==> exists|i: int, j: int|
            0 <= i < m && i < j < s.len() && #[trigger] s[i] == p.0 && #[trigger] s[j] == p.1 by {
            if (prev + row).contains(p) {
                let q = choose|q: int| 0 <= q < (prev + row).len() && (prev + row)[q] == p;
                if q < prev.len() {
                    assert(prev[q] == p);
                    assert(prev.contains(p));
                } else {
                    let t = q - prev.len();
                    assert(row[t] == p);
                    assert(s[m - 1] == p.0 && s[m + t] == p.1);
                }
            }
            if exists|i: int, j: int|
                0 <= i < m && i < j < s.len() && #[trigger] s[i] == p.0 && #[trigger] s[j] == p.1 {
                let (i, j) = choose|i: int, j: int|
                    0 <= i < m && i < j < s.len() && #[trigger] s[i] == p.0 && #[trigger] s[j]
                        == p.1;
                if i < m - 1 {
                    assert(prev.contains(p));
                    let q = choose|q: int| 0 <= q < prev.len() && prev[q] == p;
                    assert((prev + row)[q] == p);
                } else {
                    let t = j - m;
                    assert(row[t] == p);
                    assert((prev + row)[prev.len() + t] == p);
                }
            }
        }
        assert(row.no_duplicates()) by {
            assert forall|a: int, b: int| 0 <= a < row.len() && 0 <= b < row.len() && a != b implies row[a]
                != row[b] by {
                assert(s[m + a] != s[m + b]) by {
                    if a < b {
                        assert(s[m + a] < s[m + b]);
                    } else {
                        assert(s[m + b] < s[m + a]);
                    }
                }
            }
        }
        assert forall|a: int, b: int| 0 <= a < prev.len() && 0 <= b < row.len() implies prev[a]
            != row[b] by {
            assert(prev.contains(prev[a]));
            let (i, j) = choose|i: int, j: int|
                0 <= i < m - 1 && i < j < s.len() && #[trigger] s[i] == prev[a].0 && #[trigger] s[j]
                    == prev[a].1;
            assert(s[i] < s[m - 1]);
        }
        lemma_no_dup_in_concat(prev, row);
    }
}

/// The pairs of a whole cell: two of its particles, the smaller first.
proof fn lemma_cell_pairs(s: Seq<usize>)
    requires
        strictly_increasing(s),
    ensures
        forall|p: (usize, usize)| #[trigger]
            intra_pairs(s, s.len() - 1).contains(p) <==> (s.contains(p.0) && s.contains(p.1)
                && p.0 < p.1),
        intra_pairs(s, s.len() - 1).no_duplicates(),
{
    if s.len() == 0 {
        assert(intra_pairs(s, s.len() - 1) =~= Seq::<(usize, usize)>::empty());
    } else {
        lemma_intra_pairs(s, s.len() - 1);
        assert forall|p: (usize, usize)| #[trigger]
            intra_pairs(s, s.len() - 1).contains(p) <==> (s.contains(p.0) && s.contains(p.1) && p.0
                < p.1) by {
            if s.contains(p.0) && s.contains(p.1) && p.0 < p.1 {
                let i = choose|i: int| 0 <= i < s.len() && s[i] == p.0;
                let j = choose|j: int| 0 <= j < s.len() && s[j] == p.1;
                if j <= i {
                    if j < i {
                        assert(s[j] < s[i]);
                    }
                }
                assert(i < j);
            }
            if intra_pairs(s, s.len() - 1).contains(p) {
                let (i, j) = choose|i: int, j: int|
                    0 <= i < s.len() - 1 && i < j < s.len() && #[trigger] s[i] == p.0
                        && #[trigger] s[j] == p.1;
                assert(s[i] < s[j]);
            }
        }
    }
}

/// The pairs of `cross_pairs(a, b, m)`: one of the first `m` of `a`, then any of `b`.
proof fn lemma_cross_pairs(a: Seq<usize>, b: Seq<usize>, m: int)
    requires
        0 <= m <= a.len(),
        a.no_duplicates(),
        b.no_duplicates(),
    ensures
        forall|p: (usize, usize)| #[trigger]
            cross_pairs(a, b, m).contains(p) <==> (exists|i: int| 0 <= i < m && #[trigger] a[i] == p.0)
                && b.contains(p.1),
        cross_pairs(a, b, m).no_duplicates(),
    decreases m,
{
    if m > 0 {
        lemma_cross_pairs(a, b, m - 1);
        let prev = cross_pairs(a, b, m - 1);
        let row = Seq::new(b.len(), |t: int| (a[m - 1], b[t]));
        assert(cross_pairs(a, b, m) == prev + row);
        assert forall|p: (usize, usize)| #[trigger] (prev + row).contains(p) <==> (exists|i: int|
            0 <= i < m && #[trigger] a[i] == p.0) && b.contains(p.1) by {
            if (prev + row).contains(p) {
                let q = choose|q: int| 0 <= q < (prev + row).len() && (prev + row)[q] == p;
                if q < prev.len() {
                    assert(prev[q] == p);
                    assert(prev.contains(p));
                } else {
                    let t = q - prev.len();
                    assert(row[t] == p);
                    assert(a[m - 1] == p.0);
                    assert(b[t] == p.1);
                }
            }
            if (exists|i: int| 0 <= i < m && #[trigger] a[i] == p.0) && b.contains(p.1) {
                let i = choose|i: int| 0 <= i < m && #[trigger] a[i] == p.0;
                let t = choose|t: int| 0 <= t < b.len() && b[t] == p.1;
                if i < m - 1 {
                    assert(prev.contains(p));
                    let q = choose|q: int| 0 <= q < prev.len() && prev[q] == p;
                    assert((prev + row)[q] == p);
                } else {
                    assert(row[t] == p);
                    assert((prev + row)[prev.len() + t] == p);
                }
            }
        }
        assert forall|x: int, y: int| 0 <= x < prev.len() && 0 <= y < row.len() implies prev[x]
            != row[y] by {
            assert(prev.contains(prev[x]));
            let i = choose|i: int| 0 <= i < m - 1 && #[trigger] a[i] == prev[x].0;
        }
        lemma_no_dup_in_concat(prev, row);
    } else {
        assert(cross_pairs(a, b, m) =~= Seq::<(usize, usize)>::empty());
    }
}

/// A strictly increasing sequence holds no value twice.
proof fn lemma_increasing_no_duplicates(s: Seq<usize>)
    requires
        strictly_increasing(s),
    ensures
        s.no_duplicates(),
{
    assert forall|i: int, j: int| 0 <= i < s.len() && 0 <= j < s.len() && i != j implies s[i]
        != s[j] by {
        if i < j {
            assert(s[i] < s[j]);
        } else {
            assert(s[j] < s[i]);
        }
    }
}

/// The grid holds, under every key `k`, the particles whose key in `keys` is `k`.
pub open spec fn filled_from<K: GridKey + Copy>(g: UniformGrid<K>, keys: Seq<K>) -> bool {
    forall|k: K| #[trigger] g.cell_indices(k) == indices_with_key(keys, k, keys.len() as int)
}

/// The pairs formed with the first `m` neighbouring cells of `key`: a particle
/// of `key`, then a particle of one of those cells.
proof fn lemma_neighbour_pairs<K: GridKey + Copy>(g: UniformGrid<K>, keys: Seq<K>, key: K, m: int)
    requires
        keys.len() <= usize::MAX,
        filled_from(g, keys),
        0 <= m <= K::spec_offsets().len(),
    ensures
        forall|p: (usize, usize)| #[trigger]
            g.neighbour_pairs(key, K::spec_offsets(), m).contains(p) <==> (p.0 < keys.len()
                && keys[p.0 as int] == key && p.1 < keys.len() && exists|o: int|
                0 <= o < m && keys[p.1 as int] == #[trigger] key.spec_add(K::spec_offsets()[o])),
        g.neighbour_pairs(key, K::spec_offsets(), m).no_duplicates(),
    decreases m,
{
    let n = keys.len() as int;
    let offs = K::spec_offsets();
    if m > 0 {
        lemma_neighbour_pairs(g, keys, key, m - 1);
        let prev = g.neighbour_pairs(key, offs, m - 1);
        let nk = key.spec_add(offs[m - 1]);
        let own = g.cell_indices(key);
        let other = g.cell_indices(nk);
        let term = cross_pairs(own, other, own.len() as int);
        assert(g.neighbour_pairs(key, offs, m) == prev + term);
        lemma_indices_with_key(keys, key, n);
        lemma_indices_with_key(keys, nk, n);
        lemma_increasing_no_duplicates(own);
        lemma_increasing_no_duplicates(other);
        lemma_cross_pairs(own, other, own.len() as int);
        assert forall|p: (usize, usize)| #[trigger] term.contains(p) <==> (p.0 < n && keys[p.0 as int]
            == key && p.1 < n && keys[p.1 as int] == nk) by {
            if p.0 < n && keys[p.0 as int] == key {
                assert(own.contains(p.0));
                let i = choose|i: int| 0 <= i < own.len() && own[i] == p.0;
                assert(own[i] == p.0);
            }
            if term.contains(p) {
                let i = choose|i: int| 0 <= i < own.len() && #[trigger] own[i] == p.0;
                assert(own.contains(own[i]));
            }
        }
        assert forall|p: (usize, usize)| #[trigger] (prev + term).contains(p) <==> (p.0 < n
            && keys[p.0 as int] == key && p.1 < n && exists|o: int|
            0 <= o < m && keys[p.1 as int] == #[trigger] key.spec_add(offs[o])) by {
            if (prev + term).contains(p) {
                let q = choose|q: int| 0 <= q < (prev + term).len() && (prev + term)[q] == p;
                if q < prev.len() {
                    assert(prev[q] == p);
                    assert(prev.contains(p));
                    let o = choose|o: int|
                        0 <= o < m - 1 && keys[p.1 as int] == #[trigger] key.spec_add(offs[o]);
                    assert(keys[p.1 as int] == key.spec_add(offs[o]));
                } else {
                    assert(term[q - prev.len()] == p);
                    assert(term.contains(p));
                    assert(keys[p.1 as int] == key.spec_add(offs[m - 1]));
                }
            }
            if p.0 < n && keys[p.0 as int] == key && p.1 < n && exists|o: int|
                0 <= o < m && keys[p.1 as int] == #[trigger] key.spec_add(offs[o]) {
                let o = choose|o: int| 0 <= o < m && keys[p.1 as int] == #[trigger] key.spec_add(offs[o]);
                if o < m - 1 {
                    assert(prev.contains(p));
                    let q = choose|q: int| 0 <= q < prev.len() && prev[q] == p;
                    assert((prev + term)[q] == p);
                } else {
                    assert(term.contains(p));
                    let q = choose|q: int| 0 <= q < term.len() && term[q] == p;
                    assert((prev + term)[prev.len() + q] == p);
                }
            }
        }
        assert forall|x: int, y: int| 0 <= x < prev.len() && 0 <= y < term.len() implies prev[x]
            != term[y] by {
            let p = prev[x];
            assert(prev.contains(p));
            assert(term.contains(term[y]));
            let o = choose|o: int| 0 <= o < m - 1 && keys[p.1 as int] == #[trigger] key.spec_add(offs[o]);
            K::lemma_neighbours_distinct(key, o, m - 1);
        }
        lemma_no_dup_in_concat(prev, term);
    } else {
        assert(g.neighbour_pairs(key, offs, m) =~= Seq::<(usize, usize)>::empty());
    }
}

/// The pairs visited for the cell `key`: a particle of the cell first, then a
/// partner that `neighbour_pair` admits.
proof fn lemma_key_pairs<K: GridKey + Copy>(g: UniformGrid<K>, keys: Seq<K>, key: K)
    requires
        keys.len() <= usize::MAX,
        filled_from(g, keys),
    ensures
        forall|p: (usize, usize)| #[trigger]
            g.key_pairs(key).contains(p) <==> (neighbour_pair(keys, p.0, p.1) && keys[p.0 as int]
                == key),
        g.key_pairs(key).no_duplicates(),
{
    let n = keys.len() as int;
    let offs = K::spec_offsets();
    let own = g.cell_indices(key);
    lemma_indices_with_key(keys, key, n);
    lemma_cell_pairs(own);
    lemma_neighbour_pairs(g, keys, key, offs.len() as int);
    let intra = intra_pairs(own, own.len() - 1);
    let nb = g.neighbour_pairs(key, offs, offs.len() as int);
    assert(g.key_pairs(key) == intra + nb);
    assert forall|p: (usize, usize)| #[trigger] (intra + nb).contains(p) <==> (neighbour_pair(
        keys,
        p.0,
        p.1,
    ) && keys[p.0 as int] == key) by {
        if (intra + nb).contains(p) {
            let q = choose|q: int| 0 <= q < (intra + nb).len() && (intra + nb)[q] == p;
            if q < intra.len() {
                assert(intra[q] == p);
                assert(intra.contains(p));
            } else {
                assert(nb[q - intra.len()] == p);
                assert(nb.contains(p));
            }
        }
        if neighbour_pair(keys, p.0, p.1) && keys[p.0 as int] == key {
            if p.0 < p.1 && keys[p.0 as int] == keys[p.1 as int] {
                assert(own.contains(p.0) && own.contains(p.1));
                assert(intra.contains(p));
                let q = choose|q: int| 0 <= q < intra.len() && intra[q] == p;
                assert((intra + nb)[q] == p);
            } else {
                assert(nb.contains(p));
                let q = choose|q: int| 0 <= q < nb.len() && nb[q] == p;
                assert((intra + nb)[intra.len() + q] == p);
            }
        }
    }
    assert forall|x: int, y: int| 0 <= x < intra.len() && 0 <= y < nb.len() implies intra[x]
        != nb[y] by {
        let p = nb[y];
        assert(nb.contains(p));
        assert(intra.contains(intra[x]));
        let o = choose|o: int| 0 <= o < offs.len() && keys[p.1 as int] == #[trigger] key.spec_add(offs[o]);
        K::lemma_neighbours_one_way(key, o, o);
        assert(own.contains(intra[x].1));
    }
    lemma_no_dup_in_concat(intra, nb);
}

/// The pairs visited for the first `t` active cells: the admitted pairs whose
/// first particle lies in one of those cells.
proof fn lemma_visited_pairs<K: GridKey + Copy>(g: UniformGrid<K>, keys: Seq<K>, t: int)
    requires
        keys.len() <= usize::MAX,
        filled_from(g, keys),
        g.wf(),
        0 <= t <= g.active_keys@.len(),
    ensures
        forall|p: (usize, usize)| #[trigger]
            g.visited_pairs(t).contains(p) <==> (neighbour_pair(keys, p.0, p.1) && exists|s: int|
                0 <= s < t && #[trigger] g.active_keys@[s] == keys[p.0 as int]),
        g.visited_pairs(t).no_duplicates(),
    decreases t,
{
    let act = g.active_keys@;
    if t > 0 {
        lemma_visited_pairs(g, keys, t - 1);
        lemma_key_pairs(g, keys, act[t - 1]);
        let prev = g.visited_pairs(t - 1);
        let term = g.key_pairs(act[t - 1]);
        assert(g.visited_pairs(t) == prev + term);
        assert forall|p: (usize, usize)| #[trigger] (prev + term).contains(p) <==> (neighbour_pair(
            keys,
            p.0,
            p.1,
        ) && exists|s: int| 0 <= s < t && #[trigger] act[s] == keys[p.0 as int]) by {
            if (prev + term).contains(p) {
                let q = choose|q: int| 0 <= q < (prev + term).len() && (prev + term)[q] == p;
                if q < prev.len() {
                    assert(prev[q] == p);
                    assert(prev.contains(p));
                    let s = choose|s: int| 0 <= s < t - 1 && #[trigger] act[s] == keys[p.0 as int];
                    assert(act[s] == keys[p.0 as int]);
                } else {
                    assert(term[q - prev.len()] == p);
                    assert(term.contains(p));
                    assert(act[t - 1] == keys[p.0 as int]);
                }
            }
            if neighbour_pair(keys, p.0, p.1) && exists|s: int|
                0 <= s < t && #[trigger] act[s] == keys[p.0 as int] {
                let s = choose|s: int| 0 <= s < t && #[trigger] act[s] == keys[p.0 as int];
                if s < t - 1 {
                    assert(prev.contains(p));
                    let q = choose|q: int| 0 <= q < prev.len() && prev[q] == p;
                    assert((prev + term)[q] == p);
                } else {
                    assert(term.contains(p));
                    let q = choose|q: int| 0 <= q < term.len() && term[q] == p;
                    assert((prev + term)[prev.len() + q] == p);
                }
            }
        }
        assert forall|x: int, y: int| 0 <= x < prev.len() && 0 <= y < term.len() implies prev[x]
            != term[y] by {
            let p = prev[x];
            assert(prev.contains(p));
            assert(term.contains(term[y]));
            let s = choose|s: int| 0 <= s < t - 1 && #[trigger] act[s] == keys[p.0 as int];
            assert(act[s] != act[t - 1]);
        }
        lemma_no_dup_in_concat(prev, term);
    } else {
        assert(g.visited_pairs(t) =~= Seq::<(usize, usize)>::empty());
    }
}

/// Once the grid is filled from `keys` (particle `i` in the cell `keys[i]`),
/// its traversal visits every pair of particles that share a cell or sit in
/// neighbouring cells exactly once and in one orientation only, and no other
/// pair: within a cell the smaller index comes first, across cells the particle
/// of the cell that lists the other as a neighbour comes first.
pub proof fn lemma_traversal_visits_neighbour_pairs_once<K: GridKey + Copy>(
    g: UniformGrid<K>,
    keys: Seq<K>,
)
    requires
        g.wf(),
        keys.len() <= usize::MAX,
        filled_from(g, keys),
    ensures
        forall|p: (usize, usize)| #[trigger]
            g.visited_pairs(g.active_keys@.len() as int).contains(p) <==> neighbour_pair(
                keys,
                p.0,
                p.1,
            ),
        g.visited_pairs(g.active_keys@.len() as int).no_duplicates(),
        forall|a: usize, b: usize|
            #[trigger] g.visited_pairs(g.active_keys@.len() as int).contains((a, b))
                ==> !g.visited_pairs(g.active_keys@.len() as int).contains((b, a)),
{
    let n = keys.len() as int;
    let act = g.active_keys@;
    let v = g.visited_pairs(act.len() as int);
    let offs = K::spec_offsets();
    lemma_visited_pairs(g, keys, act.len() as int);
    assert forall|p: (usize, usize)| #[trigger] v.contains(p) <==> neighbour_pair(keys, p.0, p.1) by {
        if neighbour_pair(keys, p.0, p.1) {
            let k = keys[p.0 as int];
            lemma_indices_with_key(keys, k, n);
            assert(g.cell_indices(k).contains(p.0));
            assert(act.contains(k));
            let s = choose|s: int| 0 <= s < act.len() && act[s] == k;
            assert(act[s] == keys[p.0 as int]);
        }
    }
    assert forall|a: usize, b: usize| #[trigger] v.contains((a, b)) implies !v.contains((b, a)) by {
        if v.contains((b, a)) {
            assert(neighbour_pair(keys, a, b));
            assert(neighbour_pair(keys, b, a));
            let ka = keys[a as int];
            let kb = keys[b as int];
            if a < b && ka == kb {
                if exists|o: int| 0 <= o < offs.len() && ka == #[trigger] kb.spec_add(offs[o]) {
                    let o = choose|o: int| 0 <= o < offs.len() && ka == #[trigger] kb.spec_add(offs[o]);
                    K::lemma_neighbours_one_way(kb, o, o);
                }
            } else {
                let o = choose|o: int| 0 <= o < offs.len() && kb == #[trigger] ka.spec_add(offs[o]);
                K::lemma_neighbours_one_way(ka, o, o);
                if b < a && kb == ka {
                } else {
                    let o2 = choose|o2: int| 0 <= o2 < offs.len() && ka == #[trigger] kb.spec_add(offs[o2]);
                    K::lemma_neighbours_one_way(ka, o, o2);
                }
            }
        }
    }
}

} // verus!
