use vstd::prelude::*;
use rustc_hash::{FxBuildHasher, FxHashMap};
use crate::order::TotalOrder;

verus! {

/// The hash builder of `rustc_hash`'s `FxHashMap`.
#[verifier::external_type_specification]
#[verifier::external_body]
pub struct ExFxBuildHasher(FxBuildHasher);

/// The particle indices that fell into one grid cell.
pub struct GridCell {
    pub indices: Vec<usize>,
}

impl GridCell {
    pub fn new() -> (r: Self)
        ensures
            r.indices@ == Seq::<usize>::empty(),
    {
        GridCell { indices: Vec::new() }
    }

    /// Whether the cell holds at least one particle.
    pub fn is_occupied(&self) -> (r: bool)
        ensures
            r == (self.indices@.len() > 0),
    {
        self.indices.len() > 0
    }
}

impl Default for GridCell {
    /// A cell with no particle.
    fn default() -> (r: Self)
        ensures
            r.indices@ == Seq::<usize>::empty(),
    {
        GridCell::new()
    }
}

/// The cells of `m` that hold at least one particle.
pub open spec fn occupied_cells<K>(m: Map<K, GridCell>) -> Map<K, GridCell> {
    m.restrict(m.dom().filter(|k: K| m[k].indices@.len() > 0))
}

/// Integer cell coordinates of a uniform grid.
///
/// `offsets` lists half of the surrounding cells (no offset together with its
/// opposite), so that walking every cell and these neighbours visits each
/// pair of adjacent cells once.
pub trait GridKey: TotalOrder {
    spec fn spec_offsets() -> Seq<Self>;

    /// Component-wise two's-complement sum of two keys.
    spec fn spec_add(self, other: Self) -> Self;

    fn offsets() -> (r: Vec<Self>)
        ensures
            r@ == Self::spec_offsets(),
    ;

    fn add(self, other: Self) -> (r: Self)
        ensures
            r == self.spec_add(other),
    ;

    /// Distinct listed offsets lead from a cell to distinct cells.
    proof fn lemma_neighbours_distinct(k: Self, i: int, j: int)
        requires
            0 <= i < Self::spec_offsets().len(),
            0 <= j < Self::spec_offsets().len(),
            i != j,
        ensures
            k.spec_add(Self::spec_offsets()[i]) != k.spec_add(Self::spec_offsets()[j]),
    ;

    /// A listed offset never leads back to the cell itself, neither at once nor
    /// through a second listed offset.
    proof fn lemma_neighbours_one_way(k: Self, i: int, j: int)
        requires
            0 <= i < Self::spec_offsets().len(),
            0 <= j < Self::spec_offsets().len(),
        ensures
            k.spec_add(Self::spec_offsets()[i]) != k,
            k.spec_add(Self::spec_offsets()[i]).spec_add(Self::spec_offsets()[j]) != k,
    ;

    /// Looks up the cell stored under `key`.
    fn cell_get<'a>(cells: &'a FxHashMap<Self, GridCell>, key: &Self) -> (r: Option<&'a GridCell>)
        ensures
            r.is_some() == cells@.contains_key(*key),
            r matches Some(c) ==> *c == cells@[*key],
    ;

    /// Removes and returns the cell stored under `key`.
    fn cell_take(cells: &mut FxHashMap<Self, GridCell>, key: &Self) -> (r: Option<GridCell>)
        ensures
            final(cells)@ == old(cells)@.remove(*key),
            r.is_some() == old(cells)@.contains_key(*key),
            r matches Some(c) ==> c == old(cells)@[*key],
    ;

    /// Drops the cells that hold no particle.
    fn cells_retain_occupied(cells: &mut FxHashMap<Self, GridCell>)
        ensures
            final(cells)@ == occupied_cells(old(cells)@),
    ;

    /// Releases the spare capacity of the cell map.
    fn cells_shrink(cells: &mut FxHashMap<Self, GridCell>)
        ensures
            final(cells)@ == old(cells)@,
    ;

    /// Stores `cell` under `key`.
    fn cell_put(cells: &mut FxHashMap<Self, GridCell>, key: Self, cell: GridCell)
        ensures
            final(cells)@ == old(cells)@.insert(key, cell),
    ;
}

/// Lexicographic order on the coordinates.
impl TotalOrder for (i32, i32) {
    open spec fn spec_ordered(self, other: (i32, i32)) -> bool {
        self.0 < other.0 || (self.0 == other.0 && self.1 <= other.1)
    }

    fn is_le(&self, other: &(i32, i32)) -> (r: bool) {
        self.0 < other.0 || (self.0 == other.0 && self.1 <= other.1)
    }

    proof fn lemma_le_total(a: (i32, i32), b: (i32, i32)) {
    }

    proof fn lemma_le_transitive(a: (i32, i32), b: (i32, i32), c: (i32, i32)) {
    }
}

/// Two-dimensional cell coordinates `(x, y)`.
impl GridKey for (i32, i32) {
    open spec fn spec_offsets() -> Seq<(i32, i32)> {
        seq![(1i32, 0i32), (1i32, 1i32), (0i32, 1i32), (-1i32, 1i32)]
    }

    open spec fn spec_add(self, other: (i32, i32)) -> (i32, i32) {
        (self.0.wrapping_add(other.0), self.1.wrapping_add(other.1))
    }


    fn offsets() -> (r: Vec<(i32, i32)>) {
        let r = vec![(1i32, 0i32), (1i32, 1i32), (0i32, 1i32), (-1i32, 1i32)];
        assert(r@ =~= Self::spec_offsets());
        r
    }

    fn add(self, other: (i32, i32)) -> (r: (i32, i32)) {
        (self.0.wrapping_add(other.0), self.1.wrapping_add(other.1))
    }


    proof fn lemma_neighbours_distinct(k: (i32, i32), i: int, j: int) {
        lemma_offsets_upper_half_2d();
        let s = Self::spec_offsets();
        lemma_wrap_small(k.0, s[i].0, s[j].0);
        lemma_wrap_small(k.1, s[i].1, s[j].1);
    }

    proof fn lemma_neighbours_one_way(k: (i32, i32), i: int, j: int) {
        lemma_offsets_upper_half_2d();
        let s = Self::spec_offsets();
        lemma_wrap_small(k.0, s[i].0, s[j].0);
        lemma_wrap_small(k.1, s[i].1, s[j].1);
    }

    fn cell_get<'a>(cells: &'a FxHashMap<(i32, i32), GridCell>, key: &(i32, i32)) -> (r: Option<
        &'a GridCell,
    >) {
        fx_get_2d(cells, key)
    }

    fn cell_take(cells: &mut FxHashMap<(i32, i32), GridCell>, key: &(i32, i32)) -> (r: Option<
        GridCell,
    >) {
        fx_remove_2d(cells, key)
    }

    fn cell_put(cells: &mut FxHashMap<(i32, i32), GridCell>, key: (i32, i32), cell: GridCell) {
        fx_insert_2d(cells, key, cell);
    }

    fn cells_retain_occupied(cells: &mut FxHashMap<(i32, i32), GridCell>) {
        fx_retain_occupied_2d(cells);
    }

    fn cells_shrink(cells: &mut FxHashMap<(i32, i32), GridCell>) {
        fx_shrink_2d(cells);
    }
}

/// `HashMap::retain` on an `FxHashMap` keyed by `(i32, i32)`, keeping the
/// entries whose cell `GridCell::is_occupied`: std documents that exactly the
/// entries for which the predicate returns `false` are removed.
#[verifier::external_body]
fn fx_retain_occupied_2d(cells: &mut FxHashMap<(i32, i32), GridCell>)
    ensures
        final(cells)@ == occupied_cells(old(cells)@),
{
    cells.retain(|_, cell| cell.is_occupied());
}

/// `HashMap::shrink_to_fit` on an `FxHashMap` keyed by `(i32, i32)`: it
/// changes the capacity only, so the entries stay as they were.
#[verifier::external_body]
fn fx_shrink_2d(cells: &mut FxHashMap<(i32, i32), GridCell>)
    ensures
        final(cells)@ == old(cells)@,
{
    cells.shrink_to_fit();
}

/// `HashMap::get` on an `FxHashMap` keyed by `(i32, i32)`: the value stored
/// under the key, if any.
#[verifier::external_body]
fn fx_get_2d<'a>(cells: &'a FxHashMap<(i32, i32), GridCell>, key: &(i32, i32)) -> (r: Option<
    &'a GridCell,
>)
    ensures
        r.is_some() == cells@.contains_key(*key),
        r matches Some(c) ==> *c == cells@[*key],
{
    cells.get(key)
}

/// `HashMap::remove` on an `FxHashMap` keyed by `(i32, i32)`: removes the
/// entry and returns its value, if any.
#[verifier::external_body]
fn fx_remove_2d(cells: &mut FxHashMap<(i32, i32), GridCell>, key: &(i32, i32)) -> (r: Option<
    GridCell,
>)
    ensures
        final(cells)@ == old(cells)@.remove(*key),
        r.is_some() == old(cells)@.contains_key(*key),
        r matches Some(c) ==> c == old(cells)@[*key],
{
    cells.remove(key)
}

/// `HashMap::insert` on an `FxHashMap` keyed by `(i32, i32)`: afterwards the
/// key maps to `cell` and every other entry is unchanged.
#[verifier::external_body]
fn fx_insert_2d(cells: &mut FxHashMap<(i32, i32), GridCell>, key: (i32, i32), cell: GridCell)
    ensures
        final(cells)@ == old(cells)@.insert(key, cell),
{
    cells.insert(key, cell);
}

/// Lexicographic order on the coordinates.
impl TotalOrder for (i32, i32, i32) {
    open spec fn spec_ordered(self, other: (i32, i32, i32)) -> bool {
        self.0 < other.0 || (self.0 == other.0 && (self.1 < other.1 || (self.1 == other.1
            && self.2 <= other.2)))
    }

    fn is_le(&self, other: &(i32, i32, i32)) -> (r: bool) {
        self.0 < other.0 || (self.0 == other.0 && (self.1 < other.1 || (self.1 == other.1
            && self.2 <= other.2)))
    }

    proof fn lemma_le_total(a: (i32, i32, i32), b: (i32, i32, i32)) {
    }

    proof fn lemma_le_transitive(a: (i32, i32, i32), b: (i32, i32, i32), c: (i32, i32, i32)) {
    }
}

/// Three-dimensional cell coordinates `(x, y, z)`.
impl GridKey for (i32, i32, i32) {
    open spec fn spec_offsets() -> Seq<(i32, i32, i32)> {
        seq![
            (1i32, 0i32, 0i32),
            (-1i32, 1i32, 0i32),
            (0i32, 1i32, 0i32),
            (1i32, 1i32, 0i32),
            (-1i32, -1i32, 1i32),
            (0i32, -1i32, 1i32),
            (1i32, -1i32, 1i32),
            (-1i32, 0i32, 1i32),
            (0i32, 0i32, 1i32),
            (1i32, 0i32, 1i32),
            (-1i32, 1i32, 1i32),
            (0i32, 1i32, 1i32),
            (1i32, 1i32, 1i32),
        ]
    }

    open spec fn spec_add(self, other: (i32, i32, i32)) -> (i32, i32, i32) {
        (
            self.0.wrapping_add(other.0),
            self.1.wrapping_add(other.1),
            self.2.wrapping_add(other.2),
        )
    }


    fn offsets() -> (r: Vec<(i32, i32, i32)>) {
        let r = vec![
            (1i32, 0i32, 0i32),
            (-1i32, 1i32, 0i32),
            (0i32, 1i32, 0i32),
            (1i32, 1i32, 0i32),
            (-1i32, -1i32, 1i32),
            (0i32, -1i32, 1i32),
            (1i32, -1i32, 1i32),
            (-1i32, 0i32, 1i32),
            (0i32, 0i32, 1i32),
            (1i32, 0i32, 1i32),
            (-1i32, 1i32, 1i32),
            (0i32, 1i32, 1i32),
            (1i32, 1i32, 1i32),
        ];
        assert(r@ =~= Self::spec_offsets());
        r
    }

    fn add(self, other: (i32, i32, i32)) -> (r: (i32, i32, i32)) {
        (
            self.0.wrapping_add(other.0),
            self.1.wrapping_add(other.1),
            self.2.wrapping_add(other.2),
        )
    }


    proof fn lemma_neighbours_distinct(k: (i32, i32, i32), i: int, j: int) {
        lemma_offsets_upper_half_3d();
        let s = Self::spec_offsets();
        lemma_wrap_small(k.0, s[i].0, s[j].0);
        lemma_wrap_small(k.1, s[i].1, s[j].1);
        lemma_wrap_small(k.2, s[i].2, s[j].2);
    }

    proof fn lemma_neighbours_one_way(k: (i32, i32, i32), i: int, j: int) {
        lemma_offsets_upper_half_3d();
        let s = Self::spec_offsets();
        lemma_wrap_small(k.0, s[i].0, s[j].0);
        lemma_wrap_small(k.1, s[i].1, s[j].1);
        lemma_wrap_small(k.2, s[i].2, s[j].2);
    }

    fn cell_get<'a>(cells: &'a FxHashMap<(i32, i32, i32), GridCell>, key: &(i32, i32, i32)) -> (r:
        Option<&'a GridCell>) {
        fx_get_3d(cells, key)
    }

    fn cell_take(cells: &mut FxHashMap<(i32, i32, i32), GridCell>, key: &(i32, i32, i32)) -> (r:
        Option<GridCell>) {
        fx_remove_3d(cells, key)
    }

    fn cell_put(
        cells: &mut FxHashMap<(i32, i32, i32), GridCell>,
        key: (i32, i32, i32),
        cell: GridCell,
    ) {
        fx_insert_3d(cells, key, cell);
    }

    fn cells_retain_occupied(cells: &mut FxHashMap<(i32, i32, i32), GridCell>) {
        fx_retain_occupied_3d(cells);
    }

    fn cells_shrink(cells: &mut FxHashMap<(i32, i32, i32), GridCell>) {
        fx_shrink_3d(cells);
    }
}

/// `HashMap::retain` on an `FxHashMap` keyed by `(i32, i32, i32)`, keeping
/// the entries whose cell `GridCell::is_occupied`: std documents that exactly
/// the entries for which the predicate returns `false` are removed.
#[verifier::external_body]
fn fx_retain_occupied_3d(cells: &mut FxHashMap<(i32, i32, i32), GridCell>)
    ensures
        final(cells)@ == occupied_cells(old(cells)@),
{
    cells.retain(|_, cell| cell.is_occupied());
}

/// `HashMap::shrink_to_fit` on an `FxHashMap` keyed by `(i32, i32, i32)`: it
/// changes the capacity only, so the entries stay as they were.
#[verifier::external_body]
fn fx_shrink_3d(cells: &mut FxHashMap<(i32, i32, i32), GridCell>)
    ensures
        final(cells)@ == old(cells)@,
{
    cells.shrink_to_fit();
}

/// `HashMap::get` on an `FxHashMap` keyed by `(i32, i32, i32)`: the value
/// stored under the key, if any.
#[verifier::external_body]
fn fx_get_3d<'a>(cells: &'a FxHashMap<(i32, i32, i32), GridCell>, key: &(i32, i32, i32)) -> (r:
    Option<&'a GridCell>)
    ensures
        r.is_some() == cells@.contains_key(*key),
        r matches Some(c) ==> *c == cells@[*key],
{
    cells.get(key)
}

/// `HashMap::remove` on an `FxHashMap` keyed by `(i32, i32, i32)`: removes
/// the entry and returns its value, if any.
#[verifier::external_body]
fn fx_remove_3d(cells: &mut FxHashMap<(i32, i32, i32), GridCell>, key: &(i32, i32, i32)) -> (r:
    Option<GridCell>)
    ensures
        final(cells)@ == old(cells)@.remove(*key),
        r.is_some() == old(cells)@.contains_key(*key),
        r matches Some(c) ==> c == old(cells)@[*key],
{
    cells.remove(key)
}

/// `HashMap::insert` on an `FxHashMap` keyed by `(i32, i32, i32)`:
/// afterwards the key maps to `cell` and every other entry is unchanged.
#[verifier::external_body]
fn fx_insert_3d(cells: &mut FxHashMap<(i32, i32, i32), GridCell>, key: (i32, i32, i32), cell: GridCell)
    ensures
        final(cells)@ == old(cells)@.insert(key, cell),
{
    cells.insert(key, cell);
}

/// Adding offsets of at most one to a coordinate, with wrap-around: the
/// coordinate stays only under a zero offset, two offsets agree only when equal,
/// and two steps return only when they cancel.
proof fn lemma_wrap_small(x: i32, a: i32, b: i32)
    requires
        -1 <= a <= 1,
        -1 <= b <= 1,
    ensures
        (x.wrapping_add(a) == x) <==> a == 0,
        (x.wrapping_add(a) == x.wrapping_add(b)) <==> a == b,
        (x.wrapping_add(a).wrapping_add(b) == x) <==> a + b == 0,
{
}

/// The two-dimensional offsets are distinct unit steps, each pointing up, or
/// right along its row.
proof fn lemma_offsets_upper_half_2d()
    ensures
        <(i32, i32) as GridKey>::spec_offsets().no_duplicates(),
        forall|i: int|
            0 <= i < <(i32, i32) as GridKey>::spec_offsets().len() ==> {
                let d = #[trigger] <(i32, i32) as GridKey>::spec_offsets()[i];
                &&& -1 <= d.0 <= 1
                &&& -1 <= d.1 <= 1
                &&& (d.1 > 0 || (d.1 == 0 && d.0 > 0))
            },
{
    let s = <(i32, i32) as GridKey>::spec_offsets();
    assert(s[0] == (1i32, 0i32));
    assert(s[1] == (1i32, 1i32));
    assert(s[2] == (0i32, 1i32));
    assert(s[3] == (-1i32, 1i32));
}

/// The three-dimensional offsets are distinct unit steps, each pointing
/// forward, or up within its layer, or right along its row.
proof fn lemma_offsets_upper_half_3d()
    ensures
        <(i32, i32, i32) as GridKey>::spec_offsets().no_duplicates(),
        forall|i: int|
            0 <= i < <(i32, i32, i32) as GridKey>::spec_offsets().len() ==> {
                let d = #[trigger] <(i32, i32, i32) as GridKey>::spec_offsets()[i];
                &&& -1 <= d.0 <= 1
                &&& -1 <= d.1 <= 1
                &&& -1 <= d.2 <= 1
                &&& (d.2 > 0 || (d.2 == 0 && (d.1 > 0 || (d.1 == 0 && d.0 > 0))))
            },
{
    let s = <(i32, i32, i32) as GridKey>::spec_offsets();
    assert(s[0] == (1i32, 0i32, 0i32));
    assert(s[1] == (-1i32, 1i32, 0i32));
    assert(s[2] == (0i32, 1i32, 0i32));
    assert(s[3] == (1i32, 1i32, 0i32));
    assert(s[4] == (-1i32, -1i32, 1i32));
    assert(s[5] == (0i32, -1i32, 1i32));
    assert(s[6] == (1i32, -1i32, 1i32));
    assert(s[7] == (-1i32, 0i32, 1i32));
    assert(s[8] == (0i32, 0i32, 1i32));
    assert(s[9] == (1i32, 0i32, 1i32));
    assert(s[10] == (-1i32, 1i32, 1i32));
    assert(s[11] == (0i32, 1i32, 1i32));
    assert(s[12] == (1i32, 1i32, 1i32));
}

/// In two dimensions, of every neighbouring offset and its opposite exactly one
/// is listed, and the cell itself is not.
pub proof fn lemma_offsets_half_neighbourhood_2d(dx: i32, dy: i32)
    requires
        -1 <= dx <= 1,
        -1 <= dy <= 1,
    ensures
        <(i32, i32) as GridKey>::spec_offsets().contains((dx, dy)) <==> (dx, dy) != (0i32, 0i32)
            && !<(i32, i32) as GridKey>::spec_offsets().contains((-dx as i32, -dy as i32)),
{
    let s = <(i32, i32) as GridKey>::spec_offsets();
    assert(s[0] == (1i32, 0i32));
    assert(s[1] == (1i32, 1i32));
    assert(s[2] == (0i32, 1i32));
    assert(s[3] == (-1i32, 1i32));
}

/// In three dimensions, of every neighbouring offset and its opposite exactly
/// one is listed, and the cell itself is not.
pub proof fn lemma_offsets_half_neighbourhood_3d(dx: i32, dy: i32, dz: i32)
    requires
        -1 <= dx <= 1,
        -1 <= dy <= 1,
        -1 <= dz <= 1,
    ensures
        <(i32, i32, i32) as GridKey>::spec_offsets().contains((dx, dy, dz)) <==> (dx, dy, dz) != (
            0i32,
            0i32,
            0i32,
        ) && !<(i32, i32, i32) as GridKey>::spec_offsets().contains(
            (-dx as i32, -dy as i32, -dz as i32),
        ),
{
    let s = <(i32, i32, i32) as GridKey>::spec_offsets();
    assert(s[0] == (1i32, 0i32, 0i32));
    assert(s[1] == (-1i32, 1i32, 0i32));
    assert(s[2] == (0i32, 1i32, 0i32));
    assert(s[3] == (1i32, 1i32, 0i32));
    assert(s[4] == (-1i32, -1i32, 1i32));
    assert(s[5] == (0i32, -1i32, 1i32));
    assert(s[6] == (1i32, -1i32, 1i32));
    assert(s[7] == (-1i32, 0i32, 1i32));
    assert(s[8] == (0i32, 0i32, 1i32));
    assert(s[9] == (1i32, 0i32, 1i32));
    assert(s[10] == (-1i32, 1i32, 1i32));
    assert(s[11] == (0i32, 1i32, 1i32));
    assert(s[12] == (1i32, 1i32, 1i32));
}

/// `s` brought into the range of `i32` by one turn of 2^32 either way; for a
/// sum or difference of two `i32` values this is its two's-complement value.
pub open spec fn wrap_i32(s: int) -> int {
    if s > i32::MAX {
        s - 0x1_0000_0000
    } else if s < i32::MIN {
        s + 0x1_0000_0000
    } else {
        s
    }
}

/// The key `b` is reached from the key `a` through one of the listed offsets.
pub open spec fn listed_neighbour<K: GridKey>(a: K, b: K) -> bool {
    exists|o: int|
        0 <= o < K::spec_offsets().len() && b == #[trigger] a.spec_add(K::spec_offsets()[o])
}

/// A coordinate and the one reached from it by a step of at most one unit.
proof fn lemma_unit_step(x: i32, y: i32, d: i32)
    requires
        -1 <= d <= 1,
    ensures
        wrap_i32(x.wrapping_add(d) - x) == d,
        (-1 <= wrap_i32(y - x) <= 1 && d == wrap_i32(y - x)) ==> x.wrapping_add(d) == y,
{
}

/// Adding two-dimensional keys adds each coordinate, wrapping around at the
/// ends of `i32`.
pub proof fn lemma_add_2d_is_coordinate_sum(k: (i32, i32), o: (i32, i32))
    ensures
        k.spec_add(o).0 as int == wrap_i32(k.0 + o.0),
        k.spec_add(o).1 as int == wrap_i32(k.1 + o.1),
{
}

/// Adding three-dimensional keys adds each coordinate, wrapping around at the
/// ends of `i32`.
pub proof fn lemma_add_3d_is_coordinate_sum(k: (i32, i32, i32), o: (i32, i32, i32))
    ensures
        k.spec_add(o).0 as int == wrap_i32(k.0 + o.0),
        k.spec_add(o).1 as int == wrap_i32(k.1 + o.1),
        k.spec_add(o).2 as int == wrap_i32(k.2 + o.2),
{
}

/// In two dimensions a cell lists as its neighbour exactly the cells one unit
/// step above it (straight or diagonally) and the cell straight to its right,
/// coordinates wrapping around at the ends of `i32`.
pub proof fn lemma_listed_neighbours_2d(a: (i32, i32), b: (i32, i32))
    ensures
        listed_neighbour(a, b) <==> {
            let dx = wrap_i32(b.0 - a.0);
            let dy = wrap_i32(b.1 - a.1);
            (dy == 1 && -1 <= dx <= 1) || (dy == 0 && dx == 1)
        },
{
    let s = <(i32, i32) as GridKey>::spec_offsets();
    assert(s[0] == (1i32, 0i32));
    assert(s[1] == (1i32, 1i32));
    assert(s[2] == (0i32, 1i32));
    assert(s[3] == (-1i32, 1i32));
    let dx = wrap_i32(b.0 - a.0);
    let dy = wrap_i32(b.1 - a.1);
    if listed_neighbour(a, b) {
        let o = choose|o: int| 0 <= o < s.len() && b == #[trigger] a.spec_add(s[o]);
        lemma_unit_step(a.0, b.0, s[o].0);
        lemma_unit_step(a.1, b.1, s[o].1);
    }
    if (dy == 1 && -1 <= dx <= 1) || (dy == 0 && dx == 1) {
        let o: int = if dy == 0 { 0 } else { 2 - dx };
        lemma_unit_step(a.0, b.0, s[o].0);
        lemma_unit_step(a.1, b.1, s[o].1);
        assert(b == a.spec_add(s[o]));
    }
}

/// In three dimensions a cell lists as its neighbour exactly the cells one
/// unit step in front of it, the cells one step above it within its layer, and
/// the cell straight to its right, coordinates wrapping around at the ends of
/// `i32`.
pub proof fn lemma_listed_neighbours_3d(a: (i32, i32, i32), b: (i32, i32, i32))
    ensures
        listed_neighbour(a, b) <==> {
            let dx = wrap_i32(b.0 - a.0);
            let dy = wrap_i32(b.1 - a.1);
            let dz = wrap_i32(b.2 - a.2);
            ||| (dz == 1 && -1 <= dy <= 1 && -1 <= dx <= 1)
            ||| (dz == 0 && dy == 1 && -1 <= dx <= 1)
            ||| (dz == 0 && dy == 0 && dx == 1)
        },
{
    let s = <(i32, i32, i32) as GridKey>::spec_offsets();
    assert(s[0] == (1i32, 0i32, 0i32));
    assert(s[1] == (-1i32, 1i32, 0i32));
    assert(s[2] == (0i32, 1i32, 0i32));
    assert(s[3] == (1i32, 1i32, 0i32));
    assert(s[4] == (-1i32, -1i32, 1i32));
    assert(s[5] == (0i32, -1i32, 1i32));
    assert(s[6] == (1i32, -1i32, 1i32));
    assert(s[7] == (-1i32, 0i32, 1i32));
    assert(s[8] == (0i32, 0i32, 1i32));
    assert(s[9] == (1i32, 0i32, 1i32));
    assert(s[10] == (-1i32, 1i32, 1i32));
    assert(s[11] == (0i32, 1i32, 1i32));
    assert(s[12] == (1i32, 1i32, 1i32));
    let dx = wrap_i32(b.0 - a.0);
    let dy = wrap_i32(b.1 - a.1);
    let dz = wrap_i32(b.2 - a.2);
    if listed_neighbour(a, b) {
        let o = choose|o: int| 0 <= o < s.len() && b == #[trigger] a.spec_add(s[o]);
        lemma_unit_step(a.0, b.0, s[o].0);
        lemma_unit_step(a.1, b.1, s[o].1);
        lemma_unit_step(a.2, b.2, s[o].2);
    }
    if (dz == 1 && -1 <= dy <= 1 && -1 <= dx <= 1) || (dz == 0 && dy == 1 && -1 <= dx <= 1) || (
    dz == 0 && dy == 0 && dx == 1) {
        let o: int = if dz == 1 {
            4 + (dy + 1) * 3 + (dx + 1)
        } else if dy == 1 {
            2 + dx
        } else {
            0
        };
        lemma_unit_step(a.0, b.0, s[o].0);
        lemma_unit_step(a.1, b.1, s[o].1);
        lemma_unit_step(a.2, b.2, s[o].2);
        assert(b == a.spec_add(s[o]));
    }
}

/// Two-dimensional keys are ordered by `x`, then by `y`; the order is
/// antisymmetric, so no coordinate is ignored.
pub proof fn lemma_key_order_2d(a: (i32, i32), b: (i32, i32))
    ensures
        a.0 < b.0 ==> a.spec_ordered(b) && !b.spec_ordered(a),
        a.0 == b.0 ==> (a.spec_ordered(b) <==> a.1 <= b.1),
        a.spec_ordered(b) && b.spec_ordered(a) ==> a == b,
{
}

/// Three-dimensional keys are ordered by `x`, then by `y`, then by `z`; the
/// order is antisymmetric, so no coordinate is ignored.
pub proof fn lemma_key_order_3d(a: (i32, i32, i32), b: (i32, i32, i32))
    ensures
        a.0 < b.0 ==> a.spec_ordered(b) && !b.spec_ordered(a),
        a.0 == b.0 && a.1 < b.1 ==> a.spec_ordered(b) && !b.spec_ordered(a),
        a.0 == b.0 && a.1 == b.1 ==> (a.spec_ordered(b) <==> a.2 <= b.2),
        a.spec_ordered(b) && b.spec_ordered(a) ==> a == b,
{
}

} // verus!
