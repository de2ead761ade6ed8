use base::grid::UniformGrid;
use base::grid_key::{GridCell, GridKey};
use base::order::TotalOrder;

#[test]
fn offsets_cover_half_neighbourhood_2d() {
    let offs = <(i32, i32) as GridKey>::offsets();
    assert_eq!(offs, vec![(1, 0), (1, 1), (0, 1), (-1, 1)]);
    for dx in -1..=1i32 {
        for dy in -1..=1i32 {
            let here = offs.contains(&(dx, dy));
            let opposite = offs.contains(&(-dx, -dy));
            if dx == 0 && dy == 0 {
                assert!(!here);
            } else {
                assert!(here != opposite);
            }
        }
    }
}

#[test]
fn offsets_cover_half_neighbourhood_3d() {
    let offs = <(i32, i32, i32) as GridKey>::offsets();
    assert_eq!(offs.len(), 13);
    for dx in -1..=1i32 {
        for dy in -1..=1i32 {
            for dz in -1..=1i32 {
                let here = offs.contains(&(dx, dy, dz));
                let opposite = offs.contains(&(-dx, -dy, -dz));
                if (dx, dy, dz) == (0, 0, 0) {
                    assert!(!here);
                } else {
                    assert!(here != opposite);
                }
            }
        }
    }
}

#[test]
fn key_addition_wraps() {
    assert_eq!((1i32, 2i32).add((-1, 1)), (0, 3));
    assert_eq!((i32::MAX, 0i32).add((1, 0)), (i32::MIN, 0));
    assert_eq!((1i32, 2i32, 3i32).add((1, -1, 1)), (2, 1, 4));
    assert!((0i32, 5i32).is_le(&(1, -5)));
    assert!(!(1i32, 0i32, 0i32).is_le(&(0, 9, 9)));
}

#[test]
fn grid_cell_starts_empty() {
    assert!(GridCell::new().indices.is_empty());
}

#[test]
fn populate_groups_indices_by_cell() {
    let mut g: UniformGrid<(i32, i32)> = UniformGrid::new();
    g.populate(&[(0, 0), (1, 0), (0, 0), (5, 5)]);
    assert_eq!(g.active_keys, vec![(0, 0), (1, 0), (5, 5)]);
    assert_eq!(g.cells.get(&(0, 0)).unwrap().indices, vec![0, 2]);
    assert_eq!(g.cells.get(&(1, 0)).unwrap().indices, vec![1]);
    g.populate(&[(5, 5)]);
    assert_eq!(g.active_keys, vec![(5, 5)]);
    assert!(g.cells.get(&(0, 0)).unwrap().indices.is_empty());
    assert_eq!(g.cells.get(&(5, 5)).unwrap().indices, vec![0]);
}

#[test]
fn insert_reactivates_cleared_cells() {
    let mut g: UniformGrid<(i32, i32)> = UniformGrid::new();
    g.insert((2, 2), 7);
    g.insert((2, 2), 8);
    assert_eq!(g.active_keys, vec![(2, 2)]);
    g.clear();
    assert!(g.active_keys.is_empty());
    g.insert((2, 2), 1);
    assert_eq!(g.active_keys, vec![(2, 2)]);
    assert_eq!(g.cells.get(&(2, 2)).unwrap().indices, vec![1]);
}

#[test]
fn traverse_visits_cell_and_forward_neighbours() {
    let mut g: UniformGrid<(i32, i32)> = UniformGrid::new();
    // 0 and 1 share a cell, 2 sits right of it, 3 sits left of it.
    g.populate(&[(0, 0), (0, 0), (1, 0), (-1, 0)]);
    let pairs = g.traverse_grid_cells();
    assert_eq!(pairs, vec![(0, 1), (0, 2), (1, 2), (3, 0), (3, 1)]);
    assert_eq!(g.pairs_below(3), vec![(0, 1), (0, 2), (1, 2)]);
}

#[test]
fn traverse_3d_diagonal_neighbour() {
    let mut g: UniformGrid<(i32, i32, i32)> = UniformGrid::new();
    g.populate(&[(0, 0, 0), (1, 1, 1), (-1, -1, -1)]);
    let pairs = g.traverse_grid_cells();
    assert_eq!(pairs, vec![(0, 1), (2, 0)]);
}

#[test]
fn populate_sort_orders_active_cells() {
    let mut g: UniformGrid<(i32, i32)> = UniformGrid::new();
    g.populate_sort(&[(3, 1), (0, 2), (0, -4), (3, 1)]);
    assert_eq!(g.active_keys, vec![(0, -4), (0, 2), (3, 1)]);
    assert_eq!(g.cells.get(&(3, 1)).unwrap().indices, vec![0, 3]);
}

#[test]
fn traverse_visits_each_neighbour_pair_exactly_once() {
    let keys: Vec<(i32, i32)> = vec![
        (0, 0), (1, 0), (0, 1), (1, 1), (-1, 0), (0, -1), (2, 2), (0, 0), (5, 5), (1, 1),
        (i32::MAX, 0), (i32::MIN, 0),
    ];
    let mut g: UniformGrid<(i32, i32)> = UniformGrid::new();
    g.populate_sort(&keys);
    let pairs = g.traverse_grid_cells();
    let offs = <(i32, i32) as GridKey>::offsets();
    for a in 0..keys.len() {
        for b in 0..keys.len() {
            let expected = (a < b && keys[a] == keys[b])
                || offs.iter().any(|&d| keys[b] == keys[a].add(d));
            let count = pairs.iter().filter(|&&p| p == (a, b)).count();
            assert_eq!(count, if expected { 1 } else { 0 }, "pair ({}, {})", a, b);
            if expected {
                assert!(!pairs.contains(&(b, a)));
            }
        }
    }
}

#[test]
fn shrink_to_fit_drops_only_empty_cells() {
    let mut g: UniformGrid<(i32, i32)> = UniformGrid::new();
    g.populate(&[(0, 0), (1, 0)]);
    g.populate(&[(1, 0), (1, 0)]);
    assert!(g.cells.contains_key(&(0, 0)));
    g.shrink_to_fit();
    assert!(!g.cells.contains_key(&(0, 0)));
    assert_eq!(g.cells.get(&(1, 0)).unwrap().indices, vec![0, 1]);
    assert_eq!(g.active_keys, vec![(1, 0)]);
}

#[test]
fn occupied_cell_check() {
    let mut c = GridCell::new();
    assert!(!c.is_occupied());
    c.indices.push(3);
    assert!(c.is_occupied());
}

#[test]
fn populate_lists_cells_in_first_use_order() {
    let mut g: UniformGrid<(i32, i32)> = UniformGrid::new();
    g.populate(&[(3, 3), (-1, 0), (3, 3), (7, 1), (-1, 0)]);
    assert_eq!(g.active_keys, vec![(3, 3), (-1, 0), (7, 1)]);
}
