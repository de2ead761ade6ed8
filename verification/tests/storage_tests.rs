use base::aos_vec_storage::AosVecStorage;
use base::collision_registry::CollisionRegistry;
use base::order::sort_in_place;
use base::storage::{sorted_position, AosStorage, ElementStorage, Storage};

fn storage_of(items: &[u32]) -> AosVecStorage<u32> {
    let mut s = AosVecStorage::new();
    s.extend_from_iter(items.to_vec());
    s
}

fn sorted_copy(items: &[u32]) -> Vec<u32> {
    let mut v = items.to_vec();
    v.sort();
    v
}

#[test]
fn collision_registry_orders_pairs() {
    let mut r = CollisionRegistry::new();
    r.push(5, 2);
    r.push(1, 3);
    r.push(4, 4);
    assert_eq!(r.a_indices, vec![2, 1, 4]);
    assert_eq!(r.b_indices, vec![5, 3, 4]);
    assert_eq!(r.len(), 3);
    assert!(!r.is_empty());
    r.clear();
    assert!(r.is_empty());
    let w = CollisionRegistry::with_capacity(16);
    assert_eq!(w.len(), 0);
}

#[test]
fn aos_push_swap_remove() {
    let mut s = storage_of(&[10, 20, 30, 40]);
    assert_eq!(s.len(), 4);
    assert!(s.capacity() >= 4);
    assert_eq!(s.swap_remove(1), 20);
    assert_eq!(s.as_slice(), &[10, 40, 30]);
    assert_eq!(*s.get(2), 30);
    s.push(50);
    assert_eq!(s.view(), &[10, 40, 30, 50]);
    s.view_mut()[0] = 11;
    s.as_slice_mut()[1] = 41;
    assert_eq!(s.as_slice(), &[11, 41, 30, 50]);
    s.clear();
    assert!(s.is_empty());
}

#[test]
fn remove_indices_removes_listed_positions() {
    let mut s = storage_of(&[0, 1, 2, 3, 4, 5, 6]);
    let mut idx = vec![5, 1, 3];
    s.remove_indices(&mut idx);
    assert_eq!(idx, vec![1, 3, 5]);
    assert_eq!(s.len(), 4);
    assert_eq!(sorted_copy(s.as_slice()), vec![0, 2, 4, 6]);
    assert_eq!(s.as_slice()[0], 0);
}

#[test]
fn remove_indices_ignores_duplicates_and_out_of_range() {
    let mut s = storage_of(&[7, 8, 9, 10]);
    let mut idx = vec![2, 9, 2, 0, 4];
    s.remove_indices(&mut idx);
    assert_eq!(idx, vec![0, 2, 2, 4, 9]);
    assert_eq!(sorted_copy(s.as_slice()), vec![8, 10]);
}

#[test]
fn remove_indices_with_tail_positions() {
    let mut s = storage_of(&[1, 2, 3, 4, 5]);
    let mut idx = vec![4, 3, 0];
    s.remove_indices(&mut idx);
    assert_eq!(sorted_copy(s.as_slice()), vec![2, 3]);
    let mut none: Vec<usize> = vec![];
    s.remove_indices(&mut none);
    assert_eq!(s.len(), 2);
}

#[test]
fn remove_every_position() {
    let mut s = storage_of(&[1, 2, 3]);
    let mut idx = vec![0, 1, 2];
    s.remove_indices(&mut idx);
    assert!(s.is_empty());
}

#[test]
fn sort_and_search_helpers() {
    let mut v = vec![4usize, 1, 3, 1, 0];
    sort_in_place(&mut v);
    assert_eq!(v, vec![0, 1, 1, 3, 4]);
    assert!(matches!(sorted_position(&v, 5, 3), Some(3)));
    assert_eq!(sorted_position(&v, 3, 3), None);
    assert_eq!(sorted_position(&v, 5, 2), None);
}

#[test]
fn default_registry_and_cell_are_empty() {
    let r = CollisionRegistry::default();
    assert!(r.is_empty());
    assert_eq!(r.len(), 0);
    assert!(base::grid_key::GridCell::default().indices.is_empty());
}

#[test]
fn removing_the_appended_positions_restores_the_storage() {
    let mut s = storage_of(&[4, 8, 15]);
    s.extend_from_iter(vec![16, 23, 42]);
    let mut idx = vec![5, 3, 4, 3];
    s.remove_indices(&mut idx);
    assert_eq!(s.as_slice(), &[4, 8, 15]);
    assert_eq!(idx, vec![3, 3, 4, 5]);
}

#[test]
fn remove_indices_fills_holes_from_the_tail() {
    let mut s = storage_of(&[10, 11, 12, 13, 14, 15]);
    let mut idx = vec![5, 0, 2, 0, 9];
    s.remove_indices(&mut idx);
    assert_eq!(s.as_slice(), &[13, 11, 14]);
}
