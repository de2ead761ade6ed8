use base::schedule::burst_fits;
use base::soa_storage::{column_capacity, grown_capacity, reserve_bytes};
use base::soa_view::SoaView;

#[test]
fn view_starts_unborrowed() {
    let v = SoaView::new(7);
    assert_eq!(v.len(), 7);
    for i in 0..32 {
        assert_eq!(v.column_readers(i), 0);
        assert!(!v.column_locked(i));
    }
    assert!(v.share_allowed(0));
    assert!(v.lock_allowed(31));
}

#[test]
fn shared_borrow_blocks_lock_until_released() {
    let mut v = SoaView::new(3);
    v.acquire_shared(2);
    assert_eq!(v.column_readers(2), 1);
    assert!(!v.lock_allowed(2));
    assert!(v.share_allowed(2));
    assert!(v.lock_allowed(1));
    v.release_shared(2);
    assert_eq!(v.column_readers(2), 0);
    assert!(v.lock_allowed(2));
}

#[test]
fn lock_blocks_both_kinds_of_borrow() {
    let mut v = SoaView::new(3);
    v.acquire_mut(5);
    assert!(v.column_locked(5));
    assert!(!v.share_allowed(5));
    assert!(!v.lock_allowed(5));
    assert!(v.share_allowed(4));
    v.release_mut(5);
    assert!(!v.column_locked(5));
    assert!(v.share_allowed(5));
}

#[test]
fn every_live_share_of_a_column_blocks_its_lock() {
    let mut v = SoaView::new(1);
    v.acquire_shared(0);
    v.acquire_shared(0);
    assert_eq!(v.column_readers(0), 2);
    assert!(!v.lock_allowed(0));
    assert!(v.lock_allowed(1));
    v.release_shared(0);
    assert!(!v.lock_allowed(0));
    v.release_shared(0);
    assert!(v.lock_allowed(0));
}

#[test]
fn column_arithmetic() {
    assert_eq!(column_capacity(96, 12), 8);
    assert_eq!(column_capacity(100, 12), 8);
    assert_eq!(column_capacity(100, 0), 0);
    assert_eq!(reserve_bytes(96, 12, 10), 24);
    assert_eq!(reserve_bytes(96, 12, 8), 0);
    assert_eq!(reserve_bytes(96, 0, 10), 0);
    assert_eq!(grown_capacity(0), 4);
    assert_eq!(grown_capacity(4), 8);
    assert_eq!(grown_capacity(300), 600);
}

#[test]
fn burst_room() {
    assert!(burst_fits(599, 1, 600));
    assert!(!burst_fits(600, 1, 600));
    assert!(burst_fits(0, 12, 12));
    assert!(!burst_fits(1, 12, 12));
}
