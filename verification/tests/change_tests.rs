use base::change::{ChangeCollector, ChangeMap};

#[test]
fn new_change_map_is_empty() {
    let m: ChangeMap<i64> = ChangeMap::new();
    assert!(m.is_empty());
    assert!(!m.contains_key(3));
}

#[test]
fn series_keeps_first_old_and_last_new_value() {
    let mut m: ChangeMap<i64> = ChangeMap::new();
    m.record_change(7, Some(1), 2);
    m.record_change(7, Some(2), 3);
    m.record_change(7, Some(3), 4);
    assert!(!m.is_empty());
    assert!(m.contains_key(7));
    let drained = m.drain();
    assert_eq!(drained.len(), 1);
    assert_eq!(drained[0].key, 7);
    assert_eq!(drained[0].old_value, Some(1));
    assert_eq!(drained[0].new_value, 4);
    assert!(m.is_empty());
    assert!(!m.contains_key(7));
}

#[test]
fn first_change_without_old_value_stays_without() {
    let mut m: ChangeMap<&str> = ChangeMap::new();
    m.record_change(1, None, "a");
    m.record_change(1, Some("a"), "b");
    let drained = m.drain();
    assert_eq!(drained[0].old_value, None);
    assert_eq!(drained[0].new_value, "b");
}

#[test]
fn drain_lists_keys_in_order_of_first_change() {
    let mut m: ChangeMap<u8> = ChangeMap::new();
    m.record_change(30, None, 1);
    m.record_change(10, None, 2);
    m.record_change(30, Some(1), 5);
    m.record_change(20, Some(0), 3);
    let drained = m.drain();
    let keys: Vec<u64> = drained.iter().map(|c| c.key).collect();
    assert_eq!(keys, vec![30, 10, 20]);
    assert_eq!(drained[0].new_value, 5);
    assert_eq!(drained[2].old_value, Some(0));
    assert!(m.drain().is_empty());
}

#[test]
fn default_change_map_is_empty() {
    let m: ChangeMap<u8> = ChangeMap::default();
    assert!(m.is_empty());
}
