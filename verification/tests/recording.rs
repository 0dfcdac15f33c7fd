use bencher::keyed::{find_key, same_bytes};
use bencher::{AccessInfo, AccessTable, AccessType, BenchTracker, ChildTable};

fn key(byte: u8, len: usize) -> Vec<u8> {
    vec![byte; len]
}

fn info(read: AccessType, written: AccessType) -> Option<AccessInfo> {
    Some(AccessInfo { read, written })
}

#[test]
fn same_bytes_compares_contents() {
    assert!(same_bytes(&vec![], &vec![]));
    assert!(same_bytes(&vec![1, 2, 3], &vec![1, 2, 3]));
    assert!(!same_bytes(&vec![1, 2, 3], &vec![1, 2]));
    assert!(!same_bytes(&vec![1, 2, 3], &vec![1, 2, 4]));
}

#[test]
fn find_key_gives_the_place() {
    let entries = vec![(vec![1u8], 'a'), (vec![2u8, 2], 'b'), (vec![], 'c')];
    assert_eq!(find_key(&entries, &vec![1]), Some(0));
    assert_eq!(find_key(&entries, &vec![2, 2]), Some(1));
    assert_eq!(find_key(&entries, &vec![]), Some(2));
    assert_eq!(find_key(&entries, &vec![2]), None);
}

#[test]
fn table_keeps_keys_in_order_of_first_access() {
    let mut table = AccessTable::new();
    assert_eq!(table.len(), 0);
    table.note_write(key(2, 4), false);
    table.note_read(key(1, 4), false);
    table.note_read(key(2, 4), false);
    assert_eq!(table.len(), 2);
    assert_eq!(table.key_at(0), &key(2, 4));
    assert_eq!(table.key_at(1), &key(1, 4));
    assert_eq!(
        table.info_at(0),
        AccessInfo { read: AccessType::Redundant, written: AccessType::Important }
    );
    assert_eq!(
        table.info_at(1),
        AccessInfo { read: AccessType::Important, written: AccessType::Unset }
    );
    table.clear();
    assert_eq!(table.len(), 0);
    assert_eq!(table.get(&key(1, 4)), None);
}

#[test]
fn child_table_creates_partitions_on_first_access() {
    let mut table = ChildTable::new();
    assert_eq!(table.len(), 0);
    table.note_read(b"second".to_vec(), key(9, 3), false);
    table.note_write(b"first".to_vec(), key(9, 3), false);
    table.note_read(b"second".to_vec(), key(8, 3), true);
    assert_eq!(table.len(), 2);
    assert_eq!(table.partition_at(0), &b"second".to_vec());
    assert_eq!(table.partition_at(1), &b"first".to_vec());
    assert_eq!(table.table_at(0).len(), 2);
    assert_eq!(table.table_at(1).len(), 1);
    assert_eq!(
        table.get(&b"second".to_vec(), &key(9, 3)),
        info(AccessType::Important, AccessType::Unset)
    );
    assert_eq!(
        table.get(&b"second".to_vec(), &key(8, 3)),
        info(AccessType::Redundant, AccessType::Unset)
    );
    assert_eq!(
        table.get(&b"first".to_vec(), &key(9, 3)),
        info(AccessType::Redundant, AccessType::Important)
    );
    assert_eq!(table.get(&b"first".to_vec(), &key(8, 3)), None);
    assert_eq!(table.get(&b"third".to_vec(), &key(9, 3)), None);
    table.clear();
    assert_eq!(table.len(), 0);
}

#[test]
fn unrecorded_key_is_absent() {
    let mut tracker = BenchTracker::new();
    assert_eq!(tracker.main_keys().len(), 0);
    assert_eq!(tracker.child_keys().len(), 0);
    tracker.before_block();
    tracker.reading_key(key(1, 32));
    tracker.changing_key(key(2, 32));
    tracker.reading_child_key(b"child".to_vec(), key(3, 32));
    tracker.after_block();
    assert_eq!(tracker.main_keys().get(&key(3, 32)), None);
    assert_eq!(tracker.main_keys().get(&key(4, 32)), None);
    assert_eq!(tracker.child_keys().get(&b"child".to_vec(), &key(1, 32)), None);
    let report = tracker.summary();
    assert!(report.iter().all(|line| line.0 != key(4, 32)));
    assert!(report.iter().all(|line| line.0 != key(3, 32)));
    assert_eq!(report.len(), 3);
}

#[test]
fn read_outside_a_repeat_is_important() {
    let mut tracker = BenchTracker::new();
    tracker.before_block();
    assert_eq!(tracker.depth(), 1);
    tracker.reading_key(key(1, 32));
    assert_eq!(
        tracker.main_keys().get(&key(1, 32)),
        info(AccessType::Important, AccessType::Unset)
    );
}

#[test]
fn repeat_read_changes_nothing() {
    let mut tracker = BenchTracker::new();
    tracker.before_block();
    tracker.reading_key(key(1, 32));
    tracker.before_block();
    assert!(tracker.is_redundant());
    tracker.reading_key(key(1, 32));
    tracker.reading_key(key(1, 32));
    assert_eq!(tracker.main_keys().len(), 1);
    assert_eq!(
        tracker.main_keys().get(&key(1, 32)),
        info(AccessType::Important, AccessType::Unset)
    );
    tracker.before_block();
    assert_eq!(tracker.depth(), 3);
    tracker.reading_key(key(1, 32));
    tracker.changing_key(key(1, 32));
    assert_eq!(
        tracker.main_keys().get(&key(1, 32)),
        info(AccessType::Important, AccessType::Unset)
    );
}

#[test]
fn repeat_sees_a_key_first() {
    let mut tracker = BenchTracker::new();
    tracker.before_block();
    tracker.before_block();
    tracker.reading_key(key(1, 32));
    tracker.changing_key(key(2, 32));
    assert_eq!(
        tracker.main_keys().get(&key(1, 32)),
        info(AccessType::Redundant, AccessType::Unset)
    );
    assert_eq!(
        tracker.main_keys().get(&key(2, 32)),
        info(AccessType::Redundant, AccessType::Redundant)
    );
    tracker.after_block();
    tracker.reading_key(key(1, 32));
    tracker.changing_key(key(2, 32));
    assert_eq!(
        tracker.main_keys().get(&key(1, 32)),
        info(AccessType::Important, AccessType::Unset)
    );
    assert_eq!(
        tracker.main_keys().get(&key(2, 32)),
        info(AccessType::Redundant, AccessType::Important)
    );
}

#[test]
fn idle_tracker_records_as_meaningful() {
    let mut tracker = BenchTracker::new();
    assert!(!tracker.is_redundant());
    tracker.changing_key(key(5, 8));
    assert_eq!(
        tracker.main_keys().get(&key(5, 8)),
        info(AccessType::Redundant, AccessType::Important)
    );
}

#[test]
fn write_dominates_read() {
    let mut tracker = BenchTracker::new();
    tracker.before_block();
    tracker.changing_key(key(1, 32));
    let after_write = tracker.main_keys().get(&key(1, 32));
    assert_eq!(after_write, info(AccessType::Redundant, AccessType::Important));
    tracker.reading_key(key(1, 32));
    assert_eq!(tracker.main_keys().get(&key(1, 32)), after_write);
}

#[test]
fn read_then_write_makes_both_important() {
    let mut tracker = BenchTracker::new();
    tracker.before_block();
    tracker.reading_key(key(1, 32));
    tracker.changing_key(key(1, 32));
    assert_eq!(
        tracker.main_keys().get(&key(1, 32)),
        info(AccessType::Important, AccessType::Important)
    );
}

#[test]
fn child_keys_follow_the_same_rules() {
    let mut tracker = BenchTracker::new();
    tracker.before_block();
    tracker.reading_child_key(b"a".to_vec(), key(1, 32));
    tracker.changing_child_key(b"a".to_vec(), key(2, 32));
    tracker.reading_child_key(b"a".to_vec(), key(2, 32));
    tracker.changing_child_key(b"b".to_vec(), key(1, 32));
    tracker.before_block();
    tracker.changing_child_key(b"a".to_vec(), key(1, 32));
    tracker.reading_child_key(b"b".to_vec(), key(3, 32));
    tracker.changing_child_key(b"c".to_vec(), key(3, 32));
    let children = tracker.child_keys();
    assert_eq!(children.len(), 3);
    assert_eq!(
        children.get(&b"a".to_vec(), &key(1, 32)),
        info(AccessType::Important, AccessType::Unset)
    );
    assert_eq!(
        children.get(&b"a".to_vec(), &key(2, 32)),
        info(AccessType::Redundant, AccessType::Important)
    );
    assert_eq!(
        children.get(&b"b".to_vec(), &key(1, 32)),
        info(AccessType::Redundant, AccessType::Important)
    );
    assert_eq!(
        children.get(&b"b".to_vec(), &key(3, 32)),
        info(AccessType::Redundant, AccessType::Unset)
    );
    assert_eq!(
        children.get(&b"c".to_vec(), &key(3, 32)),
        info(AccessType::Redundant, AccessType::Redundant)
    );
    assert_eq!(tracker.main_keys().len(), 0);
}

#[test]
fn same_key_in_two_keyspaces_is_two_records() {
    let mut tracker = BenchTracker::new();
    tracker.reading_key(key(1, 32));
    tracker.changing_child_key(b"a".to_vec(), key(1, 32));
    assert_eq!(
        tracker.main_keys().get(&key(1, 32)),
        info(AccessType::Important, AccessType::Unset)
    );
    assert_eq!(
        tracker.child_keys().get(&b"a".to_vec(), &key(1, 32)),
        info(AccessType::Redundant, AccessType::Important)
    );
    assert_eq!(tracker.key_count(), Some(2));
}

#[test]
fn reset_storage_tracker_drops_records_only() {
    let mut tracker = BenchTracker::new();
    tracker.before_block();
    tracker.before_block();
    tracker.after_block_with(17);
    tracker.reading_key(key(1, 32));
    tracker.changing_child_key(b"a".to_vec(), key(1, 32));
    tracker.reset_storage_tracker();
    assert_eq!(tracker.main_keys().len(), 0);
    assert_eq!(tracker.child_keys().len(), 0);
    assert_eq!(tracker.key_count(), Some(0));
    assert_eq!(tracker.depth(), 1);
    assert_eq!(tracker.results(), &vec![17u128]);
    assert!(tracker.summary().is_empty());
}

#[test]
fn reset_redundant_drops_depth_and_samples_only() {
    let mut tracker = BenchTracker::new();
    tracker.before_block();
    tracker.before_block();
    tracker.after_block_with(17);
    tracker.reading_key(key(1, 32));
    tracker.changing_child_key(b"a".to_vec(), key(1, 32));
    tracker.reset_redundant();
    assert_eq!(tracker.depth(), 0);
    assert!(tracker.results().is_empty());
    assert_eq!(tracker.redundant_time(), 0);
    assert_eq!(
        tracker.main_keys().get(&key(1, 32)),
        info(AccessType::Important, AccessType::Unset)
    );
    assert_eq!(
        tracker.child_keys().get(&b"a".to_vec(), &key(1, 32)),
        info(AccessType::Redundant, AccessType::Important)
    );
}

#[test]
fn resets_commute() {
    let mut one = BenchTracker::new();
    let mut other = BenchTracker::new();
    for tracker in [&mut one, &mut other] {
        tracker.before_block();
        tracker.before_block();
        tracker.after_block_with(3);
        tracker.reading_key(key(1, 32));
    }
    one.reset_redundant();
    one.reset_storage_tracker();
    other.reset_storage_tracker();
    other.reset_redundant();
    for tracker in [&one, &other] {
        assert_eq!(tracker.depth(), 0);
        assert!(tracker.results().is_empty());
        assert_eq!(tracker.main_keys().len(), 0);
        assert_eq!(tracker.child_keys().len(), 0);
    }
}
