use bencher::report::prefix_of;
use bencher::{AccessReport, BenchTracker};
use parity_scale_codec::Decode;

fn key(byte: u8, len: usize) -> Vec<u8> {
    vec![byte; len]
}

fn line(prefix: Vec<u8>, read: u32, written: u32) -> (Vec<u8>, AccessReport) {
    (prefix, AccessReport { read, written })
}

#[test]
fn prefix_is_the_first_32_bytes() {
    let long: Vec<u8> = (0u8..40).collect();
    assert_eq!(prefix_of(&vec![], &long), (0u8..32).collect::<Vec<u8>>());
    assert_eq!(prefix_of(&vec![], &key(7, 32)), key(7, 32));
    assert_eq!(prefix_of(&vec![], &key(7, 31)), key(7, 31));
    assert_eq!(prefix_of(&vec![], &vec![]), Vec::<u8>::new());
}

#[test]
fn prefix_runs_over_partition_and_key() {
    let mut joined = key(1, 10);
    joined.extend(key(2, 22));
    assert_eq!(prefix_of(&key(1, 10), &key(2, 30)), joined);
    assert_eq!(prefix_of(&key(1, 40), &key(2, 30)), key(1, 32));
    assert_eq!(prefix_of(&key(1, 32), &key(2, 30)), key(1, 32));
    assert_eq!(prefix_of(&key(1, 2), &key(2, 3)), vec![1, 1, 2, 2, 2]);
}

#[test]
fn empty_tracker_has_empty_summary() {
    let tracker = BenchTracker::new();
    assert!(tracker.summary().is_empty());
    assert_eq!(tracker.read_written_keys(), vec![0u8]);
    assert_eq!(tracker.key_count(), Some(0));
}

#[test]
fn read_and_write_of_one_key() {
    let mut tracker = BenchTracker::new();
    tracker.before_block();
    tracker.reading_key(key(1, 32));
    tracker.changing_key(key(1, 32));
    tracker.after_block();
    assert_eq!(tracker.summary(), vec![line(key(1, 32), 1, 1)]);
}

#[test]
fn many_accesses_of_one_key_count_once() {
    let mut tracker = BenchTracker::new();
    tracker.before_block();
    for _ in 0..5 {
        tracker.reading_key(key(1, 32));
    }
    for _ in 0..3 {
        tracker.changing_key(key(1, 32));
    }
    assert_eq!(tracker.summary(), vec![line(key(1, 32), 1, 1)]);
}

#[test]
fn only_read_or_only_written() {
    let mut tracker = BenchTracker::new();
    tracker.reading_key(key(1, 32));
    tracker.changing_key(key(2, 32));
    assert_eq!(tracker.summary(), vec![line(key(1, 32), 1, 0), line(key(2, 32), 0, 1)]);
}

#[test]
fn write_before_read_counts_the_write_only() {
    let mut tracker = BenchTracker::new();
    tracker.changing_key(key(1, 32));
    tracker.reading_key(key(1, 32));
    assert_eq!(tracker.summary(), vec![line(key(1, 32), 0, 1)]);
}

#[test]
fn repeat_only_keys_are_not_reported() {
    let mut tracker = BenchTracker::new();
    tracker.before_block();
    tracker.before_block();
    tracker.reading_key(key(1, 32));
    tracker.changing_key(key(2, 32));
    tracker.changing_child_key(b"child".to_vec(), key(3, 32));
    tracker.after_block();
    tracker.after_block();
    assert_eq!(tracker.key_count(), Some(3));
    assert!(tracker.summary().is_empty());
    assert_eq!(tracker.read_written_keys(), vec![0u8]);
}

#[test]
fn keys_under_one_prefix_are_counted_together() {
    let mut tracker = BenchTracker::new();
    let mut first = key(9, 32);
    first.push(1);
    let mut second = key(9, 32);
    second.extend([2, 2]);
    tracker.reading_key(first);
    tracker.reading_key(second.clone());
    tracker.changing_key(second);
    tracker.changing_key(key(9, 32));
    assert_eq!(tracker.summary(), vec![line(key(9, 32), 2, 2)]);
}

#[test]
fn repeat_record_under_a_reported_prefix_adds_nothing() {
    let mut tracker = BenchTracker::new();
    tracker.before_block();
    let mut first = key(9, 32);
    first.push(1);
    let mut second = key(9, 32);
    second.push(2);
    tracker.reading_key(first);
    tracker.before_block();
    tracker.reading_key(second);
    assert_eq!(tracker.summary(), vec![line(key(9, 32), 1, 0)]);
}

#[test]
fn short_keys_are_their_own_prefix() {
    let mut tracker = BenchTracker::new();
    tracker.reading_key(vec![1, 2, 3]);
    tracker.changing_key(vec![]);
    tracker.reading_key(vec![1, 2]);
    assert_eq!(
        tracker.summary(),
        vec![line(vec![1, 2, 3], 1, 0), line(vec![], 0, 1), line(vec![1, 2], 1, 0)]
    );
}

#[test]
fn lines_come_in_order_of_first_important_access() {
    let mut tracker = BenchTracker::new();
    tracker.before_block();
    tracker.before_block();
    tracker.reading_key(key(1, 32));
    tracker.after_block();
    tracker.reading_key(key(2, 32));
    tracker.reading_key(key(1, 32));
    tracker.reading_child_key(key(0, 32), key(5, 1));
    assert_eq!(
        tracker.summary(),
        vec![line(key(1, 32), 1, 0), line(key(2, 32), 1, 0), line(key(0, 32), 1, 0)]
    );
}

#[test]
fn child_prefix_joins_partition_and_key() {
    let mut tracker = BenchTracker::new();
    tracker.reading_child_key(key(1, 10), key(2, 30));
    let mut joined = key(1, 10);
    joined.extend(key(2, 22));
    assert_eq!(tracker.summary(), vec![line(joined, 1, 0)]);
}

#[test]
fn flat_and_child_prefixes_merge() {
    let mut tracker = BenchTracker::new();
    let mut flat = key(1, 16);
    flat.extend(key(2, 16));
    tracker.reading_key(flat.clone());
    tracker.changing_child_key(key(1, 16), key(2, 16));
    tracker.reading_child_key(key(1, 16), key(2, 20));
    tracker.reading_child_key(key(1, 8), {
        let mut rest = key(1, 8);
        rest.extend(key(2, 16));
        rest
    });
    assert_eq!(tracker.key_count(), Some(4));
    assert_eq!(tracker.summary(), vec![line(flat, 3, 1)]);
}

#[test]
fn key_count_counts_every_record() {
    let mut tracker = BenchTracker::new();
    tracker.reading_key(key(1, 32));
    tracker.reading_key(key(1, 32));
    tracker.reading_key(key(2, 32));
    tracker.reading_child_key(b"a".to_vec(), key(1, 32));
    tracker.reading_child_key(b"b".to_vec(), key(1, 32));
    tracker.reading_child_key(b"b".to_vec(), key(2, 32));
    assert_eq!(tracker.key_count(), Some(5));
}

#[test]
fn encoding_of_one_line() {
    let mut tracker = BenchTracker::new();
    tracker.reading_key(key(7, 32));
    tracker.changing_key(key(7, 32));
    let mut expected = vec![0x04u8, 0x80];
    expected.extend(key(7, 32));
    expected.extend([1, 0, 0, 0, 1, 0, 0, 0]);
    assert_eq!(tracker.read_written_keys(), expected);
}

#[test]
fn encoding_of_short_prefixes() {
    let mut tracker = BenchTracker::new();
    tracker.reading_key(vec![0xaa, 0xbb, 0xcc]);
    tracker.changing_key(vec![]);
    let expected = vec![
        0x08u8, 0x0c, 0xaa, 0xbb, 0xcc, 1, 0, 0, 0, 0, 0, 0, 0, 0x00, 0, 0, 0, 0, 1, 0, 0, 0,
    ];
    assert_eq!(tracker.read_written_keys(), expected);
}

#[test]
fn encoding_decodes_to_the_summary() {
    let mut tracker = BenchTracker::new();
    tracker.before_block();
    for byte in 0u8..70 {
        tracker.reading_key(key(byte, 32));
        if byte % 3 == 0 {
            tracker.changing_key(key(byte, 40));
        }
        if byte % 5 == 0 {
            tracker.changing_child_key(key(byte, 4), key(byte, 28));
        }
    }
    let bytes = tracker.read_written_keys();
    let decoded = Vec::<(Vec<u8>, u32, u32)>::decode(&mut &bytes[..]).unwrap();
    let summary = tracker.summary();
    assert_eq!(decoded.len(), 70);
    assert_eq!(decoded.len(), summary.len());
    for (got, want) in decoded.iter().zip(summary.iter()) {
        assert_eq!(got.0, want.0);
        assert_eq!(got.1, want.1.read);
        assert_eq!(got.2, want.1.written);
    }
    assert_eq!(decoded[0], (key(0, 32), 1, 2));
    assert_eq!(decoded[1], (key(1, 32), 1, 0));
    assert_eq!(decoded[3], (key(3, 32), 1, 1));
    assert_eq!(decoded[5], (key(5, 32), 1, 1));
}
