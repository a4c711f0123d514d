use bevy_royal::reliability::{PendingTable, RESEND_INTERVAL_MS};

#[test]
fn sequence_numbers_are_monotonic_from_one() {
    let mut table = PendingTable::new();
    let s1 = table.insert(vec![1, 2, 3], 10, 0);
    let s2 = table.insert(vec![4, 5, 6], 10, 0);
    let s3 = table.insert(vec![7], 11, 5);
    assert_eq!((s1, s2, s3), (1, 2, 3));
}

#[test]
fn reliable_send_resent_until_confirmed() {
    // fake clock: insert at t=0, watch resends at the 300 ms interval
    let mut table = PendingTable::new();
    let bytes = vec![0xaa; 16];
    let s = table.insert(bytes.clone(), 42, 0);
    assert!(table.contains(s));

    // not yet overdue: 300 is not strictly past the interval
    assert_eq!(table.due_resends(300, RESEND_INTERVAL_MS), Vec::<u64>::new());
    // overdue now; the stored frame is byte-for-byte what was sent
    assert_eq!(table.due_resends(301, RESEND_INTERVAL_MS), vec![s]);
    assert_eq!(table.bytes_of(s), Some(&bytes));
    // the resend refreshed the timestamp: quiet again until 601
    assert_eq!(table.due_resends(601, RESEND_INTERVAL_MS), Vec::<u64>::new());
    assert_eq!(table.due_resends(602, RESEND_INTERVAL_MS), vec![s]);
    assert_eq!(table.bytes_of(s), Some(&bytes));

    // the acknowledgment arrives: no further retransmission, ever
    table.confirm(s);
    assert!(!table.contains(s));
    assert_eq!(table.bytes_of(s), None);
    assert_eq!(table.due_resends(10_000, RESEND_INTERVAL_MS), Vec::<u64>::new());
}

#[test]
fn duplicate_confirm_is_a_no_op() {
    let mut table = PendingTable::new();
    let s1 = table.insert(vec![1], 1, 0);
    let s2 = table.insert(vec![2], 1, 0);
    table.confirm(s1);
    table.confirm(s1); // absent key: nothing happens
    table.confirm(77); // never assigned: nothing happens
    assert!(!table.contains(s1));
    assert!(table.contains(s2));
    assert_eq!(table.bytes_of(s2), Some(&vec![2]));
}

#[test]
fn only_overdue_entries_are_resent() {
    let mut table = PendingTable::new();
    let s1 = table.insert(vec![1], 1, 0);
    let s2 = table.insert(vec![2], 1, 250);
    // at 301, s1 is overdue (301 > 0 + 300) but s2 is not (301 <= 250 + 300)
    assert_eq!(table.due_resends(301, RESEND_INTERVAL_MS), vec![s1]);
    // at 551, s2 becomes overdue; s1 was refreshed at 301
    assert_eq!(table.due_resends(551, RESEND_INTERVAL_MS), vec![s2]);
}

#[test]
fn confirmed_sequence_is_never_reused() {
    let mut table = PendingTable::new();
    let s1 = table.insert(vec![1], 1, 0);
    table.confirm(s1);
    let s2 = table.insert(vec![2], 1, 0);
    assert_ne!(s1, s2);
    assert_eq!(s2, s1 + 1);
}
