use bevy_royal::jitter::{JitterBuffer, JITTER_THRESHOLD_MS};

#[test]
fn message_held_until_threshold_then_released_once() {
    let mut buf: JitterBuffer<u32> = JitterBuffer::new();
    buf.push(7);
    // 100 + 99 = 199 ms elapsed: still below the 200 ms threshold
    assert_eq!(buf.tick(100, JITTER_THRESHOLD_MS), Vec::<u32>::new());
    assert_eq!(buf.tick(99, JITTER_THRESHOLD_MS), Vec::<u32>::new());
    assert_eq!(buf.len(), 1);
    // one more millisecond reaches the threshold: released exactly once
    assert_eq!(buf.tick(1, JITTER_THRESHOLD_MS), vec![7]);
    assert_eq!(buf.len(), 0);
    assert_eq!(buf.tick(1000, JITTER_THRESHOLD_MS), Vec::<u32>::new());
}

#[test]
fn released_in_arrival_order() {
    let mut buf: JitterBuffer<&str> = JitterBuffer::new();
    buf.push("first");
    buf.push("second");
    buf.push("third");
    assert_eq!(buf.tick(200, 200), vec!["first", "second", "third"]);
}

#[test]
fn staggered_arrivals_release_separately() {
    let mut buf: JitterBuffer<u8> = JitterBuffer::new();
    buf.push(1);
    assert_eq!(buf.tick(150, 200), Vec::<u8>::new());
    buf.push(2);
    // 1 has 150 + 60 = 210 >= 200; 2 only 60
    assert_eq!(buf.tick(60, 200), vec![1]);
    assert_eq!(buf.tick(140, 200), vec![2]);
}

#[test]
fn zero_threshold_releases_immediately() {
    let mut buf: JitterBuffer<u8> = JitterBuffer::new();
    buf.push(9);
    assert_eq!(buf.tick(0, 0), vec![9]);
}
