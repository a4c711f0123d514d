use bevy_royal::reconcile::{compute_correction, Correction, Past, Pos3, RingBuf, TimeStamp};

fn sample(t: u64, x: i64, y: i64, z: i64) -> TimeStamp {
    TimeStamp { unix_time: t, position: Pos3 { x, y, z } }
}

#[test]
fn ring_buffer_evicts_oldest_when_full() {
    let mut buf: RingBuf<u32> = RingBuf::new(3);
    buf.push(1);
    buf.push(2);
    buf.push(3);
    assert_eq!(buf.len(), 3);
    buf.push(4);
    assert_eq!(buf.len(), 3);
    assert_eq!((*buf.get(0), *buf.get(1), *buf.get(2)), (2, 3, 4));
}

#[test]
fn correction_is_authoritative_minus_interpolated() {
    // history [(1000, 0), (2000, 100)], authoritative sample at 1500:
    // the prediction interpolates to 50, so the delta is auth - 50
    let mut past = Past::new(10);
    past.push(sample(1000, 0, 0, 0));
    past.push(sample(2000, 100, 200, -100));
    let auth = Pos3 { x: 60, y: 90, z: -40 };
    let current = sample(3000, 100, 200, -100);
    match compute_correction(&past, 1500, auth, &current) {
        Correction::Delta { x, y, z } => {
            assert_eq!((x, y, z), (60 - 50, 90 - 100, -40 - (-50)));
        },
        Correction::NoHistory => panic!("bracketed sample must reconcile"),
    }
}

#[test]
fn interpolation_floors_on_the_offset_magnitude() {
    // between (0, 0) and (3, 10) at t=1 the interpolated value is
    // 10 * 1 / 3 = 3 (floored); descending from 10 to 0 it is 10 - 3 = 7
    let mut past = Past::new(10);
    past.push(sample(0, 0, 10, 0));
    past.push(sample(3, 10, 0, 0));
    let auth = Pos3 { x: 0, y: 0, z: 0 };
    let current = sample(10, 10, 0, 0);
    match compute_correction(&past, 1, auth, &current) {
        Correction::Delta { x, y, z } => {
            assert_eq!((x, y, z), (0 - 3, 0 - 7, 0));
        },
        Correction::NoHistory => panic!("bracketed sample must reconcile"),
    }
}

#[test]
fn missing_upper_bracket_interpolates_against_current() {
    // the authoritative instant is newer than every buffered sample: the
    // current predicted position stands in for the missing upper sample
    let mut past = Past::new(10);
    past.push(sample(1000, 0, 0, 0));
    let current = sample(3000, 200, 0, 0);
    let auth = Pos3 { x: 150, y: 0, z: 0 };
    match compute_correction(&past, 2000, auth, &current) {
        Correction::Delta { x, y, z } => {
            // lerp((1000, 0), (3000, 200)) at 2000 is 100
            assert_eq!((x, y, z), (50, 0, 0));
        },
        Correction::NoHistory => panic!("a lower bracket exists"),
    }
}

#[test]
fn authoritative_older_than_history_cannot_reconcile() {
    let mut past = Past::new(10);
    past.push(sample(1000, 0, 0, 0));
    let current = sample(2000, 0, 0, 0);
    let auth = Pos3 { x: 5, y: 5, z: 5 };
    assert!(matches!(compute_correction(&past, 500, auth, &current), Correction::NoHistory));
    let empty = Past::new(10);
    assert!(matches!(compute_correction(&empty, 500, auth, &current), Correction::NoHistory));
}

#[test]
fn history_eviction_keeps_the_newest_samples() {
    let mut past = Past::new(3);
    for k in 0..5u64 {
        past.push(sample(1000 * (k + 1), k as i64 * 10, 0, 0));
    }
    assert_eq!(past.len(), 3);
    // oldest surviving sample is (3000, 20): 2500 is now out of range
    let current = sample(9000, 40, 0, 0);
    let auth = Pos3 { x: 0, y: 0, z: 0 };
    assert!(matches!(
        compute_correction(&past, 2500, auth, &current),
        Correction::NoHistory
    ));
    // 3500 lies between (3000, 20) and (4000, 30): lerp gives 25
    match compute_correction(&past, 3500, auth, &current) {
        Correction::Delta { x, .. } => assert_eq!(x, -25),
        Correction::NoHistory => panic!("3500 is bracketed"),
    }
}
