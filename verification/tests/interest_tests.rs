use bevy_royal::interest::LastBroadcast;

const OBSERVER_A: u64 = 1;
const OBSERVER_B: u64 = 2;

#[test]
fn timer_accumulates_and_resets_on_send() {
    let mut lb = LastBroadcast::new();
    // distance 200 at falloff 200 gives a 1000 ms interval
    assert!(!lb.update_per_distance(OBSERVER_A, 400, 200, 200, 0));
    assert!(!lb.update_per_distance(OBSERVER_A, 400, 200, 200, 0));
    assert!(lb.update_per_distance(OBSERVER_A, 400, 200, 200, 0)); // 1200 >= 1000
    // the send reset the timer: it starts over
    assert!(!lb.update_per_distance(OBSERVER_A, 400, 200, 200, 0));
}

#[test]
fn zero_distance_sends_every_tick() {
    let mut lb = LastBroadcast::new();
    for _ in 0..5 {
        assert!(lb.update_per_distance(OBSERVER_A, 16, 0, 200, 0));
    }
}

#[test]
fn minimum_floor_throttles_even_at_zero_distance() {
    let mut lb = LastBroadcast::new();
    // floor of 50 ms: a 16 ms tick is not enough on its own
    assert!(!lb.update_per_distance(OBSERVER_A, 16, 0, 200, 50));
    assert!(!lb.update_per_distance(OBSERVER_A, 16, 0, 200, 50));
    assert!(!lb.update_per_distance(OBSERVER_A, 16, 0, 200, 50));
    assert!(lb.update_per_distance(OBSERVER_A, 16, 0, 200, 50)); // 64 >= 50
}

#[test]
fn observers_have_independent_timers() {
    let mut lb = LastBroadcast::new();
    assert!(!lb.update_per_distance(OBSERVER_A, 600, 200, 200, 0));
    // a fresh observer starts from zero
    assert!(!lb.update_per_distance(OBSERVER_B, 600, 200, 200, 0));
    assert!(lb.update_per_distance(OBSERVER_A, 600, 200, 200, 0));
}

#[test]
fn nearer_observer_hears_at_least_as_often() {
    // two fixed-distance pairs, d1 < d2, over a long run of equal ticks
    let mut near = LastBroadcast::new();
    let mut far = LastBroadcast::new();
    let mut near_count = 0u32;
    let mut far_count = 0u32;
    for _ in 0..1000 {
        if near.update_per_distance(OBSERVER_A, 16, 150, 200, 0) {
            near_count += 1;
        }
        if far.update_per_distance(OBSERVER_A, 16, 900, 200, 0) {
            far_count += 1;
        }
    }
    assert!(near_count >= far_count);
    assert!(near_count > 0);
}

#[test]
fn spawned_object_near_and_far_observer_counts() {
    // the server spawns an object at distance 10 from observer A and 4000
    // from observer B, falloff constant 500; over 5 simulated seconds A
    // receives strictly more position updates than B
    let mut lb = LastBroadcast::new();
    let mut updates_a = 0u32;
    let mut updates_b = 0u32;
    let tick_ms = 50;
    let ticks = 5_000 / tick_ms;
    for _ in 0..ticks {
        if lb.update_per_distance(OBSERVER_A, tick_ms, 10, 500, 0) {
            updates_a += 1;
        }
        if lb.update_per_distance(OBSERVER_B, tick_ms, 4000, 500, 0) {
            updates_b += 1;
        }
    }
    assert!(updates_a > updates_b);
    // distance 10 at falloff 500 owes an update every 20 ms: every tick fires
    assert_eq!(updates_a, ticks as u32);
    // distance 4000 owes one every 8000 ms: silent within 5 seconds
    assert_eq!(updates_b, 0);
}
