//! The interest scheduler: per (subject, observer) send-rate throttling
//! scaled by distance. Each subject carries one timer per observer; every
//! tick the timer grows by the elapsed time, and a state update is emitted —
//! and the timer reset — only once the timer reaches an interval proportional
//! to the distance. Nearer observers therefore hear about a subject at least
//! as often as farther ones.

use vstd::prelude::*;

use crate::jitter::sat_add;
use vstd::arithmetic::div_mod::lemma_div_is_ordered;
use vstd::arithmetic::mul::lemma_mul_inequality;

verus! {

/// The default falloff constant: distance units per second of update
/// interval.
pub const INTEREST_FALLOFF: u64 = 200;

/// The default minimum update interval, in milliseconds: the floor that
/// keeps the owed interval from degenerating to zero for an observer at
/// distance zero.
pub const INTEREST_FLOOR_MS: u64 = 50;

/// The update interval owed to an observer at `distance`, in milliseconds:
/// the distance divided by the falloff constant (scaled to milliseconds),
/// plus a minimum floor that keeps very near observers from being flooded.
pub open spec fn spec_interval(distance: u64, falloff: u64, floor: u64) -> u64
    recommends
        falloff > 0,
{
    if distance * 1000 / (falloff as int) + floor > u64::MAX {
        u64::MAX
    } else {
        (distance * 1000 / (falloff as int) + floor) as u64
    }
}

/// The owed interval never shrinks as the distance grows.
pub proof fn lemma_interval_monotone(d1: u64, d2: u64, falloff: u64, floor: u64)
    requires
        falloff > 0,
        d1 <= d2,
    ensures
        spec_interval(d1, falloff, floor) <= spec_interval(d2, falloff, floor),
{
    lemma_mul_inequality(d1 as int, d2 as int, 1000);
    lemma_div_is_ordered(d1 * 1000, d2 * 1000, falloff as int);
}

/// One subject's per-observer broadcast timers, in milliseconds.
pub struct LastBroadcast {
    timers: Vec<(u64, u64)>,
}

spec fn spec_timer_map(s: Seq<(u64, u64)>) -> Map<u64, u64>
    decreases s.len(),
{
    if s.len() == 0 {
        Map::empty()
    } else {
        spec_timer_map(s.drop_last()).insert(s.last().0, s.last().1)
    }
}

spec fn distinct_observers(s: Seq<(u64, u64)>) -> bool {
    forall|i: int, j: int| 0 <= i < j < s.len() ==> (#[trigger] s[i]).0 != (#[trigger] s[j]).0
}

proof fn lemma_timer_map_props(s: Seq<(u64, u64)>)
    requires
        distinct_observers(s),
    ensures
        forall|o: u64|
            #[trigger] spec_timer_map(s).dom().contains(o) <==> exists|i: int|
                0 <= i < s.len() && (#[trigger] s[i]).0 == o,
        forall|i: int| 0 <= i < s.len() ==> spec_timer_map(s)[(#[trigger] s[i]).0] == s[i].1,
    decreases s.len(),
{
    if s.len() > 0 {
        let d = s.drop_last();
        assert(distinct_observers(d)) by {
            assert forall|i: int, j: int|
                0 <= i < j < d.len() implies (#[trigger] d[i]).0 != (#[trigger] d[j]).0 by {
                assert(d[i] == s[i] && d[j] == s[j]);
            }
        }
        lemma_timer_map_props(d);
        assert forall|i: int| 0 <= i < s.len() implies spec_timer_map(s)[(#[trigger] s[i]).0]
            == s[i].1 by {
            if i < s.len() - 1 {
                assert(s[i] == d[i]);
                assert(s[i].0 != s[s.len() - 1].0);
            }
        }
        assert forall|o: u64| #[trigger] spec_timer_map(s).dom().contains(o) implies exists|i: int|
            0 <= i < s.len() && (#[trigger] s[i]).0 == o by {
            if o != s.last().0 {
                assert(spec_timer_map(d).dom().contains(o));
                let i = choose|i: int| 0 <= i < d.len() && (#[trigger] d[i]).0 == o;
                assert(s[i] == d[i]);
                assert((s[i]).0 == o);
            } else {
                assert((s[s.len() - 1]).0 == o);
            }
        }
        assert forall|o: u64| (exists|i: int| 0 <= i < s.len() && (#[trigger] s[i]).0 == o)
            implies #[trigger] spec_timer_map(s).dom().contains(o) by {
            let i = choose|i: int| 0 <= i < s.len() && (#[trigger] s[i]).0 == o;
            if i < s.len() - 1 {
                assert((d[i]).0 == o);
            }
        }
    }
}

impl LastBroadcast {
    /// The timer each observer has accumulated; an absent observer counts as
    /// zero.
    pub closed spec fn timers(&self) -> Map<u64, u64> {
        spec_timer_map(self.timers@)
    }

    /// Internal consistency: one timer per observer.
    pub closed spec fn wf(&self) -> bool {
        distinct_observers(self.timers@)
    }

    /// The accumulated time for one observer, zero when not yet tracked.
    pub open spec fn timer_of(&self, observer: u64) -> u64 {
        if self.timers().dom().contains(observer) {
            self.timers()[observer]
        } else {
            0
        }
    }

    pub fn new() -> (r: Self)
        ensures
            r.wf(),
            r.timers() == Map::<u64, u64>::empty(),
    {
        LastBroadcast { timers: Vec::new() }
    }

    /// One tick for one observer: the timer grows by the elapsed time; when
    /// it reaches the interval owed at this distance the update is due, and
    /// the timer resets to zero. Returns whether the update is due.
    pub fn update_per_distance(
        &mut self,
        observer: u64,
        delta_ms: u64,
        distance: u64,
        falloff: u64,
        floor: u64,
    ) -> (due: bool)
        requires
            old(self).wf(),
            falloff > 0,
        ensures
            final(self).wf(),
            due == (sat_add(old(self).timer_of(observer), delta_ms) >= spec_interval(
                distance,
                falloff,
                floor,
            )),
            final(self).timers() == old(self).timers().insert(
                observer,
                if due {
                    0
                } else {
                    sat_add(old(self).timer_of(observer), delta_ms)
                },
            ),
    {
        proof {
            lemma_timer_map_props(self.timers@);
        }
        let interval = interval_for(distance, falloff, floor);
        let ghost prev = self.timers@;
        let mut i: usize = 0;
        while i < self.timers.len()
            invariant
                old(self).wf(),
                self == old(self),
                prev == self.timers@,
                i <= prev.len(),
                falloff > 0,
                interval == spec_interval(distance, falloff, floor),
                forall|j: int| 0 <= j < i ==> (#[trigger] prev[j]).0 != observer,
            decreases prev.len() - i,
        {
            if self.timers[i].0 == observer {
                let t0 = self.timers[i].1;
                let t1 = if t0 <= u64::MAX - delta_ms {
                    t0 + delta_ms
                } else {
                    u64::MAX
                };
                let due = t1 >= interval;
                let stored = if due {
                    0
                } else {
                    t1
                };
                self.timers[i] = (observer, stored);
                proof {
                    lemma_timer_map_props(prev);
                    assert(prev[i as int].0 == observer);
                    assert(spec_timer_map(prev).dom().contains(observer));
                    assert(spec_timer_map(prev)[prev[i as int].0] == prev[i as int].1);
                    assert(old(self).timer_of(observer) == t0);
                    assert(distinct_observers(self.timers@)) by {
                        assert forall|a: int, b: int|
                            0 <= a < b < self.timers@.len() implies (
                            #[trigger] self.timers@[a]).0 != (#[trigger] self.timers@[b]).0 by {
                            assert(self.timers@[a].0 == prev[a].0 && self.timers@[b].0
                                == prev[b].0);
                        }
                    }
                    lemma_timer_map_props(self.timers@);
                    assert(spec_timer_map(self.timers@) =~= spec_timer_map(prev).insert(
                        observer,
                        stored,
                    )) by {
                        assert forall|o: u64|
                            #[trigger] spec_timer_map(self.timers@).dom().contains(o)
                            <==> spec_timer_map(prev).insert(observer, stored).dom().contains(
                            o,
                        ) by {
                            if spec_timer_map(self.timers@).dom().contains(o) {
                                let j = choose|j: int|
                                    0 <= j < self.timers@.len() && (
                                    #[trigger] self.timers@[j]).0 == o;
                                assert(prev[j].0 == o);
                            }
                            if o != observer && spec_timer_map(prev).dom().contains(o) {
                                let j = choose|j: int|
                                    0 <= j < prev.len() && (#[trigger] prev[j]).0 == o;
                                assert(self.timers@[j].0 == o);
                            }
                        }
                        assert forall|o: u64|
                            spec_timer_map(self.timers@).dom().contains(o) implies spec_timer_map(
                            self.timers@,
                        )[o] == spec_timer_map(prev).insert(observer, stored)[o] by {
                            let j = choose|j: int|
                                0 <= j < self.timers@.len() && (#[trigger] self.timers@[j]).0
                                    == o;
                            if o != observer {
                                assert(prev[j].0 == o);
                                assert(prev[j].1 == self.timers@[j].1);
                            } else {
                                assert(self.timers@[i as int].0 == observer);
                                assert(j == i as int);
                            }
                        }
                    }
                }
                return due;
            }
            i += 1;
        }
        let t1 = delta_ms;
        let due = t1 >= interval;
        let stored = if due {
            0
        } else {
            t1
        };
        self.timers.push((observer, stored));
        proof {
            lemma_timer_map_props(prev);
            assert(!old(self).timers().dom().contains(observer));
            assert(old(self).timer_of(observer) == 0);
            assert(sat_add(0, delta_ms) == delta_ms);
            assert(self.timers@.drop_last() =~= prev);
            assert forall|a: int, b: int|
                0 <= a < b < self.timers@.len() implies (#[trigger] self.timers@[a]).0
                != (#[trigger] self.timers@[b]).0 by {
                if b < self.timers@.len() - 1 {
                    assert(prev[a].0 != prev[b].0);
                } else {
                    assert(self.timers@[a] == prev[a]);
                }
            }
        }
        due
    }
}

/// The interval owed at `distance`, as the scheduler computes it.
fn interval_for(distance: u64, falloff: u64, floor: u64) -> (r: u64)
    requires
        falloff > 0,
    ensures
        r == spec_interval(distance, falloff, floor),
{
    let scaled: u128 = (distance as u128) * 1000 / (falloff as u128) + (floor as u128);
    if scaled > u64::MAX as u128 {
        u64::MAX
    } else {
        scaled as u64
    }
}

// ---------------------------------------------------------------------------
// The interest law: a nearer observer is served at least as often.
// ---------------------------------------------------------------------------

/// How many updates one timer emits over a run of ticks, starting from
/// accumulated time `t`, with owed interval `interval`.
pub open spec fn spec_send_count(t: u64, deltas: Seq<u64>, interval: u64) -> nat
    decreases deltas.len(),
{
    if deltas.len() == 0 {
        0
    } else {
        let t1 = sat_add(t, deltas[0]);
        if t1 >= interval {
            1 + spec_send_count(0, deltas.drop_first(), interval)
        } else {
            spec_send_count(t1, deltas.drop_first(), interval)
        }
    }
}

proof fn lemma_send_count_compare(t1: u64, t2: u64, deltas: Seq<u64>, iv1: u64, iv2: u64)
    requires
        iv1 <= iv2,
    ensures
        t1 >= t2 ==> spec_send_count(t1, deltas, iv1) >= spec_send_count(t2, deltas, iv2),
        spec_send_count(t1, deltas, iv1) + 1 >= spec_send_count(t2, deltas, iv2),
    decreases deltas.len(),
{
    if deltas.len() > 0 {
        let d = deltas[0];
        let rest = deltas.drop_first();
        let n1 = sat_add(t1, d);
        let n2 = sat_add(t2, d);
        if n1 >= iv1 && n2 >= iv2 {
            lemma_send_count_compare(0, 0, rest, iv1, iv2);
        } else if n1 >= iv1 {
            lemma_send_count_compare(0, n2, rest, iv1, iv2);
        } else if n2 >= iv2 {
            lemma_send_count_compare(n1, 0, rest, iv1, iv2);
        } else {
            lemma_send_count_compare(n1, n2, rest, iv1, iv2);
        }
    }
}

/// Over any run of ticks, a subject sends to an observer at the nearer
/// distance at least as many updates as to one at the farther distance: the
/// update interval scales non-decreasingly with distance.
pub proof fn lemma_nearer_observer_at_least_as_often(
    deltas: Seq<u64>,
    d1: u64,
    d2: u64,
    falloff: u64,
    floor: u64,
)
    requires
        falloff > 0,
        d1 <= d2,
    ensures
        spec_send_count(0, deltas, spec_interval(d1, falloff, floor)) >= spec_send_count(
            0,
            deltas,
            spec_interval(d2, falloff, floor),
        ),
{
    lemma_interval_monotone(d1, d2, falloff, floor);
    lemma_send_count_compare(
        0,
        0,
        deltas,
        spec_interval(d1, falloff, floor),
        spec_interval(d2, falloff, floor),
    );
}

} // verus!
