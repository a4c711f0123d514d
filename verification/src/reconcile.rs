//! Client-side prediction reconciliation: the client samples its own
//! predicted position into a bounded ring buffer at a fixed cadence; when an
//! authoritative position tagged with an earlier server timestamp arrives,
//! the two buffered samples bracketing that timestamp are interpolated and
//! the difference between the interpolated prediction and the authoritative
//! value is the correction to apply — a drift fix rather than a hard snap.
//!
//! Positions here are fixed-point integer coordinates (the simulation
//! converts its single-precision values at a fixed scale on the way in and
//! out).

use vstd::prelude::*;

use crate::jitter::sat_add;
use vstd::arithmetic::div_mod::lemma_div_is_ordered;
use vstd::arithmetic::div_mod::lemma_div_multiples_vanish;
use vstd::arithmetic::mul::lemma_mul_inequality;
use vstd::arithmetic::mul::lemma_mul_is_commutative;

verus! {

/// The largest coordinate magnitude the reconciliation math admits; keeps
/// every intermediate product inside the machine's range.
pub const POS_LIMIT: i64 = 1099511627776;

/// How often the client samples its predicted position, in milliseconds.
pub const SAMPLE_PERIOD_MS: u64 = 100;

/// A position in fixed-point integer coordinates.
#[derive(Clone, Copy, Debug, PartialEq, Eq, Structural)]
pub struct Pos3 {
    pub x: i64,
    pub y: i64,
    pub z: i64,
}

pub open spec fn bounded_coord(c: i64) -> bool {
    -POS_LIMIT <= c <= POS_LIMIT
}

pub open spec fn bounded_pos(p: Pos3) -> bool {
    bounded_coord(p.x) && bounded_coord(p.y) && bounded_coord(p.z)
}

/// One predicted-position sample: when it was taken and where the object
/// was predicted to be.
#[derive(Clone, Copy, Debug, PartialEq, Eq, Structural)]
pub struct TimeStamp {
    pub unix_time: u64,
    pub position: Pos3,
}

/// A bounded FIFO buffer: pushing onto a full buffer evicts the oldest
/// element.
pub struct RingBuf<T> {
    items: Vec<T>,
    capacity: usize,
}

impl<T> RingBuf<T> {
    /// The held elements, oldest first.
    pub closed spec fn entries(&self) -> Seq<T> {
        self.items@
    }

    /// How many elements the buffer holds before evicting.
    pub closed spec fn cap(&self) -> nat {
        self.capacity as nat
    }

    pub closed spec fn wf(&self) -> bool {
        self.capacity >= 1 && self.items@.len() <= self.capacity
    }

    pub fn new(capacity: usize) -> (r: Self)
        requires
            capacity >= 1,
        ensures
            r.wf(),
            r.cap() == capacity,
            r.entries() == Seq::<T>::empty(),
    {
        RingBuf { items: Vec::new(), capacity }
    }

    pub fn len(&self) -> (r: usize)
        ensures
            r == self.entries().len(),
    {
        self.items.len()
    }

    pub fn get(&self, i: usize) -> (r: &T)
        requires
            i < self.entries().len(),
        ensures
            *r == self.entries()[i as int],
    {
        &self.items[i]
    }

    /// Appends the newest element; a full buffer first evicts its oldest.
    pub fn push(&mut self, item: T)
        requires
            old(self).wf(),
        ensures
            final(self).wf(),
            final(self).cap() == old(self).cap(),
            old(self).entries().len() < old(self).cap() ==> final(self).entries() == old(
                self,
            ).entries().push(item),
            old(self).entries().len() == old(self).cap() ==> final(self).entries() == old(
                self,
            ).entries().drop_first().push(item),
    {
        if self.items.len() == self.capacity {
            let _evicted = self.items.remove(0);
            proof {
                assert(self.items@ =~= old(self).items@.drop_first());
            }
        }
        self.items.push(item);
    }
}

// ---------------------------------------------------------------------------
// Interpolation.
// ---------------------------------------------------------------------------

/// Linear interpolation of one coordinate between `(t1, p1)` and `(t2, p2)`
/// at the instant `tm`, with the division floored on the magnitude of the
/// offset.
pub open spec fn spec_lerp1(p1: i64, p2: i64, t1: u64, t2: u64, tm: u64) -> int
    recommends
        t1 < t2,
        t1 <= tm <= t2,
{
    if p2 >= p1 {
        p1 + (p2 - p1) * (tm - t1) / (t2 - t1)
    } else {
        p1 - (p1 - p2) * (tm - t1) / (t2 - t1)
    }
}

/// The interpolated coordinate never leaves the segment's range.
pub proof fn lemma_lerp1_bounds(p1: i64, p2: i64, t1: u64, t2: u64, tm: u64)
    requires
        t1 < t2,
        t1 <= tm <= t2,
    ensures
        p2 >= p1 ==> p1 <= spec_lerp1(p1, p2, t1, t2, tm) <= p2,
        p2 < p1 ==> p2 <= spec_lerp1(p1, p2, t1, t2, tm) <= p1,
{
    let dt = (tm - t1) as int;
    let span = (t2 - t1) as int;
    if p2 >= p1 {
        let d = (p2 - p1) as int;
        lemma_mul_inequality(dt, span, d);
        lemma_div_is_ordered(d * dt, d * span, span);
        lemma_div_multiples_vanish(d, span);
        assert(d * dt / span >= 0) by {
            lemma_div_is_ordered(0, d * dt, span);
        }
    } else {
        let d = (p1 - p2) as int;
        lemma_mul_inequality(dt, span, d);
        lemma_div_is_ordered(d * dt, d * span, span);
        lemma_div_multiples_vanish(d, span);
        assert(d * dt / span >= 0) by {
            lemma_div_is_ordered(0, d * dt, span);
        }
    }
}

/// Interpolates one coordinate, exactly as [`spec_lerp1`] says.
fn lerp_coord(p1: i64, p2: i64, t1: u64, t2: u64, tm: u64) -> (r: i64)
    requires
        t1 < t2,
        t1 <= tm <= t2,
        bounded_coord(p1),
        bounded_coord(p2),
    ensures
        r == spec_lerp1(p1, p2, t1, t2, tm),
        bounded_coord(r),
{
    proof {
        lemma_lerp1_bounds(p1, p2, t1, t2, tm);
    }
    let dt = (tm - t1) as u128;
    let span = (t2 - t1) as u128;
    if p2 >= p1 {
        let d = (p2 - p1) as u128;
        proof {
            assert(d * dt <= 0x20000000000u128 * 0xffffffffffffffffu128) by (nonlinear_arith)
                requires
                    d <= 0x20000000000u128,
                    dt <= 0xffffffffffffffffu128,
            ;
        }
        let q = d * dt / span;
        proof {
            lemma_mul_inequality(dt as int, span as int, d as int);
            lemma_mul_is_commutative(dt as int, d as int);
            lemma_mul_is_commutative(span as int, d as int);
            lemma_div_is_ordered((d as int) * (dt as int), (d as int) * (span as int), span as int);
            lemma_div_multiples_vanish(d as int, span as int);
        }
        p1 + (q as i64)
    } else {
        let d = (p1 - p2) as u128;
        proof {
            assert(d * dt <= 0x20000000000u128 * 0xffffffffffffffffu128) by (nonlinear_arith)
                requires
                    d <= 0x20000000000u128,
                    dt <= 0xffffffffffffffffu128,
            ;
        }
        let q = d * dt / span;
        proof {
            lemma_mul_inequality(dt as int, span as int, d as int);
            lemma_mul_is_commutative(dt as int, d as int);
            lemma_mul_is_commutative(span as int, d as int);
            lemma_div_is_ordered((d as int) * (dt as int), (d as int) * (span as int), span as int);
            lemma_div_multiples_vanish(d as int, span as int);
        }
        p1 - (q as i64)
    }
}

/// The position interpolated between two samples at the instant `tm`,
/// coordinate by coordinate.
pub open spec fn spec_lerp_pos(a: TimeStamp, b: TimeStamp, tm: u64) -> (int, int, int) {
    (
        spec_lerp1(a.position.x, b.position.x, a.unix_time, b.unix_time, tm),
        spec_lerp1(a.position.y, b.position.y, a.unix_time, b.unix_time, tm),
        spec_lerp1(a.position.z, b.position.z, a.unix_time, b.unix_time, tm),
    )
}

fn lerp_pos(a: &TimeStamp, b: &TimeStamp, tm: u64) -> (r: Pos3)
    requires
        a.unix_time < b.unix_time,
        a.unix_time <= tm <= b.unix_time,
        bounded_pos(a.position),
        bounded_pos(b.position),
    ensures
        (r.x as int, r.y as int, r.z as int) == spec_lerp_pos(*a, *b, tm),
        bounded_pos(r),
{
    Pos3 {
        x: lerp_coord(a.position.x, b.position.x, a.unix_time, b.unix_time, tm),
        y: lerp_coord(a.position.y, b.position.y, a.unix_time, b.unix_time, tm),
        z: lerp_coord(a.position.z, b.position.z, a.unix_time, b.unix_time, tm),
    }
}

// ---------------------------------------------------------------------------
// The prediction history and the correction.
// ---------------------------------------------------------------------------

/// The client's bounded history of predicted positions, sampled at a fixed
/// cadence; times strictly increase and every coordinate is bounded.
pub struct Past {
    buf: RingBuf<TimeStamp>,
}

impl Past {
    /// The buffered samples, oldest first.
    pub closed spec fn samples(&self) -> Seq<TimeStamp> {
        self.buf.entries()
    }

    pub closed spec fn cap(&self) -> nat {
        self.buf.cap()
    }

    pub closed spec fn wf(&self) -> bool {
        &&& self.buf.wf()
        &&& forall|i: int, j: int|
            0 <= i < j < self.buf.entries().len() ==> (#[trigger] self.buf.entries()[i]).unix_time
                < (#[trigger] self.buf.entries()[j]).unix_time
        &&& forall|i: int|
            0 <= i < self.buf.entries().len() ==> bounded_pos(
                (#[trigger] self.buf.entries()[i]).position,
            )
    }

    pub fn new(capacity: usize) -> (r: Self)
        requires
            capacity >= 1,
        ensures
            r.wf(),
            r.cap() == capacity,
            r.samples() == Seq::<TimeStamp>::empty(),
    {
        Past { buf: RingBuf::new(capacity) }
    }

    pub fn len(&self) -> (r: usize)
        ensures
            r == self.samples().len(),
    {
        self.buf.len()
    }

    /// The newest buffered sample's time, if any sample exists.
    pub fn latest_sample_time(&self) -> (r: Option<u64>)
        ensures
            self.samples().len() == 0 ==> r is None,
            self.samples().len() > 0 ==> r == Some(self.samples().last().unix_time),
    {
        let n = self.buf.len();
        if n == 0 {
            None
        } else {
            Some(self.buf.get(n - 1).unix_time)
        }
    }

    /// Records the newest predicted position; a full history evicts its
    /// oldest sample. Sampling times must advance strictly.
    pub fn push(&mut self, sample: TimeStamp)
        requires
            old(self).wf(),
            bounded_pos(sample.position),
            old(self).samples().len() > 0 ==> sample.unix_time > old(self).samples().last().unix_time,
        ensures
            final(self).wf(),
            final(self).cap() == old(self).cap(),
            old(self).samples().len() < old(self).cap() ==> final(self).samples() == old(
                self,
            ).samples().push(sample),
            old(self).samples().len() == old(self).cap() ==> final(self).samples() == old(
                self,
            ).samples().drop_first().push(sample),
    {
        let ghost prev = self.buf.entries();
        self.buf.push(sample);
        proof {
            let cur = self.buf.entries();
            if prev.len() < old(self).cap() {
                assert forall|i: int, j: int|
                    0 <= i < j < cur.len() implies (#[trigger] cur[i]).unix_time
                    < (#[trigger] cur[j]).unix_time by {
                    if j < cur.len() - 1 {
                        assert(cur[i] == prev[i] && cur[j] == prev[j]);
                    } else {
                        assert(cur[i] == prev[i]);
                        if i < prev.len() - 1 {
                            assert(prev[i].unix_time < prev[prev.len() - 1].unix_time);
                        }
                    }
                }
            } else {
                let dropped = prev.drop_first();
                assert forall|i: int, j: int|
                    0 <= i < j < cur.len() implies (#[trigger] cur[i]).unix_time
                    < (#[trigger] cur[j]).unix_time by {
                    if j < cur.len() - 1 {
                        assert(cur[i] == prev[i + 1] && cur[j] == prev[j + 1]);
                    } else {
                        assert(cur[i] == prev[i + 1]);
                        if i + 1 < prev.len() - 1 {
                            assert(prev[i + 1].unix_time < prev[prev.len() - 1].unix_time);
                        }
                    }
                }
                assert forall|i: int| 0 <= i < cur.len() implies bounded_pos(
                    (#[trigger] cur[i]).position,
                ) by {
                    if i < cur.len() - 1 {
                        assert(cur[i] == prev[i + 1]);
                    }
                }
            }
        }
    }
}

/// Paces prediction sampling: elapsed time accumulates tick by tick, and
/// once a full sampling period has passed the clock tells the caller to
/// record a sample now, and starts over.
pub struct SampleClock {
    accum: u64,
}

impl SampleClock {
    /// The time accumulated since the last sample, in milliseconds.
    pub closed spec fn accumulated(&self) -> u64 {
        self.accum
    }

    pub fn new() -> (r: Self)
        ensures
            r.accumulated() == 0,
    {
        SampleClock { accum: 0 }
    }

    /// Advances the clock by one tick's elapsed time; returns whether a
    /// full sampling period has passed, resetting the accumulator when it
    /// has.
    pub fn tick(&mut self, delta_ms: u64, period_ms: u64) -> (due: bool)
        ensures
            due == (sat_add(old(self).accumulated(), delta_ms) >= period_ms),
            final(self).accumulated() == (if due {
                0
            } else {
                sat_add(old(self).accumulated(), delta_ms)
            }),
    {
        let t = if self.accum <= u64::MAX - delta_ms {
            self.accum + delta_ms
        } else {
            u64::MAX
        };
        if t >= period_ms {
            self.accum = 0;
            true
        } else {
            self.accum = t;
            false
        }
    }
}

/// The index of the last buffered sample taken at or before `tm`, if any.
pub open spec fn spec_lower_index(s: Seq<TimeStamp>, tm: u64) -> Option<int> {
    if s.len() == 0 || s[0].unix_time > tm {
        None
    } else {
        Some(choose|i: int| 0 <= i < s.len() && (#[trigger] s[i]).unix_time <= tm && (i == s.len()
            - 1 || s[i + 1].unix_time > tm))
    }
}

/// What correction an authoritative sample demands, per the history: the
/// authoritative position minus the prediction interpolated at the
/// authoritative instant.
pub enum Correction {
    /// The authoritative instant lies before every buffered sample; nothing
    /// can be reconciled and the update is applied as-is by the caller.
    NoHistory,
    /// The interpolated prediction and the delta to add to the predicted
    /// position.
    Delta { x: i64, y: i64, z: i64 },
}

/// Computes the correction for an authoritative position `auth` taken at
/// server instant `tm`, against the buffered history and, when `tm` is newer
/// than every buffered sample, the current predicted position `current`.
///
/// The returned delta is exactly `auth - lerp(a, b, tm)`, coordinate by
/// coordinate, where `a` is the last sample at or before `tm` and `b` the
/// next sample after it — or `current` when no later sample exists.
pub fn compute_correction(past: &Past, tm: u64, auth: Pos3, current: &TimeStamp) -> (r:
    Correction)
    requires
        past.wf(),
        bounded_pos(auth),
        bounded_pos(current.position),
        past.samples().len() > 0 ==> current.unix_time > past.samples().last().unix_time,
        tm <= current.unix_time,
    ensures
        r is NoHistory <==> (past.samples().len() == 0 || past.samples()[0].unix_time > tm),
        r matches Correction::Delta { x, y, z } ==> {
            let i = spec_lower_index(past.samples(), tm)->Some_0;
            let a = past.samples()[i];
            let b = if i == past.samples().len() - 1 {
                *current
            } else {
                past.samples()[i + 1]
            };
            let lerped = spec_lerp_pos(a, b, tm);
            &&& 0 <= i < past.samples().len()
            &&& a.unix_time <= tm
            &&& (i == past.samples().len() - 1 || past.samples()[i + 1].unix_time > tm)
            &&& x == auth.x - lerped.0
            &&& y == auth.y - lerped.1
            &&& z == auth.z - lerped.2
        },
{
    let n = past.len();
    if n == 0 {
        return Correction::NoHistory;
    }
    if past.buf_first_time() > tm {
        return Correction::NoHistory;
    }
    // find the last sample at or before tm
    let mut i: usize = 0;
    while i + 1 < n && past.sample_at(i + 1).unix_time <= tm
        invariant
            past.wf(),
            n == past.samples().len(),
            i < n,
            past.samples()[i as int].unix_time <= tm,
        decreases n - i,
    {
        i += 1;
    }
    let a = *past.sample_at(i);
    let b: TimeStamp = if i + 1 < n {
        *past.sample_at(i + 1)
    } else {
        *current
    };
    proof {
        let s = past.samples();
        assert(s[i as int].unix_time <= tm && (i as int == s.len() - 1 || s[i as int
            + 1].unix_time > tm));
        let w = spec_lower_index(s, tm)->Some_0;
        assert(s[w].unix_time <= tm && (w == s.len() - 1 || s[w + 1].unix_time > tm));
        assert(w == i as int) by {
            if w < i as int {
                assert(s[w + 1].unix_time <= s[i as int].unix_time);
            } else if w > i as int {
                assert(s[i as int + 1].unix_time <= s[w].unix_time);
            }
        }
        assert(a.unix_time < b.unix_time);
        assert(tm <= b.unix_time);
    }
    let lerped = lerp_pos(&a, &b, tm);
    Correction::Delta { x: auth.x - lerped.x, y: auth.y - lerped.y, z: auth.z - lerped.z }
}

impl Past {
    /// The oldest sample's time; the history must not be empty.
    fn buf_first_time(&self) -> (r: u64)
        requires
            self.samples().len() > 0,
        ensures
            r == self.samples()[0].unix_time,
    {
        self.buf.get(0).unix_time
    }

    /// One buffered sample by age rank, oldest first.
    fn sample_at(&self, i: usize) -> (r: &TimeStamp)
        requires
            i < self.samples().len(),
        ensures
            *r == self.samples()[i as int],
    {
        self.buf.get(i)
    }
}

} // verus!
