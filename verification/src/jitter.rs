//! The jitter buffer: every decoded inbound message is held with a delay
//! accumulator that grows with elapsed time, and is handed to the simulation
//! only once the accumulator reaches the configured threshold — in arrival
//! order among the messages released together, each exactly once.

use vstd::prelude::*;
use vstd::multiset::Multiset;
use vstd::seq_lib::lemma_multiset_commutative;

verus! {

/// The hold-and-release threshold the client loop uses, in milliseconds.
pub const JITTER_THRESHOLD_MS: u64 = 200;

/// One held message and the time it has accumulated so far, in milliseconds.
pub struct DelayedEnvelope<T> {
    pub delay: u64,
    pub message: T,
}

/// Addition that sticks at the top of the clock's range instead of wrapping.
pub open spec fn sat_add(a: u64, b: u64) -> u64 {
    if a + b > u64::MAX {
        u64::MAX
    } else {
        (a + b) as u64
    }
}

/// The messages a tick with `delta` elapsed releases, in arrival order.
pub open spec fn spec_released<T>(
    s: Seq<DelayedEnvelope<T>>,
    delta: u64,
    threshold: u64,
) -> Seq<T>
    decreases s.len(),
{
    if s.len() == 0 {
        Seq::empty()
    } else {
        let rest = spec_released(s.drop_first(), delta, threshold);
        if sat_add(s[0].delay, delta) >= threshold {
            seq![s[0].message] + rest
        } else {
            rest
        }
    }
}

/// The envelopes a tick with `delta` elapsed keeps, with their accumulators
/// advanced, in arrival order.
pub open spec fn spec_kept<T>(
    s: Seq<DelayedEnvelope<T>>,
    delta: u64,
    threshold: u64,
) -> Seq<DelayedEnvelope<T>>
    decreases s.len(),
{
    if s.len() == 0 {
        Seq::empty()
    } else {
        let rest = spec_kept(s.drop_first(), delta, threshold);
        if sat_add(s[0].delay, delta) >= threshold {
            rest
        } else {
            seq![DelayedEnvelope { delay: sat_add(s[0].delay, delta), message: s[0].message }]
                + rest
        }
    }
}

/// The delay pool that smooths bursty arrival before messages reach the
/// simulation thread.
pub struct JitterBuffer<T> {
    pool: Vec<DelayedEnvelope<T>>,
}

impl<T> JitterBuffer<T> {
    /// The held envelopes, in arrival order.
    pub closed spec fn entries(&self) -> Seq<DelayedEnvelope<T>> {
        self.pool@
    }

    pub fn new() -> (r: Self)
        ensures
            r.entries() == Seq::<DelayedEnvelope<T>>::empty(),
    {
        JitterBuffer { pool: Vec::new() }
    }

    pub fn len(&self) -> (r: usize)
        ensures
            r == self.entries().len(),
    {
        self.pool.len()
    }

    /// Holds a freshly arrived message with an empty accumulator.
    pub fn push(&mut self, message: T)
        ensures
            final(self).entries() == old(self).entries().push(
                DelayedEnvelope { delay: 0, message },
            ),
    {
        self.pool.push(DelayedEnvelope { delay: 0, message });
    }

    /// One pass of the I/O loop: every accumulator grows by the elapsed
    /// `delta`; the messages whose accumulators reach `threshold` are
    /// returned, in arrival order, and leave the buffer; the rest stay, in
    /// arrival order.
    pub fn tick(&mut self, delta: u64, threshold: u64) -> (r: Vec<T>)
        ensures
            r@ == spec_released(old(self).entries(), delta, threshold),
            final(self).entries() == spec_kept(old(self).entries(), delta, threshold),
    {
        let ghost orig = self.pool@;
        let mut taken: Vec<DelayedEnvelope<T>> = Vec::new();
        core::mem::swap(&mut self.pool, &mut taken);
        let mut out: Vec<T> = Vec::new();
        proof {
            assert(spec_released(orig, delta, threshold) =~= out@ + spec_released(
                taken@,
                delta,
                threshold,
            ));
            assert(spec_kept(orig, delta, threshold) =~= self.pool@ + spec_kept(
                taken@,
                delta,
                threshold,
            ));
        }
        while taken.len() > 0
            invariant
                spec_released(orig, delta, threshold) == out@ + spec_released(
                    taken@,
                    delta,
                    threshold,
                ),
                spec_kept(orig, delta, threshold) == self.pool@ + spec_kept(
                    taken@,
                    delta,
                    threshold,
                ),
            decreases taken@.len(),
        {
            let ghost before = taken@;
            let e = taken.remove(0);
            proof {
                assert(taken@ =~= before.drop_first());
                assert(e == before[0]);
            }
            let new_delay = if e.delay <= u64::MAX - delta {
                e.delay + delta
            } else {
                u64::MAX
            };
            assert(new_delay == sat_add(before[0].delay, delta));
            if new_delay >= threshold {
                let ghost out_before = out@;
                out.push(e.message);
                proof {
                    assert(out_before + (seq![before[0].message] + spec_released(
                        taken@,
                        delta,
                        threshold,
                    )) =~= out@ + spec_released(taken@, delta, threshold));
                }
            } else {
                let ghost pool_before = self.pool@;
                self.pool.push(DelayedEnvelope { delay: new_delay, message: e.message });
                proof {
                    assert(pool_before + (seq![
                        DelayedEnvelope {
                            delay: sat_add(before[0].delay, delta),
                            message: before[0].message,
                        },
                    ] + spec_kept(taken@, delta, threshold)) =~= self.pool@ + spec_kept(
                        taken@,
                        delta,
                        threshold,
                    ));
                }
            }
        }
        proof {
            assert(out@ + spec_released(taken@, delta, threshold) =~= out@);
            assert(self.pool@ + spec_kept(taken@, delta, threshold) =~= self.pool@);
        }
        out
    }
}

// ---------------------------------------------------------------------------
// The jitter law: when one message is released.
// ---------------------------------------------------------------------------

/// The accumulator of a message that entered with `delay` after the ticks in
/// `deltas`, each addition saturating.
pub open spec fn spec_sat_sum(delay: u64, deltas: Seq<u64>) -> u64
    decreases deltas.len(),
{
    if deltas.len() == 0 {
        delay
    } else {
        spec_sat_sum(sat_add(delay, deltas[0]), deltas.drop_first())
    }
}

/// Where a message held with `delay` stands after the ticks in `deltas`:
/// still held, with its accumulator (`Some`), or already released (`None`).
pub open spec fn spec_hold_run(delay: u64, deltas: Seq<u64>, threshold: u64) -> Option<u64>
    decreases deltas.len(),
{
    if deltas.len() == 0 {
        Some(delay)
    } else if sat_add(delay, deltas[0]) >= threshold {
        None
    } else {
        spec_hold_run(sat_add(delay, deltas[0]), deltas.drop_first(), threshold)
    }
}

proof fn lemma_sat_sum_lower_bound(delay: u64, deltas: Seq<u64>)
    ensures
        spec_sat_sum(delay, deltas) >= delay,
    decreases deltas.len(),
{
    if deltas.len() > 0 {
        lemma_sat_sum_lower_bound(sat_add(delay, deltas[0]), deltas.drop_first());
    }
}

/// A message whose accumulated elapsed time stays below the threshold is
/// never released: it is still held, with exactly that accumulated time.
pub proof fn lemma_jitter_held_below_threshold(delay: u64, deltas: Seq<u64>, threshold: u64)
    requires
        spec_sat_sum(delay, deltas) < threshold,
    ensures
        spec_hold_run(delay, deltas, threshold) == Some(spec_sat_sum(delay, deltas)),
    decreases deltas.len(),
{
    if deltas.len() > 0 {
        lemma_sat_sum_lower_bound(sat_add(delay, deltas[0]), deltas.drop_first());
        lemma_jitter_held_below_threshold(
            sat_add(delay, deltas[0]),
            deltas.drop_first(),
            threshold,
        );
    }
}

/// Once a message's accumulated elapsed time reaches the threshold, it has
/// been released (and, being removed on release, is released exactly once).
pub proof fn lemma_jitter_released_at_threshold(delay: u64, deltas: Seq<u64>, threshold: u64)
    requires
        delay < threshold,
        spec_sat_sum(delay, deltas) >= threshold,
    ensures
        spec_hold_run(delay, deltas, threshold) is None,
    decreases deltas.len(),
{
    if deltas.len() > 0 && sat_add(delay, deltas[0]) < threshold {
        lemma_jitter_released_at_threshold(
            sat_add(delay, deltas[0]),
            deltas.drop_first(),
            threshold,
        );
    }
}

/// A tick hands every held message to exactly one side: released or kept.
pub proof fn lemma_tick_partition<T>(s: Seq<DelayedEnvelope<T>>, delta: u64, threshold: u64)
    ensures
        spec_released(s, delta, threshold).len() + spec_kept(s, delta, threshold).len()
            == s.len(),
    decreases s.len(),
{
    if s.len() > 0 {
        lemma_tick_partition(s.drop_first(), delta, threshold);
    }
}

/// A tick neither loses nor duplicates a message: the released messages and
/// the kept messages together are exactly the held messages.
pub proof fn lemma_tick_conserves_messages<T>(
    s: Seq<DelayedEnvelope<T>>,
    delta: u64,
    threshold: u64,
)
    ensures
        spec_released(s, delta, threshold).to_multiset().add(
            spec_kept(s, delta, threshold).map_values(
                |e: DelayedEnvelope<T>| e.message,
            ).to_multiset(),
        ) == s.map_values(|e: DelayedEnvelope<T>| e.message).to_multiset(),
    decreases s.len(),
{
    let msg_of = |e: DelayedEnvelope<T>| e.message;
    let rel = spec_released(s, delta, threshold);
    let kept = spec_kept(s, delta, threshold);
    if s.len() == 0 {
        assert(rel.to_multiset() =~= Multiset::<T>::empty()) by {
            rel.to_multiset_ensures();
        }
        assert(kept.map_values(msg_of).to_multiset() =~= Multiset::<T>::empty()) by {
            kept.map_values(msg_of).to_multiset_ensures();
        }
        assert(s.map_values(msg_of).to_multiset() =~= Multiset::<T>::empty()) by {
            s.map_values(msg_of).to_multiset_ensures();
        }
        assert(Multiset::<T>::empty().add(Multiset::<T>::empty()) =~= Multiset::<T>::empty());
    } else {
        let d = s.drop_first();
        lemma_tick_conserves_messages(d, delta, threshold);
        let m0 = s[0].message;
        assert(s.map_values(msg_of) =~= seq![m0] + d.map_values(msg_of));
        lemma_multiset_commutative(seq![m0], d.map_values(msg_of));
        let rel_d = spec_released(d, delta, threshold);
        let kept_d = spec_kept(d, delta, threshold);
        if sat_add(s[0].delay, delta) >= threshold {
            assert(rel == seq![m0] + rel_d);
            assert(kept == kept_d);
            lemma_multiset_commutative(seq![m0], rel_d);
            assert(seq![m0].to_multiset().add(rel_d.to_multiset()).add(
                kept_d.map_values(msg_of).to_multiset(),
            ) =~= seq![m0].to_multiset().add(
                rel_d.to_multiset().add(kept_d.map_values(msg_of).to_multiset()),
            ));
        } else {
            let e0 = DelayedEnvelope { delay: sat_add(s[0].delay, delta), message: m0 };
            assert(rel == rel_d);
            assert(kept == seq![e0] + kept_d);
            assert(kept.map_values(msg_of) =~= seq![m0] + kept_d.map_values(msg_of));
            lemma_multiset_commutative(seq![m0], kept_d.map_values(msg_of));
            assert(rel_d.to_multiset().add(
                seq![m0].to_multiset().add(kept_d.map_values(msg_of).to_multiset()),
            ) =~= seq![m0].to_multiset().add(
                rel_d.to_multiset().add(kept_d.map_values(msg_of).to_multiset()),
            ));
        }
    }
}

/// One tick treats a held envelope exactly as the single-message law says:
/// released when its advanced accumulator reaches the threshold, otherwise
/// kept with that accumulator.
pub proof fn lemma_tick_envelope<T>(
    s: Seq<DelayedEnvelope<T>>,
    i: int,
    delta: u64,
    threshold: u64,
)
    requires
        0 <= i < s.len(),
    ensures
        sat_add(s[i].delay, delta) >= threshold ==> spec_released(s, delta, threshold).contains(
            s[i].message,
        ),
        sat_add(s[i].delay, delta) < threshold ==> spec_kept(s, delta, threshold).contains(
            DelayedEnvelope { delay: sat_add(s[i].delay, delta), message: s[i].message },
        ),
    decreases s.len(),
{
    if i == 0 {
        if sat_add(s[0].delay, delta) >= threshold {
            assert(spec_released(s, delta, threshold)[0] == s[0].message);
        } else {
            assert(spec_kept(s, delta, threshold)[0] == DelayedEnvelope {
                delay: sat_add(s[0].delay, delta),
                message: s[0].message,
            });
        }
    } else {
        lemma_tick_envelope(s.drop_first(), i - 1, delta, threshold);
        assert(s.drop_first()[i - 1] == s[i]);
        if sat_add(s[i].delay, delta) >= threshold {
            let rest = spec_released(s.drop_first(), delta, threshold);
            let j = choose|j: int| 0 <= j < rest.len() && rest[j] == s[i].message;
            if sat_add(s[0].delay, delta) >= threshold {
                assert(spec_released(s, delta, threshold)[j + 1] == s[i].message);
            }
        } else {
            let kept_rest = spec_kept(s.drop_first(), delta, threshold);
            let e = DelayedEnvelope { delay: sat_add(s[i].delay, delta), message: s[i].message };
            let j = choose|j: int| 0 <= j < kept_rest.len() && kept_rest[j] == e;
            if sat_add(s[0].delay, delta) < threshold {
                assert(spec_kept(s, delta, threshold)[j + 1] == e);
            }
        }
    }
}

} // verus!
