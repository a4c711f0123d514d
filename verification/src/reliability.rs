//! The reliability layer: "send reliably" becomes "send and keep resending
//! until acknowledged". Every reliable message gets a fresh sequence number
//! from a monotonic counter, its exact encoded frame is kept in a pending
//! table, and any entry left unacknowledged past the resend interval is
//! retransmitted unchanged. A matching confirmation removes the entry; a
//! duplicate confirmation is a no-op.

use vstd::prelude::*;

verus! {

/// How long a pending reliable message may sit unacknowledged before it is
/// sent again, in milliseconds.
pub const RESEND_INTERVAL_MS: u64 = 300;

/// One reliable message awaiting acknowledgment: the exact frame that was
/// sent, its destination, and when it was last transmitted (milliseconds on
/// the sender's clock).
pub struct ReliablePackage {
    pub seq_num: u64,
    pub bytes: Vec<u8>,
    pub dest: u64,
    pub last_send: u64,
}

/// The model of one pending entry.
pub struct PendingEntryView {
    pub bytes: Seq<u8>,
    pub dest: u64,
    pub last_send: u64,
}

impl View for ReliablePackage {
    type V = PendingEntryView;

    open spec fn view(&self) -> PendingEntryView {
        PendingEntryView { bytes: self.bytes@, dest: self.dest, last_send: self.last_send }
    }
}

/// Whether a pending entry is overdue for retransmission at `now`.
pub open spec fn spec_due(e: PendingEntryView, now: u64, interval: u64) -> bool {
    now > e.last_send + interval
}

/// The pending table: reliable messages sent but not yet confirmed, keyed by
/// their assigned sequence numbers, together with the monotonic counter that
/// assigns them. Modeled as a map from sequence number to pending entry.
pub struct PendingTable {
    next_seq: u64,
    pending: Vec<ReliablePackage>,
}

spec fn spec_pending_map(s: Seq<ReliablePackage>) -> Map<u64, PendingEntryView>
    decreases s.len(),
{
    if s.len() == 0 {
        Map::empty()
    } else {
        spec_pending_map(s.drop_last()).insert(s.last().seq_num, s.last()@)
    }
}

spec fn distinct_seq_nums(s: Seq<ReliablePackage>) -> bool {
    forall|i: int, j: int|
        0 <= i < j < s.len() ==> #[trigger] s[i].seq_num != #[trigger] s[j].seq_num
}

impl View for PendingTable {
    type V = Map<u64, PendingEntryView>;

    closed spec fn view(&self) -> Map<u64, PendingEntryView> {
        spec_pending_map(self.pending@)
    }
}

/// The map of a well-formed entry sequence contains exactly the entries'
/// sequence numbers, each bound to that entry.
proof fn lemma_pending_map_props(s: Seq<ReliablePackage>)
    requires
        distinct_seq_nums(s),
    ensures
        forall|k: u64|
            #[trigger] spec_pending_map(s).dom().contains(k) <==> exists|i: int|
                0 <= i < s.len() && #[trigger] s[i].seq_num == k,
        forall|i: int|
            0 <= i < s.len() ==> spec_pending_map(s)[#[trigger] s[i].seq_num] == s[i]@,
    decreases s.len(),
{
    if s.len() > 0 {
        let d = s.drop_last();
        assert(distinct_seq_nums(d)) by {
            assert forall|i: int, j: int|
                0 <= i < j < d.len() implies #[trigger] d[i].seq_num != #[trigger] d[j].seq_num by {
                assert(d[i] == s[i] && d[j] == s[j]);
            }
        }
        lemma_pending_map_props(d);
        assert forall|i: int| 0 <= i < s.len() implies spec_pending_map(s)[#[trigger] s[i].seq_num]
            == s[i]@ by {
            if i < s.len() - 1 {
                assert(s[i] == d[i]);
                assert(s[i].seq_num != s[s.len() - 1].seq_num);
            }
        }
        assert forall|k: u64| #[trigger] spec_pending_map(s).dom().contains(k) implies exists|
            i: int,
        | 0 <= i < s.len() && #[trigger] s[i].seq_num == k by {
            if k != s.last().seq_num {
                assert(spec_pending_map(s) == spec_pending_map(d).insert(
                    s.last().seq_num,
                    s.last()@,
                ));
                assert(spec_pending_map(d).dom().contains(k));
                let i = choose|i: int| 0 <= i < d.len() && #[trigger] d[i].seq_num == k;
                assert(d[i] == s[i]);
                assert(s[i].seq_num == k);
            } else {
                assert(s[s.len() - 1].seq_num == k);
            }
        }
        assert forall|k: u64| (exists|i: int| 0 <= i < s.len() && #[trigger] s[i].seq_num == k)
            implies #[trigger] spec_pending_map(s).dom().contains(k) by {
            let i = choose|i: int| 0 <= i < s.len() && #[trigger] s[i].seq_num == k;
            if i < s.len() - 1 {
                assert(d[i].seq_num == k);
            }
        }
    }
}

impl PendingTable {
    /// The sequence number the next reliable send will be assigned.
    pub closed spec fn next_sequence(&self) -> u64 {
        self.next_seq
    }

    /// Internal consistency: sequence numbers are pairwise distinct, positive,
    /// and below the counter.
    pub closed spec fn wf(&self) -> bool {
        &&& self.next_seq >= 1
        &&& distinct_seq_nums(self.pending@)
        &&& forall|i: int|
            0 <= i < self.pending@.len() ==> 0 < #[trigger] self.pending@[i].seq_num
                < self.next_seq
    }

    /// An empty table; the first assigned sequence number is 1, so 0 always
    /// means "not reliable".
    pub fn new() -> (r: Self)
        ensures
            r.wf(),
            r@ == Map::<u64, PendingEntryView>::empty(),
            r.next_sequence() == 1,
    {
        PendingTable { next_seq: 1, pending: Vec::new() }
    }

    /// Stores a freshly sent reliable frame under the next sequence number,
    /// which is returned and was never in use before.
    pub fn insert(&mut self, bytes: Vec<u8>, dest: u64, now: u64) -> (s: u64)
        requires
            old(self).wf(),
            old(self).next_sequence() < u64::MAX,
        ensures
            final(self).wf(),
            s == old(self).next_sequence(),
            s > 0,
            !old(self)@.dom().contains(s),
            final(self)@ == old(self)@.insert(
                s,
                PendingEntryView { bytes: bytes@, dest, last_send: now },
            ),
            final(self).next_sequence() == s + 1,
    {
        let s = self.next_seq;
        let ghost prev = self.pending@;
        self.pending.push(ReliablePackage { seq_num: s, bytes, dest, last_send: now });
        self.next_seq = s + 1;
        proof {
            assert(self.pending@.drop_last() =~= prev);
            lemma_pending_map_props(prev);
            assert forall|i: int, j: int|
                0 <= i < j < self.pending@.len() implies #[trigger] self.pending@[i].seq_num
                != #[trigger] self.pending@[j].seq_num by {
                if j < self.pending@.len() - 1 {
                    assert(prev[i].seq_num != prev[j].seq_num);
                }
            }
        }
        s
    }

    /// The sequence number the next reliable send will be assigned.
    pub fn peek_next_sequence(&self) -> (r: u64)
        ensures
            r == self.next_sequence(),
    {
        self.next_seq
    }

    /// Whether a sequence number is still awaiting acknowledgment.
    pub fn contains(&self, seq_num: u64) -> (r: bool)
        requires
            self.wf(),
        ensures
            r == self@.dom().contains(seq_num),
    {
        proof {
            lemma_pending_map_props(self.pending@);
        }
        let mut i: usize = 0;
        while i < self.pending.len()
            invariant
                self.wf(),
                i <= self.pending@.len(),
                forall|j: int| 0 <= j < i ==> #[trigger] self.pending@[j].seq_num != seq_num,
                forall|k: u64|
                    #[trigger] self@.dom().contains(k) <==> exists|j: int|
                        0 <= j < self.pending@.len() && #[trigger] self.pending@[j].seq_num == k,
            decreases self.pending@.len() - i,
        {
            if self.pending[i].seq_num == seq_num {
                return true;
            }
            i += 1;
        }
        false
    }

    /// The destination key a pending sequence number was stored with, if
    /// any.
    pub fn dest_of(&self, seq_num: u64) -> (r: Option<u64>)
        requires
            self.wf(),
        ensures
            r matches Some(d) ==> self@.dom().contains(seq_num) && self@[seq_num].dest == d,
            r is None ==> !self@.dom().contains(seq_num),
    {
        proof {
            lemma_pending_map_props(self.pending@);
        }
        let mut i: usize = 0;
        while i < self.pending.len()
            invariant
                self.wf(),
                i <= self.pending@.len(),
                forall|j: int| 0 <= j < i ==> #[trigger] self.pending@[j].seq_num != seq_num,
                forall|k: u64|
                    #[trigger] self@.dom().contains(k) <==> exists|j: int|
                        0 <= j < self.pending@.len() && #[trigger] self.pending@[j].seq_num == k,
                forall|j: int|
                    0 <= j < self.pending@.len() ==> self@[#[trigger] self.pending@[j].seq_num]
                        == self.pending@[j]@,
            decreases self.pending@.len() - i,
        {
            if self.pending[i].seq_num == seq_num {
                return Some(self.pending[i].dest);
            }
            i += 1;
        }
        None
    }

    /// The exact frame stored for a pending sequence number, if any.
    pub fn bytes_of(&self, seq_num: u64) -> (r: Option<&Vec<u8>>)
        requires
            self.wf(),
        ensures
            r matches Some(b) ==> self@.dom().contains(seq_num) && self@[seq_num].bytes == b@,
            r is None ==> !self@.dom().contains(seq_num),
    {
        proof {
            lemma_pending_map_props(self.pending@);
        }
        let mut i: usize = 0;
        while i < self.pending.len()
            invariant
                self.wf(),
                i <= self.pending@.len(),
                forall|j: int| 0 <= j < i ==> #[trigger] self.pending@[j].seq_num != seq_num,
                forall|k: u64|
                    #[trigger] self@.dom().contains(k) <==> exists|j: int|
                        0 <= j < self.pending@.len() && #[trigger] self.pending@[j].seq_num == k,
                forall|j: int|
                    0 <= j < self.pending@.len() ==> self@[#[trigger] self.pending@[j].seq_num]
                        == self.pending@[j]@,
            decreases self.pending@.len() - i,
        {
            if self.pending[i].seq_num == seq_num {
                return Some(&self.pending[i].bytes);
            }
            i += 1;
        }
        None
    }
}


proof fn lemma_distinct_drop_last(s: Seq<ReliablePackage>)
    requires
        distinct_seq_nums(s),
        s.len() > 0,
    ensures
        distinct_seq_nums(s.drop_last()),
{
    let d = s.drop_last();
    assert forall|i: int, j: int|
        0 <= i < j < d.len() implies #[trigger] d[i].seq_num != #[trigger] d[j].seq_num by {
        assert(d[i] == s[i] && d[j] == s[j]);
    }
}

/// Removing one entry removes exactly its key from the map.
proof fn lemma_pending_map_remove(s: Seq<ReliablePackage>, i: int)
    requires
        distinct_seq_nums(s),
        0 <= i < s.len(),
    ensures
        distinct_seq_nums(s.remove(i)),
        spec_pending_map(s.remove(i)) == spec_pending_map(s).remove(s[i].seq_num),
    decreases s.len(),
{
    s.remove_ensures(i);
    let r = s.remove(i);
    let k = s[i].seq_num;
    assert forall|a: int, b: int|
        0 <= a < b < r.len() implies #[trigger] r[a].seq_num != #[trigger] r[b].seq_num by {
        let a0: int = if a < i {
            a
        } else {
            a + 1
        };
        let b0: int = if b < i {
            b
        } else {
            b + 1
        };
        assert(r[a] == s[a0] && r[b] == s[b0]);
    }
    lemma_distinct_drop_last(s);
    if i == s.len() - 1 {
        assert(r =~= s.drop_last());
        lemma_pending_map_props(s.drop_last());
        assert(!spec_pending_map(s.drop_last()).dom().contains(k));
        assert(spec_pending_map(s).remove(k) =~= spec_pending_map(s.drop_last()));
    } else {
        assert(r.drop_last() =~= s.drop_last().remove(i));
        assert(r.last() == s.last());
        lemma_pending_map_remove(s.drop_last(), i);
        let lastk = s.last().seq_num;
        let lastv = s.last()@;
        assert(s.drop_last()[i] == s[i]);
        assert(k != lastk);
        assert(spec_pending_map(s.drop_last()).remove(k).insert(lastk, lastv)
            =~= spec_pending_map(s.drop_last()).insert(lastk, lastv).remove(k));
    }
}

/// The sequence numbers among a prefix of entries that are due at `now`, in
/// table order.
spec fn spec_due_seqs(s: Seq<ReliablePackage>, now: u64, interval: u64) -> Seq<u64>
    decreases s.len(),
{
    if s.len() == 0 {
        Seq::empty()
    } else {
        spec_due_seqs(s.drop_last(), now, interval) + (if spec_due(s.last()@, now, interval) {
            seq![s.last().seq_num]
        } else {
            Seq::empty()
        })
    }
}

proof fn lemma_due_seqs_props(s: Seq<ReliablePackage>, now: u64, interval: u64)
    requires
        distinct_seq_nums(s),
    ensures
        forall|k: u64|
            #[trigger] spec_due_seqs(s, now, interval).contains(k) <==> exists|i: int|
                0 <= i < s.len() && #[trigger] s[i].seq_num == k && spec_due(s[i]@, now, interval),
        forall|a: int, b: int|
            0 <= a < b < spec_due_seqs(s, now, interval).len() ==> spec_due_seqs(s, now, interval)[a]
                != spec_due_seqs(s, now, interval)[b],
    decreases s.len(),
{
    if s.len() > 0 {
        let d = s.drop_last();
        lemma_distinct_drop_last(s);
        lemma_due_seqs_props(d, now, interval);
        let ds = spec_due_seqs(s, now, interval);
        let dd = spec_due_seqs(d, now, interval);
        assert forall|k: u64| #[trigger] ds.contains(k) implies exists|i: int|
            0 <= i < s.len() && #[trigger] s[i].seq_num == k && spec_due(s[i]@, now, interval) by {
            let a = choose|a: int| 0 <= a < ds.len() && ds[a] == k;
            if a < dd.len() {
                assert(dd[a] == k);
                assert(dd.contains(k));
                let i = choose|i: int|
                    0 <= i < d.len() && #[trigger] d[i].seq_num == k && spec_due(
                        d[i]@,
                        now,
                        interval,
                    );
                assert(s[i] == d[i]);
                assert(s[i].seq_num == k && spec_due(s[i]@, now, interval));
            } else {
                assert(spec_due(s.last()@, now, interval) && s.last().seq_num == k);
                assert(s[s.len() - 1].seq_num == k);
            }
        }
        assert forall|k: u64| (exists|i: int|
            0 <= i < s.len() && #[trigger] s[i].seq_num == k && spec_due(
                s[i]@,
                now,
                interval,
            )) implies #[trigger] ds.contains(k) by {
            let i = choose|i: int|
                0 <= i < s.len() && #[trigger] s[i].seq_num == k && spec_due(s[i]@, now, interval);
            if i < s.len() - 1 {
                assert(d[i] == s[i]);
                assert(dd.contains(k));
                let a = choose|a: int| 0 <= a < dd.len() && dd[a] == k;
                assert(ds[a] == k);
            } else {
                assert(ds[ds.len() - 1] == k);
            }
        }
        assert forall|a: int, b: int| 0 <= a < b < ds.len() implies ds[a] != ds[b] by {
            if b < dd.len() {
                assert(ds[a] == dd[a] && ds[b] == dd[b]);
            } else {
                // ds[b] is the last entry's number; ds[a] names an earlier entry
                assert(ds[b] == s.last().seq_num);
                assert(dd[a] == ds[a]);
                assert(dd.contains(dd[a]));
                let i = choose|i: int|
                    0 <= i < d.len() && #[trigger] d[i].seq_num == dd[a] && spec_due(
                        d[i]@,
                        now,
                        interval,
                    );
                assert(s[i] == d[i]);
                assert(s[i].seq_num != s[s.len() - 1].seq_num);
            }
        }
    }
}


impl PendingTable {
    /// Processes a confirmation: the matching entry, if any, is removed and
    /// will never be retransmitted; a duplicate confirmation changes nothing.
    pub fn confirm(&mut self, seq_num: u64)
        requires
            old(self).wf(),
        ensures
            final(self).wf(),
            final(self).next_sequence() == old(self).next_sequence(),
            final(self)@ == old(self)@.remove(seq_num),
    {
        let ghost prev = self.pending@;
        let mut i: usize = 0;
        while i < self.pending.len()
            invariant
                old(self).wf(),
                self == old(self),
                i <= prev.len(),
                prev == self.pending@,
                forall|j: int| 0 <= j < i ==> #[trigger] prev[j].seq_num != seq_num,
            decreases prev.len() - i,
        {
            if self.pending[i].seq_num == seq_num {
                let _removed = self.pending.remove(i);
                proof {
                    lemma_pending_map_remove(prev, i as int);
                    assert forall|j: int|
                        0 <= j < self.pending@.len() implies 0 < #[trigger] self.pending@[
                        j].seq_num < self.next_seq by {
                        let j0: int = if j < i {
                            j
                        } else {
                            j + 1
                        };
                        prev.remove_ensures(i as int);
                        assert(self.pending@[j] == prev[j0]);
                    }
                }
                return ;
            }
            i += 1;
        }
        proof {
            lemma_pending_map_props(prev);
            assert(!old(self)@.dom().contains(seq_num));
            assert(old(self)@.remove(seq_num) =~= old(self)@);
        }
    }

    /// Advances the resend clock: every entry unacknowledged for longer than
    /// `interval` is marked retransmitted now, and exactly those entries'
    /// sequence numbers are returned (each once, in table order). The stored
    /// frames and destinations are never touched.
    pub fn due_resends(&mut self, now: u64, interval: u64) -> (r: Vec<u64>)
        requires
            old(self).wf(),
        ensures
            final(self).wf(),
            final(self).next_sequence() == old(self).next_sequence(),
            final(self)@ == spec_tick_map(old(self)@, now, interval),
            forall|k: u64|
                #[trigger] r@.contains(k) <==> old(self)@.dom().contains(k) && spec_due(
                    old(self)@[k],
                    now,
                    interval,
                ),
            forall|a: int, b: int| 0 <= a < b < r@.len() ==> r@[a] != r@[b],
    {
        let ghost prev = self.pending@;
        let mut out: Vec<u64> = Vec::new();
        let mut i: usize = 0;
        while i < self.pending.len()
            invariant
                distinct_seq_nums(prev),
                self.next_seq == old(self).next_seq,
                old(self).wf(),
                i <= prev.len(),
                self.pending@.len() == prev.len(),
                forall|j: int|
                    0 <= j < prev.len() ==> {
                        &&& (#[trigger] self.pending@[j]).seq_num == prev[j].seq_num
                        &&& self.pending@[j].bytes == prev[j].bytes
                        &&& self.pending@[j].dest == prev[j].dest
                    },
                forall|j: int|
                    i <= j < prev.len() ==> (#[trigger] self.pending@[j]).last_send
                        == prev[j].last_send,
                forall|j: int|
                    0 <= j < i ==> (#[trigger] self.pending@[j]).last_send == (if spec_due(
                        prev[j]@,
                        now,
                        interval,
                    ) {
                        now
                    } else {
                        prev[j].last_send
                    }),
                out@ == spec_due_seqs(prev.subrange(0, i as int), now, interval),
            decreases prev.len() - i,
        {
            let last_send = self.pending[i].last_send;
            let ghost before = self.pending@;
            let ghost out_before = out@;
            if now > last_send && now - last_send > interval {
                self.pending[i].last_send = now;
                out.push(self.pending[i].seq_num);
            }
            proof {
                assert(prev.subrange(0, i as int + 1).drop_last() =~= prev.subrange(0, i as int));
                assert(prev.subrange(0, i as int + 1).last() == prev[i as int]);
                if spec_due(prev[i as int]@, now, interval) {
                    assert(out@ =~= out_before + seq![prev[i as int].seq_num]);
                } else {
                    assert(out@ =~= out_before + Seq::<u64>::empty());
                }
            }
            i += 1;
        }
        proof {
            assert(prev.subrange(0, prev.len() as int) =~= prev);
            let cur = self.pending@;
            assert(distinct_seq_nums(cur)) by {
                assert forall|a: int, b: int|
                    0 <= a < b < cur.len() implies #[trigger] cur[a].seq_num
                    != #[trigger] cur[b].seq_num by {
                    assert(cur[a].seq_num == prev[a].seq_num && cur[b].seq_num == prev[b].seq_num);
                }
            }
            lemma_pending_map_props(prev);
            lemma_pending_map_props(cur);
            lemma_due_seqs_props(prev, now, interval);
            assert forall|k: u64|
                #[trigger] spec_pending_map(cur).dom().contains(k) <==> spec_pending_map(
                prev,
            ).dom().contains(k) by {
                if spec_pending_map(cur).dom().contains(k) {
                    let j = choose|j: int| 0 <= j < cur.len() && #[trigger] cur[j].seq_num == k;
                    assert(prev[j].seq_num == k);
                }
                if spec_pending_map(prev).dom().contains(k) {
                    let j = choose|j: int| 0 <= j < prev.len() && #[trigger] prev[j].seq_num == k;
                    assert(cur[j].seq_num == k);
                }
            }
            assert(spec_pending_map(cur) =~= spec_tick_map(spec_pending_map(prev), now, interval))
                by {
                assert forall|k: u64|
                    spec_pending_map(cur).dom().contains(k) implies spec_pending_map(cur)[k]
                    == spec_tick_map(spec_pending_map(prev), now, interval)[k] by {
                    let j = choose|j: int| 0 <= j < cur.len() && #[trigger] cur[j].seq_num == k;
                    assert(spec_pending_map(cur)[k] == cur[j]@);
                    assert(prev[j].seq_num == k);
                    assert(spec_pending_map(prev)[k] == prev[j]@);
                }
            }
        }
        out
    }
}

// ---------------------------------------------------------------------------
// The reliability law: what any run of table operations does to one entry.
// ---------------------------------------------------------------------------

/// One step of the pending table as the I/O loop drives it: a fresh reliable
/// send, a resend pass of the clock, or a received confirmation.
pub enum PendingEvent {
    Send { seq_num: u64, entry: PendingEntryView },
    Tick { now: u64 },
    Confirm { seq_num: u64 },
}

/// What a resend pass leaves in the table: every entry keeps its frame and
/// destination; exactly the overdue ones have their send time refreshed.
pub open spec fn spec_tick_map(
    m: Map<u64, PendingEntryView>,
    now: u64,
    interval: u64,
) -> Map<u64, PendingEntryView> {
    Map::new(
        |k: u64| m.dom().contains(k),
        |k: u64|
            if spec_due(m[k], now, interval) {
                PendingEntryView { bytes: m[k].bytes, dest: m[k].dest, last_send: now }
            } else {
                m[k]
            },
    )
}

/// The table after one event, as the operations' contracts describe it.
pub open spec fn spec_step(
    m: Map<u64, PendingEntryView>,
    e: PendingEvent,
    interval: u64,
) -> Map<u64, PendingEntryView> {
    match e {
        PendingEvent::Send { seq_num, entry } => m.insert(seq_num, entry),
        PendingEvent::Tick { now } => spec_tick_map(m, now, interval),
        PendingEvent::Confirm { seq_num } => m.remove(seq_num),
    }
}

/// The table after a whole run of events.
pub open spec fn spec_run(
    m: Map<u64, PendingEntryView>,
    es: Seq<PendingEvent>,
    interval: u64,
) -> Map<u64, PendingEntryView>
    decreases es.len(),
{
    if es.len() == 0 {
        m
    } else {
        spec_run(spec_step(m, es[0], interval), es.drop_first(), interval)
    }
}

/// Whether an event is a confirmation of the given sequence number.
pub open spec fn confirms(e: PendingEvent, s: u64) -> bool {
    e == (PendingEvent::Confirm { seq_num: s })
}

/// Whether an event stores a new entry under the given sequence number; the
/// counter's freshness guarantee means this never happens twice for one
/// number.
pub open spec fn sends(e: PendingEvent, s: u64) -> bool {
    exists|entry: PendingEntryView| e == (PendingEvent::Send { seq_num: s, entry })
}

/// A retransmission refreshes the entry's send time, so the entry cannot
/// be due again until a full resend interval has passed: consecutive
/// retransmissions of one message are at least the interval apart.
pub proof fn lemma_resend_spacing(
    m: Map<u64, PendingEntryView>,
    s: u64,
    t1: u64,
    t2: u64,
    interval: u64,
)
    requires
        m.dom().contains(s),
        spec_due(m[s], t1, interval),
        t2 <= t1 + interval,
    ensures
        !spec_due(spec_tick_map(m, t1, interval)[s], t2, interval),
{
}

/// A pending reliable message survives every run of resend passes, other
/// sends and other confirmations, with its frame and destination unchanged
/// byte for byte, until its own confirmation arrives.
pub proof fn lemma_reliable_send_persists(
    m0: Map<u64, PendingEntryView>,
    s: u64,
    es: Seq<PendingEvent>,
    interval: u64,
)
    requires
        m0.dom().contains(s),
        forall|i: int| 0 <= i < es.len() ==> !confirms(#[trigger] es[i], s),
        forall|i: int| 0 <= i < es.len() ==> !sends(#[trigger] es[i], s),
    ensures
        spec_run(m0, es, interval).dom().contains(s),
        spec_run(m0, es, interval)[s].bytes == m0[s].bytes,
        spec_run(m0, es, interval)[s].dest == m0[s].dest,
    decreases es.len(),
{
    if es.len() > 0 {
        let m1 = spec_step(m0, es[0], interval);
        assert(m1.dom().contains(s) && m1[s].bytes == m0[s].bytes && m1[s].dest == m0[s].dest)
            by {
            match es[0] {
                PendingEvent::Send { seq_num, entry } => {
                    assert(!sends(es[0], s));
                    assert(seq_num != s) by {
                        if seq_num == s {
                            assert(es[0] == (PendingEvent::Send { seq_num: s, entry }));
                        }
                    }
                },
                PendingEvent::Tick { now } => {},
                PendingEvent::Confirm { seq_num } => {
                    assert(seq_num != s);
                },
            }
        }
        assert forall|i: int| 0 <= i < es.drop_first().len() implies !confirms(
            #[trigger] es.drop_first()[i],
            s,
        ) && !sends(es.drop_first()[i], s) by {
            assert(es.drop_first()[i] == es[i + 1]);
        }
        lemma_reliable_send_persists(m1, s, es.drop_first(), interval);
    }
}

/// Once a sequence number is absent and never sent again, it stays absent at
/// every later point: no further retransmission of it can occur.
pub proof fn lemma_confirmed_never_resent(
    m0: Map<u64, PendingEntryView>,
    s: u64,
    es: Seq<PendingEvent>,
    interval: u64,
)
    requires
        !m0.dom().contains(s),
        forall|i: int| 0 <= i < es.len() ==> !sends(#[trigger] es[i], s),
    ensures
        forall|j: int|
            0 <= j <= es.len() ==> !spec_run(m0, #[trigger] es.take(j), interval).dom().contains(
                s,
            ),
    decreases es.len(),
{
    assert(es.take(0) =~= Seq::<PendingEvent>::empty());
    if es.len() > 0 {
        let m1 = spec_step(m0, es[0], interval);
        assert(!m1.dom().contains(s)) by {
            match es[0] {
                PendingEvent::Send { seq_num, entry } => {
                    assert(!sends(es[0], s));
                    if seq_num == s {
                        assert(es[0] == (PendingEvent::Send { seq_num: s, entry }));
                    }
                },
                PendingEvent::Tick { now } => {},
                PendingEvent::Confirm { seq_num } => {},
            }
        }
        assert forall|i: int| 0 <= i < es.drop_first().len() implies !sends(
            #[trigger] es.drop_first()[i],
            s,
        ) by {
            assert(es.drop_first()[i] == es[i + 1]);
        }
        lemma_confirmed_never_resent(m1, s, es.drop_first(), interval);
        assert forall|j: int| 0 <= j <= es.len() implies !spec_run(
            m0,
            #[trigger] es.take(j),
            interval,
        ).dom().contains(s) by {
            if j > 0 {
                let t = es.take(j);
                assert(t[0] == es[0]);
                assert(t.drop_first() =~= es.drop_first().take(j - 1));
                assert(spec_run(m0, t, interval) == spec_run(m1, es.drop_first().take(j - 1), interval));
            }
        }
    }
}

} // verus!
