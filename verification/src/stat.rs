//! What a run of the bridge records: one entry per frame transition and one
//! sample of the holder's depth per change, each with the time in
//! microseconds since the collection began; and the three scatters that are
//! drawn from them.

use crate::model::Frame;
use std::collections::HashMap;
use std::time::{Duration, Instant};
use vstd::prelude::*;

verus! {

/// `std::time::Instant`, carried through as an opaque value.
#[verifier::external_type_specification]
#[verifier::external_body]
pub struct ExInstant(std::time::Instant);

/// `Instant::now` reads the monotonic clock; nothing is claimed of the
/// reading.
pub assume_specification[ std::time::Instant::now ]() -> (t: Instant);

/// `Instant::duration_since` gives the time from `earlier` to `this`, and
/// zero where `earlier` is the later one; nothing is claimed of the value.
pub assume_specification[ std::time::Instant::duration_since ](
    this: &Instant,
    earlier: Instant,
) -> (d: Duration);

/// `Duration::as_micros` gives the whole microseconds of a duration;
/// nothing is claimed of the value.
pub assume_specification[ std::time::Duration::as_micros ](d: &Duration) -> (us: u128);

/// Microseconds that have passed since `init`, by the monotonic clock.
pub fn elapsed_micros(init: &Instant) -> (us: u128) {
    let now = Instant::now();
    let d = now.duration_since(*init);
    d.as_micros()
}

/// One transition of a frame in the bridge.
#[derive(Debug, Copy, Clone, PartialEq, Eq)]
pub enum BridgeStatRecord {
    Broadcast(Frame),
    Dispatch(Frame),
    Discard(Frame),
}

/// The three kinds of transition.
#[derive(Debug, Copy, Clone, PartialEq, Eq, Structural)]
pub enum Activity {
    Broadcast,
    Dispatch,
    Discard,
}

impl BridgeStatRecord {
    /// The frame that the record is about.
    pub open spec fn spec_frame(&self) -> Frame {
        match *self {
            BridgeStatRecord::Broadcast(frame) => frame,
            BridgeStatRecord::Dispatch(frame) => frame,
            BridgeStatRecord::Discard(frame) => frame,
        }
    }

    /// The kind of transition that the record is about.
    pub open spec fn spec_activity(&self) -> Activity {
        match *self {
            BridgeStatRecord::Broadcast(_) => Activity::Broadcast,
            BridgeStatRecord::Dispatch(_) => Activity::Dispatch,
            BridgeStatRecord::Discard(_) => Activity::Discard,
        }
    }

    /// The frame that the record is about.
    pub fn frame(&self) -> (f: &Frame)
        ensures
            *f == self.spec_frame(),
    {
        match self {
            BridgeStatRecord::Broadcast(frame) => frame,
            BridgeStatRecord::Dispatch(frame) => frame,
            BridgeStatRecord::Discard(frame) => frame,
        }
    }

    /// The kind of transition that the record is about.
    #[verifier::when_used_as_spec(spec_activity)]
    pub fn activity(&self) -> (a: Activity)
        ensures
            a == self.spec_activity(),
    {
        match self {
            BridgeStatRecord::Broadcast(_) => Activity::Broadcast,
            BridgeStatRecord::Dispatch(_) => Activity::Dispatch,
            BridgeStatRecord::Discard(_) => Activity::Discard,
        }
    }
}

/// Times that never step back.
pub open spec fn non_decreasing(times: Seq<u128>) -> bool {
    forall|i: int, j: int| 0 <= i <= j < times.len() ==> times[i] <= times[j]
}

/// The time that is filed for a reading `at` after `times`: the reading
/// itself, or the last time filed where the reading lies before it.
pub open spec fn stamp_after(times: Seq<u128>, at: u128) -> u128 {
    if times.len() > 0 && at < times.last() {
        times.last()
    } else {
        at
    }
}

/// The times of the records of one kind, in the order of the records, as
/// signed 64-bit microseconds.
pub open spec fn activity_times(
    records: Seq<BridgeStatRecord>,
    times: Seq<u128>,
    kind: Activity,
) -> Seq<i64>
    recommends
        records.len() == times.len(),
    decreases records.len(),
{
    if records.len() == 0 {
        Seq::empty()
    } else {
        let before = activity_times(records.drop_last(), times.drop_last(), kind);
        if records.last().spec_activity() == kind {
            before.push(times.last() as i64)
        } else {
            before
        }
    }
}

/// The broadcasts that no dispatch or discard has closed yet, after the
/// records given: the key of each such frame with the time of its latest
/// broadcast. A later broadcast of an equal frame takes the place of the
/// earlier one.
pub open spec fn open_broadcasts(records: Seq<BridgeStatRecord>, times: Seq<u128>) -> Map<
    u128,
    u128,
>
    recommends
        records.len() == times.len(),
    decreases records.len(),
{
    if records.len() == 0 {
        Map::empty()
    } else {
        let before = open_broadcasts(records.drop_last(), times.drop_last());
        let k = records.last().spec_frame().spec_key();
        match records.last() {
            BridgeStatRecord::Broadcast(_) => before.insert(k, times.last()),
            _ => before.remove(k),
        }
    }
}

/// One pair for each dispatch or discard of a frame with an open broadcast,
/// in the order of the records: the time of that broadcast, and the time
/// from it to the dispatch or discard.
pub open spec fn latency_pairs(records: Seq<BridgeStatRecord>, times: Seq<u128>) -> Seq<
    (i64, i64),
>
    recommends
        records.len() == times.len(),
    decreases records.len(),
{
    if records.len() == 0 {
        Seq::empty()
    } else {
        let before = latency_pairs(records.drop_last(), times.drop_last());
        let open = open_broadcasts(records.drop_last(), times.drop_last());
        let k = records.last().spec_frame().spec_key();
        match records.last() {
            BridgeStatRecord::Broadcast(_) => before,
            _ => if open.contains_key(k) {
                before.push((open[k] as i64, (times.last() - open[k]) as i64))
            } else {
                before
            },
        }
    }
}

/// The three activity scatters.
pub struct ActivityScatter {
    pub broadcast: Vec<i64>,
    pub dispatch: Vec<i64>,
    pub discard: Vec<i64>,
}

/// Record of bridge statistics.
pub struct BridgeStat {
    pub records: Vec<BridgeStatRecord>,
    pub times: Vec<u128>,
    pub init: Instant,
}

impl BridgeStat {
    /// One time for each record, and times that never step back.
    pub open spec fn wf(&self) -> bool {
        &&& self.records@.len() == self.times@.len()
        &&& non_decreasing(self.times@)
    }

    /// An empty record whose clock starts now.
    pub fn new() -> (s: Self)
        ensures
            s.records@.len() == 0,
            s.times@.len() == 0,
            s.wf(),
    {
        BridgeStat { records: Vec::new(), times: Vec::new(), init: Instant::now() }
    }

    /// Whether there is one time for each record and no time steps back.
    pub fn is_sound(&self) -> (b: bool)
        ensures
            b == self.wf(),
    {
        let n: usize = self.times.len();
        if self.records.len() != n {
            return false;
        }
        let mut i: usize = 1;
        while i < n
            invariant
                1 <= i,
                n == self.times@.len(),
                forall|a: int, b: int| 0 <= a <= b < i && b < n ==> self.times@[a] <= self.times@[b],
            decreases n - i,
        {
            if self.times[i - 1] > self.times[i] {
                return false;
            }
            i += 1;
        }
        true
    }

    /// File a record with the clock reading `at`.
    pub fn record_at(&mut self, rec: BridgeStatRecord, at: u128)
        requires
            old(self).wf(),
        ensures
            final(self).records@ == old(self).records@.push(rec),
            final(self).times@ == old(self).times@.push(stamp_after(old(self).times@, at)),
            final(self).init == old(self).init,
            final(self).wf(),
    {
        let n: usize = self.times.len();
        let t: u128 = if n > 0 && at < self.times[n - 1] {
            self.times[n - 1]
        } else {
            at
        };
        self.records.push(rec);
        self.times.push(t);
    }

    /// File a record with the time that has passed since the clock started.
    fn record_now(&mut self, rec: BridgeStatRecord)
        requires
            old(self).wf(),
        ensures
            final(self).records@ == old(self).records@.push(rec),
            final(self).times@.len() == old(self).times@.len() + 1,
            final(self).times@.drop_last() == old(self).times@,
            final(self).init == old(self).init,
            final(self).wf(),
    {
        let at: u128 = elapsed_micros(&self.init);
        self.record_at(rec, at);
        assert(self.times@.drop_last() =~= old(self).times@);
    }

    /// Record that a frame was held for a probe.
    pub fn broadcast(&mut self, frame: Frame)
        requires
            old(self).wf(),
        ensures
            final(self).records@ == old(self).records@.push(BridgeStatRecord::Broadcast(frame)),
            final(self).times@.len() == old(self).times@.len() + 1,
            final(self).times@.drop_last() == old(self).times@,
            final(self).init == old(self).init,
            final(self).wf(),
    {
        self.record_now(BridgeStatRecord::Broadcast(frame));
    }

    /// Record that a frame was dispatched.
    pub fn dispatch(&mut self, frame: Frame)
        requires
            old(self).wf(),
        ensures
            final(self).records@ == old(self).records@.push(BridgeStatRecord::Dispatch(frame)),
            final(self).times@.len() == old(self).times@.len() + 1,
            final(self).times@.drop_last() == old(self).times@,
            final(self).init == old(self).init,
            final(self).wf(),
    {
        self.record_now(BridgeStatRecord::Dispatch(frame));
    }

    /// Record that a frame was discarded.
    pub fn discard(&mut self, frame: Frame)
        requires
            old(self).wf(),
        ensures
            final(self).records@ == old(self).records@.push(BridgeStatRecord::Discard(frame)),
            final(self).times@.len() == old(self).times@.len() + 1,
            final(self).times@.drop_last() == old(self).times@,
            final(self).init == old(self).init,
            final(self).wf(),
    {
        self.record_now(BridgeStatRecord::Discard(frame));
    }

    /// The number of records.
    pub fn len(&self) -> (n: usize)
        ensures
            n == self.records@.len(),
    {
        self.records.len()
    }

    /// Export scatter of different types of activities.
    pub fn export_activity_scatter(&self) -> (out: ActivityScatter)
        requires
            self.wf(),
        ensures
            out.broadcast@ == activity_times(self.records@, self.times@, Activity::Broadcast),
            out.dispatch@ == activity_times(self.records@, self.times@, Activity::Dispatch),
            out.discard@ == activity_times(self.records@, self.times@, Activity::Discard),
    {
        let mut sc_broadcast: Vec<i64> = Vec::new();
        let mut sc_dispatch: Vec<i64> = Vec::new();
        let mut sc_discard: Vec<i64> = Vec::new();
        let n: usize = self.records.len();
        let mut i: usize = 0;
        while i < n
            invariant
                i <= n,
                n == self.records@.len(),
                n == self.times@.len(),
                sc_broadcast@ == activity_times(
                    self.records@.take(i as int),
                    self.times@.take(i as int),
                    Activity::Broadcast,
                ),
                sc_dispatch@ == activity_times(
                    self.records@.take(i as int),
                    self.times@.take(i as int),
                    Activity::Dispatch,
                ),
                sc_discard@ == activity_times(
                    self.records@.take(i as int),
                    self.times@.take(i as int),
                    Activity::Discard,
                ),
            decreases n - i,
        {
            proof {
                assert(self.records@.take(i + 1).drop_last() =~= self.records@.take(i as int));
                assert(self.times@.take(i + 1).drop_last() =~= self.times@.take(i as int));
            }
            let y: i64 = #[verifier::truncate]
            (self.times[i] as i64);
            match self.records[i] {
                BridgeStatRecord::Broadcast(_) => sc_broadcast.push(y),
                BridgeStatRecord::Dispatch(_) => sc_dispatch.push(y),
                BridgeStatRecord::Discard(_) => sc_discard.push(y),
            }
            i += 1;
        }
        proof {
            assert(self.records@.take(n as int) =~= self.records@);
            assert(self.times@.take(n as int) =~= self.times@);
        }
        ActivityScatter { broadcast: sc_broadcast, dispatch: sc_dispatch, discard: sc_discard }
    }

    /// Export scatter of latencies of frames broadcast.
    pub fn export_latency_scatter(&self) -> (out: Vec<(i64, i64)>)
        requires
            self.wf(),
        ensures
            out@ == latency_pairs(self.records@, self.times@),
    {
        broadcast use vstd::std_specs::hash::group_hash_axioms;

        let mut hold_map: HashMap<u128, u128> = HashMap::new();
        let mut latencies: Vec<(i64, i64)> = Vec::new();
        let n: usize = self.records.len();
        let mut i: usize = 0;
        while i < n
            invariant
                i <= n,
                n == self.records@.len(),
                n == self.times@.len(),
                non_decreasing(self.times@),
                hold_map@ == open_broadcasts(
                    self.records@.take(i as int),
                    self.times@.take(i as int),
                ),
                latencies@ == latency_pairs(
                    self.records@.take(i as int),
                    self.times@.take(i as int),
                ),
                forall|k: u128| #[trigger]
                    hold_map@.contains_key(k) && i < n ==> hold_map@[k] <= self.times@[i as int],
            decreases n - i,
        {
            proof {
                assert(self.records@.take(i + 1).drop_last() =~= self.records@.take(i as int));
                assert(self.times@.take(i + 1).drop_last() =~= self.times@.take(i as int));
            }
            let t: u128 = self.times[i];
            let k: u128 = self.records[i].frame().key();
            match self.records[i] {
                BridgeStatRecord::Broadcast(_) => {
                    hold_map.insert(k, t);
                },
                _ => {
                    match hold_map.remove(&k) {
                        Some(begin) => {
                            let lat: u128 = t - begin;
                            let b: i64 = #[verifier::truncate]
                            (begin as i64);
                            let l: i64 = #[verifier::truncate]
                            (lat as i64);
                            latencies.push((b, l));
                        },
                        None => {},
                    }
                },
            }
            i += 1;
        }
        proof {
            assert(self.records@.take(n as int) =~= self.records@);
            assert(self.times@.take(n as int) =~= self.times@);
        }
        latencies
    }
}

/// Each sample with its time, in the order of the samples, as signed 64-bit
/// numbers: the time first.
pub open spec fn congestion_pairs(records: Seq<usize>, times: Seq<u128>) -> Seq<(i64, i64)>
    recommends
        records.len() == times.len(),
{
    Seq::new(records.len(), |i: int| (times[i] as i64, records[i] as i64))
}

/// Statistics of pending frames of bridge.
pub struct BridgePendingStat {
    pub records: Vec<usize>,
    pub times: Vec<u128>,
    pub init: Instant,
}

impl BridgePendingStat {
    /// One time for each sample.
    pub open spec fn wf(&self) -> bool {
        self.records@.len() == self.times@.len()
    }

    /// An empty record whose clock starts now.
    pub fn new() -> (s: Self)
        ensures
            s.records@.len() == 0,
            s.times@.len() == 0,
            s.wf(),
    {
        BridgePendingStat { records: Vec::new(), times: Vec::new(), init: Instant::now() }
    }

    /// Whether there is one time for each sample.
    pub fn is_sound(&self) -> (b: bool)
        ensures
            b == self.wf(),
    {
        self.records.len() == self.times.len()
    }

    /// File a sample with the clock reading `at`.
    pub fn rec_at(&mut self, count: usize, at: u128)
        requires
            old(self).wf(),
        ensures
            final(self).records@ == old(self).records@.push(count),
            final(self).times@ == old(self).times@.push(at),
            final(self).init == old(self).init,
            final(self).wf(),
    {
        self.records.push(count);
        self.times.push(at);
    }

    /// File a sample of the holder's depth with the time that has passed
    /// since the clock started.
    pub fn rec(&mut self, count: usize)
        requires
            old(self).wf(),
        ensures
            final(self).records@ == old(self).records@.push(count),
            final(self).times@.len() == old(self).times@.len() + 1,
            final(self).times@.drop_last() == old(self).times@,
            final(self).init == old(self).init,
            final(self).wf(),
    {
        let at: u128 = elapsed_micros(&self.init);
        self.rec_at(count, at);
        assert(self.times@.drop_last() =~= old(self).times@);
    }

    /// The number of samples.
    pub fn len(&self) -> (n: usize)
        ensures
            n == self.records@.len(),
    {
        self.records.len()
    }

    /// Export scatter of congestion, the changing pressure of waiting list.
    pub fn export_congestion_scatter(&self) -> (out: Vec<(i64, i64)>)
        requires
            self.wf(),
        ensures
            out@ == congestion_pairs(self.records@, self.times@),
    {
        let mut out: Vec<(i64, i64)> = Vec::new();
        let n: usize = self.records.len();
        let mut i: usize = 0;
        while i < n
            invariant
                i <= n,
                n == self.records@.len(),
                n == self.times@.len(),
                out@ == congestion_pairs(self.records@.take(i as int), self.times@.take(i as int)),
            decreases n - i,
        {
            let t: i64 = #[verifier::truncate]
            (self.times[i] as i64);
            let c: i64 = #[verifier::truncate]
            (self.records[i] as i64);
            out.push((t, c));
            i += 1;
            assert(out@ =~= congestion_pairs(
                self.records@.take(i as int),
                self.times@.take(i as int),
            ));
        }
        proof {
            assert(self.records@.take(n as int) =~= self.records@);
            assert(self.times@.take(n as int) =~= self.times@);
        }
        out
    }
}

} // verus!
