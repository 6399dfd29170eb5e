//! Frame durations, measured on the monotonic clock and kept in whole
//! nanoseconds, with their count, sum and extremes.
use vstd::prelude::*;
use std::time::Instant;

verus! {

/// A point of the monotonic clock, `std::time::Instant`. Nothing is known of
/// what it holds.
#[verifier::external_type_specification]
#[verifier::external_body]
pub struct ExInstant(Instant);

/// Reads the monotonic clock with `Instant::now`. Nothing is claimed of the
/// instant that comes back.
#[verifier::external_body]
fn clock_now() -> (now: Instant) {
    Instant::now()
}

/// The time from `earlier` to `later` in whole nanoseconds, as
/// `Instant::duration_since` gives it (zero where `earlier` is in fact the
/// later one). Nothing is claimed of the number that comes back.
#[verifier::external_body]
fn nanos_between(later: &Instant, earlier: &Instant) -> (nanos: u128) {
    later.duration_since(*earlier).as_nanos()
}

/// Sum of `durations`.
pub open spec fn total_of(durations: Seq<u128>) -> int
    decreases durations.len(),
{
    if durations.len() == 0 {
        0
    } else {
        total_of(durations.drop_last()) + durations.last()
    }
}

/// `bound` is one of `durations` and none of them is shorter.
pub open spec fn is_shortest_of(durations: Seq<u128>, bound: u128) -> bool {
    &&& exists|i: int| 0 <= i < durations.len() && durations[i] == bound
    &&& forall|i: int| 0 <= i < durations.len() ==> bound <= durations[i]
}

/// `bound` is one of `durations` and none of them is longer.
pub open spec fn is_longest_of(durations: Seq<u128>, bound: u128) -> bool {
    &&& exists|i: int| 0 <= i < durations.len() && durations[i] == bound
    &&& forall|i: int| 0 <= i < durations.len() ==> durations[i] <= bound
}

/// The sum of the first durations never exceeds the sum of all of them.
proof fn lemma_total_of_prefix(durations: Seq<u128>, count: int)
    requires
        0 <= count <= durations.len(),
    ensures
        0 <= total_of(durations.take(count)) <= total_of(durations),
    decreases durations.len() - count,
{
    if count == durations.len() {
        assert(durations.take(count) =~= durations);
        lemma_total_of_nonnegative(durations);
    } else {
        lemma_total_of_prefix(durations, count + 1);
        assert(durations.take(count + 1).drop_last() =~= durations.take(count));
        lemma_total_of_nonnegative(durations.take(count));
    }
}

proof fn lemma_total_of_nonnegative(durations: Seq<u128>)
    ensures
        0 <= total_of(durations),
    decreases durations.len(),
{
    if durations.len() > 0 {
        lemma_total_of_nonnegative(durations.drop_last());
    }
}

/// Count, sum and extremes of the recorded frame durations, in nanoseconds.
#[derive(Clone, Copy, Debug, PartialEq, Eq)]
pub struct FrameStats {
    pub frames: usize,
    pub total: u128,
    pub shortest: u128,
    pub longest: u128,
}

/// Stopwatch for frames: each finished frame adds its duration to a record.
pub struct FrameTimer {
    start_time: Instant,
    frame_start: Instant,
    frame_times: Vec<u128>,
}

impl FrameTimer {
    /// The recorded frame durations in nanoseconds, in the order in which
    /// the frames ended.
    pub closed spec fn times(&self) -> Seq<u128> {
        self.frame_times@
    }

    /// A timer with no frame recorded, whose first frame starts now.
    pub fn new() -> (timer: Self)
        ensures
            timer.times() == Seq::<u128>::empty(),
    {
        Self::from_instants(clock_now(), clock_now())
    }

    /// Starts a frame now. The record is untouched.
    pub fn start_frame(&mut self)
        ensures
            final(self).times() == old(self).times(),
            final(self).created() == old(self).created(),
    {
        let now = clock_now();
        self.start_frame_at(now);
    }

    /// The instant at which the timer was made.
    pub closed spec fn created(&self) -> Instant {
        self.start_time
    }

    /// The instant at which the frame in progress started.
    pub closed spec fn frame_started(&self) -> Instant {
        self.frame_start
    }

    /// A timer made at `created` with no frame recorded, whose first frame
    /// started at `frame_started`.
    pub fn from_instants(created: Instant, frame_started: Instant) -> (timer: Self)
        ensures
            timer.created() == created,
            timer.frame_started() == frame_started,
            timer.times() == Seq::<u128>::empty(),
    {
        FrameTimer { start_time: created, frame_start: frame_started, frame_times: Vec::new() }
    }

    /// Starts a frame at `now`: the frame in progress is measured from there.
    /// The record is untouched.
    pub fn start_frame_at(&mut self, now: Instant)
        ensures
            final(self).frame_started() == now,
            final(self).created() == old(self).created(),
            final(self).times() == old(self).times(),
    {
        self.frame_start = now;
    }

    /// Adds `nanos` to the record as the duration of one more frame. The
    /// frame in progress goes on.
    pub fn record_frame(&mut self, nanos: u128)
        ensures
            final(self).times() == old(self).times().push(nanos),
            final(self).frame_started() == old(self).frame_started(),
            final(self).created() == old(self).created(),
    {
        self.frame_times.push(nanos);
    }

    /// Ends the frame now and records the time since it started. What the
    /// clock measured is not known here; every earlier entry stays, and so
    /// does the start of the frame, until the next one is started.
    pub fn end_frame(&mut self)
        ensures
            final(self).times().len() == old(self).times().len() + 1,
            final(self).times().drop_last() == old(self).times(),
            final(self).frame_started() == old(self).frame_started(),
            final(self).created() == old(self).created(),
    {
        let now = clock_now();
        let nanos = nanos_between(&now, &self.frame_start);
        self.record_frame(nanos);
        assert(self.times().drop_last() =~= old(self).times());
    }

    /// The recorded durations, for reading.
    pub fn frame_times(&self) -> (times: &Vec<u128>)
        ensures
            times@ == self.times(),
    {
        &self.frame_times
    }

    /// Number of frames, their summed duration, the shortest and the
    /// longest. There must be a frame on record, and the sum must fit.
    pub fn results(&self) -> (stats: FrameStats)
        requires
            self.times().len() > 0,
            total_of(self.times()) <= u128::MAX,
        ensures
            stats.frames == self.times().len(),
            stats.total == total_of(self.times()),
            is_shortest_of(self.times(), stats.shortest),
            is_longest_of(self.times(), stats.longest),
    {
        let len: usize = self.frame_times.len();
        let mut total: u128 = 0;
        let mut shortest: u128 = self.frame_times[0];
        let mut longest: u128 = self.frame_times[0];
        let mut i: usize = 0;
        proof {
            assert(self.times().take(0) =~= Seq::<u128>::empty());
        }
        while i < len
            invariant
                len == self.frame_times@.len(),
                len > 0,
                i <= len,
                total_of(self.frame_times@) <= u128::MAX,
                total == total_of(self.frame_times@.take(i as int)),
                exists|k: int| 0 <= k < len && self.frame_times@[k] == shortest,
                exists|k: int| 0 <= k < len && self.frame_times@[k] == longest,
                forall|k: int| 0 <= k < i ==> shortest <= self.frame_times@[k],
                forall|k: int| 0 <= k < i ==> self.frame_times@[k] <= longest,
            decreases len - i,
        {
            let time: u128 = self.frame_times[i];
            proof {
                lemma_total_of_prefix(self.frame_times@, i + 1);
                assert(self.frame_times@.take(i + 1).drop_last() =~= self.frame_times@.take(
                    i as int,
                ));
            }
            total = total + time;
            if time < shortest {
                shortest = time;
            }
            if time > longest {
                longest = time;
            }
            i += 1;
        }
        proof {
            assert(self.frame_times@.take(len as int) =~= self.frame_times@);
        }
        FrameStats { frames: len, total, shortest, longest }
    }

    /// Forgets every recorded frame. The frame in progress goes on.
    pub fn clear_frame_times(&mut self)
        ensures
            final(self).times() == Seq::<u128>::empty(),
            final(self).frame_started() == old(self).frame_started(),
            final(self).created() == old(self).created(),
    {
        self.frame_times.clear();
    }
}

} // verus!
