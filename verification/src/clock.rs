//! The time stamps of snapshots: nanoseconds since the clock was started.

use std::time::Instant;
use vstd::prelude::*;

verus! {

/// A point in time on the system's monotonic clock.
#[verifier::external_type_specification]
#[verifier::external_body]
pub struct ExInstant(std::time::Instant);

/// The most nanoseconds that a duration of the standard library can hold:
/// `u64::MAX` seconds and one nanosecond less than another.
pub const MAX_DURATION_NS: u128 = 18446744073709551615999999999;

/// The nanoseconds from one instant to a later one, as the standard library
/// counts them.
pub uninterp spec fn nanos_between(later: Instant, earlier: Instant) -> u128;

/// A count of nanoseconds as a signed 64-bit number, wrapped round where it
/// does not fit.
pub open spec fn wrapped_ns(count: u128) -> int {
    let low = count as int % 0x1_0000_0000_0000_0000;
    if low < 0x8000_0000_0000_0000 {
        low
    } else {
        low - 0x1_0000_0000_0000_0000
    }
}

/// Calls [`std::time::Instant::now`]. Nothing is claimed of the instant.
#[verifier::external_body]
fn instant_now() -> (r: Instant) {
    Instant::now()
}

/// Calls [`std::time::Instant::duration_since`] and turns the duration into its
/// count of nanoseconds ([`std::time::Duration::as_nanos`]). The count depends
/// on the two instants alone and has a name; a duration can hold it. Where the
/// instants come in the wrong order, the duration is zero and nothing panics.
#[verifier::external_body]
fn nanoseconds_since(later: &Instant, earlier: &Instant) -> (r: u128)
    ensures
        r == nanos_between(*later, *earlier),
        r <= MAX_DURATION_NS,
{
    later.duration_since(*earlier).as_nanos()
}

/// A clock that counts from the moment it was started. It keeps the latest
/// instant that it was read at, so that its count never goes back.
#[derive(Debug)]
pub struct Clock {
    begun: Instant,
    latest: Instant,
}

/// The view of [`Clock`].
#[verifier::ext_equal]
pub struct ClockView {
    pub begun: Instant,
    pub latest: Instant,
}

impl View for Clock {
    type V = ClockView;

    closed spec fn view(&self) -> ClockView {
        ClockView { begun: self.begun, latest: self.latest }
    }
}

impl ClockView {
    /// The nanoseconds from the start of the clock to its latest reading.
    pub open spec fn count(self) -> u128 {
        nanos_between(self.latest, self.begun)
    }

    /// The time stamp of the latest reading.
    pub open spec fn stamp(self) -> int {
        wrapped_ns(self.count())
    }

    /// The clock once it was read at the instant `now`. An instant before the
    /// latest one does not count.
    pub open spec fn read_at(self, now: Instant) -> ClockView {
        if nanos_between(now, self.begun) < self.count() {
            self
        } else {
            ClockView { begun: self.begun, latest: now }
        }
    }

    /// Can a reading of the clock give `stamp` and leave the clock as `after`?
    pub open spec fn reads(self, stamp: i64, after: ClockView) -> bool {
        &&& exists|now: Instant| after == #[trigger] self.read_at(now)
        &&& stamp == after.stamp()
    }

    /// Can readings of the clock, one after the other, give `stamps` and leave
    /// the clock as `after`?
    pub open spec fn gives(self, stamps: Seq<i64>, after: ClockView) -> bool
        decreases stamps.len(),
    {
        if stamps.len() == 0 {
            after == self
        } else {
            exists|before: ClockView|
                self.gives(stamps.drop_last(), before) && #[trigger] before.reads(
                    stamps.last(),
                    after,
                )
        }
    }
}

impl Clock {
    /// A clock that counts from `start` and was not read since.
    pub fn from_instant(start: Instant) -> (r: Clock)
        ensures
            r@ == (ClockView { begun: start, latest: start }),
    {
        Clock { begun: start, latest: start }
    }

    /// Starts a clock at the present moment. Which moment that is, only the
    /// time of the call decides.
    pub fn start() -> (r: Clock)
        ensures
            r@.latest == r@.begun,
    {
        Clock::from_instant(instant_now())
    }
}

/// A count of nanoseconds as a time stamp.
pub fn time_stamp(count: u128) -> (r: i64)
    ensures
        r == wrapped_ns(count),
{
    let low: u64 = (count % 0x1_0000_0000_0000_0000) as u64;
    if low < 0x8000_0000_0000_0000 {
        low as i64
    } else {
        -1 - (u64::MAX - low) as i64
    }
}

/// Reads the clock at the instant `now`.
pub fn stamp_at(clock: &mut Clock, now: Instant) -> (r: i64)
    ensures
        final(clock)@ == old(clock)@.read_at(now),
        r == final(clock)@.stamp(),
{
    let so_far: u128 = nanoseconds_since(&clock.latest, &clock.begun);
    let count: u128 = nanoseconds_since(&now, &clock.begun);
    if count < so_far {
        time_stamp(so_far)
    } else {
        clock.latest = now;
        time_stamp(count)
    }
}

/// The time stamp of the present moment: the count of nanoseconds that the
/// clock has run. Which moment that is, only the time of the call decides.
/// Until the count outgrows a time stamp, stamps are not negative and do not go
/// back.
pub fn chrono_now_ns(clock: &mut Clock) -> (r: i64)
    ensures
        old(clock)@.reads(r, final(clock)@),
        final(clock)@.begun == old(clock)@.begun,
        final(clock)@.count() >= old(clock)@.count(),
        final(clock)@.count() <= i64::MAX ==> 0 <= old(clock)@.stamp() <= r,
{
    let now = instant_now();
    stamp_at(clock, now)
}

/// A single reading is a run of readings.
pub proof fn lemma_one_reading(before: ClockView, stamp: i64, after: ClockView)
    requires
        before.reads(stamp, after),
    ensures
        before.gives(seq![stamp], after),
{
    lemma_another_reading(before, Seq::empty(), before, stamp, after);
    assert(Seq::<i64>::empty().push(stamp) =~= seq![stamp]);
}

/// A run of readings goes on with another one.
pub proof fn lemma_another_reading(
    first: ClockView,
    stamps: Seq<i64>,
    before: ClockView,
    stamp: i64,
    after: ClockView,
)
    requires
        first.gives(stamps, before),
        before.reads(stamp, after),
    ensures
        first.gives(stamps.push(stamp), after),
{
    assert(stamps.push(stamp).drop_last() =~= stamps);
    assert(before.reads(stamps.push(stamp).last(), after));
}

/// Two runs of readings, one after the other, are one.
pub proof fn law_readings_follow_one_another(
    first: ClockView,
    stamps: Seq<i64>,
    middle: ClockView,
    more: Seq<i64>,
    last: ClockView,
)
    requires
        first.gives(stamps, middle),
        middle.gives(more, last),
    ensures
        first.gives(stamps + more, last),
    decreases more.len(),
{
    if more.len() == 0 {
        assert(stamps + more =~= stamps);
    } else {
        let before = choose|before: ClockView|
            middle.gives(more.drop_last(), before) && #[trigger] before.reads(more.last(), last);
        law_readings_follow_one_another(first, stamps, middle, more.drop_last(), before);
        lemma_another_reading(first, stamps + more.drop_last(), before, more.last(), last);
        assert((stamps + more.drop_last()).push(more.last()) =~= stamps + more);
    }
}

/// All readings of a clock count from its start, and its count never goes back.
/// As long as the count fits a time stamp, the stamps are not negative and do
/// not go back either, and the last one is that of the clock.
pub proof fn law_stamps_never_go_back(first: ClockView, stamps: Seq<i64>, last: ClockView)
    requires
        first.gives(stamps, last),
    ensures
        last.begun == first.begun,
        last.count() >= first.count(),
        stamps.len() > 0 ==> stamps.last() == last.stamp(),
        last.count() <= i64::MAX ==> forall|i: int|
            0 <= i < stamps.len() ==> 0 <= first.stamp() <= #[trigger] stamps[i] <= last.stamp(),
        last.count() <= i64::MAX ==> forall|i: int, j: int|
            0 <= i <= j < stamps.len() ==> #[trigger] stamps[i] <= #[trigger] stamps[j],
    decreases stamps.len(),
{
    if stamps.len() > 0 {
        let fewer = stamps.drop_last();
        let before = choose|before: ClockView|
            first.gives(fewer, before) && #[trigger] before.reads(stamps.last(), last);
        law_stamps_never_go_back(first, fewer, before);
        assert forall|i: int| 0 <= i < fewer.len() implies #[trigger] stamps[i] == fewer[i] by {}
    }
}

/// A time stamp is its count up to a multiple of 2^64, in the range of signed
/// 64-bit numbers.
pub proof fn law_stamps_are_counts(count: u128)
    ensures
        -0x8000_0000_0000_0000 <= wrapped_ns(count) < 0x8000_0000_0000_0000,
        (count as int - wrapped_ns(count)) % 0x1_0000_0000_0000_0000 == 0,
{
}

/// A reading takes the clock to the instant of the reading, unless that lies
/// before the latest one: the count is then the larger of the time since the
/// start and what was counted before.
pub proof fn law_readings_follow_the_time(clock: ClockView, now: Instant)
    ensures
        clock.read_at(now).begun == clock.begun,
        nanos_between(now, clock.begun) >= nanos_between(clock.latest, clock.begun)
            ==> clock.read_at(now).latest == now,
        nanos_between(now, clock.begun) < nanos_between(clock.latest, clock.begun)
            ==> clock.read_at(now).latest == clock.latest,
        (nanos_between(clock.latest, clock.begun) as int - clock.stamp())
            % 0x1_0000_0000_0000_0000 == 0,
{
    law_stamps_are_counts(nanos_between(clock.latest, clock.begun));
}

/// A single reading gives the stamp that the clock has after it, at some
/// instant.
pub proof fn law_a_reading_is_made_at_an_instant(
    before: ClockView,
    stamp: i64,
    after: ClockView,
)
    requires
        before.reads(stamp, after),
    ensures
        after.begun == before.begun,
        (nanos_between(after.latest, after.begun) as int - stamp) % 0x1_0000_0000_0000_0000 == 0,
        nanos_between(after.latest, after.begun) >= nanos_between(before.latest, before.begun),
{
    law_readings_follow_the_time(after, after.latest);
}

} // verus!
