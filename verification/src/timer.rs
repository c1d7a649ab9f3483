//! The pace of the game: a timer that fires when a period has gone by since
//! it last fired or was reset.

use vstd::prelude::*;

verus! {

/// A moment of the wall clock: whole seconds since the start of 1970, and
/// the nanoseconds into the second.
#[derive(Debug, Clone, Copy, PartialEq, Eq, Structural)]
pub struct Moment {
    pub sec: i64,
    pub nsec: i32,
}

/// A moment in nanoseconds.
pub open spec fn nanos(moment: Moment) -> int {
    moment.sec * 1_000_000_000 + moment.nsec
}

/// Whether `period` milliseconds after `last` lie before `now`.
pub open spec fn elapsed(last: Moment, period: int, now: Moment) -> bool {
    nanos(last) + period * 1_000_000 < nanos(now)
}

/// A timer as a plain value.
pub struct TimerView {
    pub last_cycle: Moment,
    pub cycle_time: int,
}

/// Whether a moment is one that the clock gives: its nanoseconds lie within
/// one second.
pub open spec fn is_clock_reading(moment: Moment) -> bool {
    0 <= moment.nsec < 1_000_000_000
}

/// Whether `due` is the answer that some reading of the clock gives to the
/// question if the timer's period has gone by.
pub open spec fn due_by_the_clock(timer: TimerView, due: bool) -> bool {
    exists|now: Moment|
        is_clock_reading(now) && due == #[trigger] elapsed(timer.last_cycle, timer.cycle_time, now)
}

/// Reads the wall clock with `time::get_time`, which gives the seconds and
/// nanoseconds since the start of 1970 and keeps the nanoseconds within one
/// second. Which moment comes is left open.
#[verifier::external_body]
fn wall_clock() -> (now: Moment)
    ensures
        is_clock_reading(now),
{
    let now = time::get_time();
    Moment { sec: now.sec, nsec: now.nsec }
}

/// Fires once per period of `cycle_time` milliseconds.
#[derive(Debug)]
pub struct CycleTimer {
    last_cycle: Moment,
    cycle_time: i64,
}

impl View for CycleTimer {
    type V = TimerView;

    closed spec fn view(&self) -> TimerView {
        TimerView { last_cycle: self.last_cycle, cycle_time: self.cycle_time as int }
    }
}

impl CycleTimer {
    /// A timer of the given period in milliseconds, started at the moment
    /// that the clock gives.
    pub fn new(cycle_time: i64) -> (timer: CycleTimer)
        ensures
            timer@.cycle_time == cycle_time,
            is_clock_reading(timer@.last_cycle),
    {
        CycleTimer::started_at(cycle_time, wall_clock())
    }

    /// A timer of the given period in milliseconds, started at `now`.
    pub fn started_at(cycle_time: i64, now: Moment) -> (timer: CycleTimer)
        ensures
            timer@ == (TimerView { last_cycle: now, cycle_time: cycle_time as int }),
    {
        CycleTimer { last_cycle: now, cycle_time }
    }

    /// Starts the period anew, from the moment that the clock gives. The
    /// length of the period stays.
    pub fn reset(&mut self)
        ensures
            final(self)@.cycle_time == old(self)@.cycle_time,
            is_clock_reading(final(self)@.last_cycle),
    {
        self.reset_at(wall_clock());
    }

    /// Starts the period anew, from `now`.
    pub fn reset_at(&mut self, now: Moment)
        ensures
            final(self)@ == (TimerView { last_cycle: now, ..old(self)@ }),
    {
        self.last_cycle = now;
    }

    /// Whether the period has gone by at the moment that the clock gives.
    fn check(&self) -> (due: bool)
        ensures
            due_by_the_clock(self@, due),
    {
        let now = wall_clock();
        let due = self.check_at(now);
        assert(is_clock_reading(now) && due == elapsed(self@.last_cycle, self@.cycle_time, now));
        due
    }

    /// Whether the period has gone by at `now`.
    pub fn check_at(&self, now: Moment) -> (due: bool)
        ensures
            due == elapsed(self@.last_cycle, self@.cycle_time, now),
    {
        let last: i128 = self.last_cycle.sec as i128 * 1_000_000_000 + self.last_cycle.nsec as i128;
        let current: i128 = now.sec as i128 * 1_000_000_000 + now.nsec as i128;
        last + self.cycle_time as i128 * 1_000_000 < current
    }

    /// Fires if the period has gone by at the moment that the clock gives,
    /// and then starts it anew from the moment that the clock gives next. A
    /// timer that does not fire stays as it is.
    pub fn cycle(&mut self) -> (fired: bool)
        ensures
            due_by_the_clock(old(self)@, fired),
            fired ==> final(self)@.cycle_time == old(self)@.cycle_time && is_clock_reading(
                final(self)@.last_cycle,
            ),
            !fired ==> final(self)@ == old(self)@,
    {
        if self.check() {
            self.reset();
            true
        } else {
            false
        }
    }

    /// What `cycle` does at a given moment: fires if the period has gone by
    /// at `now`, and then starts it anew from `now`.
    pub fn cycle_at(&mut self, now: Moment) -> (fired: bool)
        ensures
            fired == elapsed(old(self)@.last_cycle, old(self)@.cycle_time, now),
            fired ==> final(self)@ == (TimerView { last_cycle: now, ..old(self)@ }),
            !fired ==> final(self)@ == old(self)@,
    {
        if self.check_at(now) {
            self.reset_at(now);
            true
        } else {
            false
        }
    }
}

} // verus!
