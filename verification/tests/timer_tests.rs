use tetris::timer::Moment;
use tetris::CycleTimer;

#[test]
fn timer_fires_strictly_after_the_period() {
    let start = Moment { sec: 10, nsec: 500_000_000 };
    let timer = CycleTimer::started_at(800, start);
    assert!(!timer.check_at(Moment { sec: 10, nsec: 500_000_000 }));
    assert!(!timer.check_at(Moment { sec: 11, nsec: 299_999_999 }));
    assert!(!timer.check_at(Moment { sec: 11, nsec: 300_000_000 }));
    assert!(timer.check_at(Moment { sec: 11, nsec: 300_000_001 }));
    assert!(timer.check_at(Moment { sec: 12, nsec: 0 }));
}

#[test]
fn cycle_at_restarts_the_period_when_it_fires() {
    let mut timer = CycleTimer::started_at(800, Moment { sec: 10, nsec: 0 });
    assert!(!timer.cycle_at(Moment { sec: 10, nsec: 700_000_000 }));
    assert!(timer.cycle_at(Moment { sec: 10, nsec: 900_000_000 }));
    assert!(!timer.cycle_at(Moment { sec: 11, nsec: 600_000_000 }));
    assert!(timer.cycle_at(Moment { sec: 11, nsec: 700_000_001 }));
}

#[test]
fn reset_at_restarts_the_period() {
    let mut timer = CycleTimer::started_at(800, Moment { sec: 10, nsec: 0 });
    timer.reset_at(Moment { sec: 10, nsec: 700_000_000 });
    assert!(!timer.check_at(Moment { sec: 11, nsec: 0 }));
    assert!(timer.check_at(Moment { sec: 11, nsec: 500_000_001 }));
}

#[test]
fn timer_handles_moments_before_1970_and_far_ones() {
    let timer = CycleTimer::started_at(1_000, Moment { sec: -2, nsec: 800_000_000 });
    assert!(!timer.check_at(Moment { sec: -1, nsec: 800_000_000 }));
    assert!(timer.check_at(Moment { sec: -1, nsec: 800_000_001 }));
    let far = CycleTimer::started_at(i64::MAX, Moment { sec: i64::MAX, nsec: 999_999_999 });
    assert!(!far.check_at(Moment { sec: i64::MAX, nsec: 999_999_999 }));
}

#[test]
fn clock_timer_with_a_period_in_the_past_fires_at_once() {
    let mut timer = CycleTimer::new(-1_000);
    assert!(timer.cycle());
    assert!(timer.cycle());
}

#[test]
fn clock_timer_with_a_long_period_does_not_fire() {
    let mut timer = CycleTimer::new(3_600_000);
    assert!(!timer.cycle());
    timer.reset();
    assert!(!timer.cycle());
}

// The clock reads a moment of today, not one of 1970: a timer started at the
// beginning of the clock's count has long since fired, and one started a
// century after 2001 has not.
#[test]
fn clock_reads_the_present() {
    let mut old = CycleTimer::started_at(0, Moment { sec: 1_000_000_000, nsec: 0 });
    assert!(old.cycle());
    let mut late = CycleTimer::started_at(0, Moment { sec: 4_200_000_000, nsec: 0 });
    assert!(!late.cycle());
}
