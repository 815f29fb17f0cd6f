//! Skewed clocks and how far they may stray.

use recipes_simulation::clock::{distorted_reading, ClockStep, SkewMode};
use recipes_simulation::duration::Duration;

fn secs(secs: u64) -> Duration {
    Duration::from_secs(secs)
}

fn ms(millis: u64) -> Duration {
    Duration::from_millis(millis)
}

#[test]
fn the_unskewed_mode_reads_true_time() {
    for sim in [0u64, 1, 17, 600] {
        let sim = secs(sim);
        let (reading, skew) = distorted_reading(Duration::zero(), sim, None, None, sim);
        assert_eq!(reading, sim);
        assert_eq!(skew, 0);
    }
}

#[test]
fn a_regression_moves_the_reading_backwards_exactly_once() {
    let jump = Some(ClockStep { at: secs(15), by: ms(250) });
    let regression = Some(ClockStep { at: secs(33), by: ms(250) });
    let reading_at = |sim: Duration| distorted_reading(secs(3), sim, jump, regression, sim).0;

    let before = reading_at(ms(32_999));
    let after = reading_at(secs(33));
    assert!(after.shorter_than(&before), "the regression must move time backwards");
    // And it is a step, not a new rate: the gap stays the size it was.
    let later = reading_at(secs(38));
    assert!(after.shorter_than(&later));
    assert_eq!(later, secs(41));
}

#[test]
fn skew_modes_round_trip_through_their_names() {
    for mode in [SkewMode::Unskewed, SkewMode::Random, SkewMode::Extreme] {
        assert_eq!(SkewMode::parse(mode.as_str()), Some(mode));
    }
    assert_eq!(SkewMode::parse("wobbly"), None);
}

#[test]
fn each_mode_admits_its_own_rate_error() {
    assert_eq!(SkewMode::Unskewed.as_str(), "none");
    assert_eq!(SkewMode::Unskewed.max_rate_error_percent(), 0);
    assert_eq!(SkewMode::Random.max_rate_error_percent(), 1);
    assert_eq!(SkewMode::Extreme.max_rate_error_percent(), 5);
}

#[test]
fn a_reading_is_offset_and_scaled_and_stepped() {
    let jump = Some(ClockStep { at: secs(10), by: ms(250) });
    let (reading, skew) = distorted_reading(secs(4), ms(9_900), jump, None, ms(9_999));
    assert_eq!(reading, ms(13_900));
    assert_eq!(skew, 3_901_000_000);
    let (reading, skew) = distorted_reading(secs(4), ms(9_901), jump, None, secs(10));
    assert_eq!(reading, ms(14_151));
    assert_eq!(skew, 4_151_000_000);

    // A clock that runs slow is behind the truth, and one pushed below zero stops there.
    let (reading, skew) = distorted_reading(Duration::zero(), ms(900), None, None, secs(1));
    assert_eq!(reading, ms(900));
    assert_eq!(skew, 100_000_000);
    let regression = Some(ClockStep { at: secs(1), by: secs(60) });
    let (reading, skew) = distorted_reading(Duration::zero(), secs(2), None, regression, secs(2));
    assert_eq!(reading, Duration::zero());
    assert_eq!(skew, 2_000_000_000);
}
