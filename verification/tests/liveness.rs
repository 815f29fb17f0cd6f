//! Pacing and stall detection.

use recipes_simulation::duration::Duration;
use recipes_simulation::liveness::{next_tick, LivenessGuard};

fn ms(millis: u64) -> Duration {
    Duration::from_millis(millis)
}

#[test]
fn a_cursor_that_keeps_moving_cannot_spin() {
    // The property the idiom is for. Simulated time never advances (every
    // wait returns instantly, as it would if delays were broken), and the
    // requested wait grows anyway, because the cursor moved and the clock
    // did not. One instant wait is possible; a second is not.
    let now = Duration::zero();
    let mut cursor = now;
    let mut waits = Vec::new();
    for _ in 0..5 {
        let (moved, wait) = next_tick(cursor, ms(10), now);
        cursor = moved;
        waits.push(wait);
    }
    assert_eq!(
        waits,
        vec![ms(10), ms(20), ms(30), ms(40), ms(50)],
        "a stalled clock must make the requested waits grow, not repeat"
    );
}

#[test]
fn a_cursor_does_not_drift() {
    // A round whose work took time is followed by a shorter wait, not a
    // full step on top of it, so the loop keeps its average cadence.
    let (cursor, wait) = next_tick(Duration::zero(), ms(10), ms(4));
    assert_eq!(cursor, ms(10));
    assert_eq!(wait, ms(6), "the work already spent 4ms of the step");
}

#[test]
fn a_cursor_the_work_overran_asks_for_no_wait_rather_than_a_negative_one() {
    let (cursor, wait) = next_tick(Duration::zero(), ms(10), ms(25));
    assert_eq!(cursor, ms(10));
    assert!(wait.is_zero());

    // And it catches up rather than staying behind: two more rounds and the
    // cursor is back in front of the clock.
    let (cursor, wait) = next_tick(cursor, ms(10), ms(25));
    assert!(wait.is_zero());
    let (_, wait) = next_tick(cursor, ms(10), ms(25));
    assert_eq!(wait, ms(5));
}

#[test]
fn a_loop_whose_clock_moves_runs_forever() {
    let mut guard = LivenessGuard::new();
    for tick in 0..1_000u64 {
        assert!(guard.tick(ms(tick)));
    }
}

#[test]
fn a_loop_whose_clock_stands_still_is_stopped() {
    let mut guard = LivenessGuard::new();
    // The first reading establishes the baseline and can stall nothing.
    assert!(guard.tick(ms(1)));
    // Then three iterations that took no simulated time at all.
    assert!(guard.tick(ms(1)));
    assert!(guard.tick(ms(1)));
    assert!(
        !guard.tick(ms(1)),
        "a loop that went round {} times without the clock moving must stop",
        LivenessGuard::STALL_LIMIT
    );
}

#[test]
fn a_stall_that_resolves_is_forgiven() {
    let mut guard = LivenessGuard::new();
    assert!(guard.tick(ms(1)));
    assert!(guard.tick(ms(1)));
    assert!(guard.tick(ms(1)), "two stalls in a row are ordinary");

    // The clock moved, so the count starts over rather than accumulating
    // over the whole run: a role that stalls twice per lease for an hour is
    // not the failure this is looking for.
    assert!(guard.tick(ms(2)));
    assert!(guard.tick(ms(2)));
    assert!(guard.tick(ms(2)));
    assert!(!guard.tick(ms(2)));
}

#[test]
fn the_clock_going_backwards_is_not_a_stall() {
    // Roles sample the simulator's own undistorted clock, so this should not
    // happen; if it ever does, it is progress of a sort and not the thing
    // this guard exists to catch.
    let mut guard = LivenessGuard::new();
    assert!(guard.tick(ms(3)));
    assert!(guard.tick(ms(2)));
    assert!(guard.tick(ms(1)));
    assert!(guard.tick(Duration::zero()));
}
