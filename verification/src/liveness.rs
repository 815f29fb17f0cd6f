//! Catching a loop that spins without the clock moving, and pacing one so that
//! it cannot.

use crate::duration;
use crate::duration::Duration;
use vstd::prelude::*;

verus! {

/// A loop's own witness that simulated time is passing.
#[derive(Debug, Clone, Copy)]
pub struct LivenessGuard {
    last: Option<Duration>,
    stalls: u32,
}

impl Default for LivenessGuard {
    fn default() -> (r: LivenessGuard)
        ensures
            r.last() is None,
            r.stalls() == 0,
    {
        LivenessGuard { last: None, stalls: 0 }
    }
}

impl LivenessGuard {
    /// How many stalled iterations in a row are one too many.
    pub const STALL_LIMIT: u32 = 3;

    /// The reading the previous iteration started from.
    pub closed spec fn last(self) -> Option<Duration> {
        self.last
    }

    /// Consecutive iterations that started at the same reading.
    pub closed spec fn stalls(self) -> u32 {
        self.stalls
    }

    /// Whether the guard has seen exactly these readings, in nanoseconds.
    pub open spec fn has_seen(self, readings: Seq<nat>) -> bool {
        &&& self.stalls() == stalls_in(readings)
        &&& match self.last() {
            Some(last) => readings.len() > 0 && readings.last() == last@,
            None => readings.len() == 0,
        }
    }

    /// A guard that has seen nothing yet.
    pub fn new() -> (r: LivenessGuard)
        ensures
            r.last() is None,
            r.stalls() == 0,
            r.has_seen(Seq::empty()),
    {
        LivenessGuard { last: None, stalls: 0 }
    }

    /// How many iterations in a row began at the same reading.
    pub fn stalled_for(&self) -> (r: u32)
        ensures
            r == self.stalls(),
    {
        self.stalls
    }

    /// Records the instant an iteration begins, and says whether the loop may go
    /// round again.
    pub fn tick(&mut self, now: Duration) -> (r: bool)
        requires
            old(self).stalls() < u32::MAX,
        ensures
            final(self).last() == Some(now),
            final(self).stalls() == (if old(self).last() matches Some(last) && last@ == now@ {
                old(self).stalls() + 1
            } else {
                0
            }),
            r == (final(self).stalls() < LivenessGuard::STALL_LIMIT),
            forall|readings: Seq<nat>| #[trigger]
                old(self).has_seen(readings) ==> final(self).has_seen(readings.push(now@)),
    {
        let stalled = match self.last {
            Some(last) => last.same_as(&now),
            None => false,
        };
        self.stalls = if stalled {
            self.stalls + 1
        } else {
            0
        };
        self.last = Some(now);
        proof {
            assert forall|readings: Seq<nat>| #[trigger] old(self).has_seen(readings) implies self.has_seen(
                readings.push(now@),
            ) by {
                let longer = readings.push(now@);
                assert(longer.drop_last() =~= readings);
            }
        }
        self.stalls < LivenessGuard::STALL_LIMIT
    }
}

/// How many of the last readings repeat the one before them.
pub open spec fn stalls_in(readings: Seq<nat>) -> nat
    decreases readings.len(),
{
    if readings.len() < 2 || readings.last() != readings[readings.len() - 2] {
        0
    } else {
        stalls_in(readings.drop_last()) + 1
    }
}

/// The loop is stopped exactly when its last four readings are the same: one
/// that establishes the instant and [`LivenessGuard::STALL_LIMIT`] that did not move it. A
/// clock that moved, either way, is forgiven.
pub proof fn stopped_exactly_on_a_standing_clock(readings: Seq<nat>)
    ensures
        stalls_in(readings) >= LivenessGuard::STALL_LIMIT <==> {
            let n = readings.len() as int;
            n >= 4 && readings[n - 1] == readings[n - 2] && readings[n - 2] == readings[n - 3]
                && readings[n - 3] == readings[n - 4]
        },
{
    reveal_with_fuel(stalls_in, 4);
    let n = readings.len() as int;
    if n >= 4 && readings[n - 1] == readings[n - 2] && readings[n - 2] == readings[n - 3]
        && readings[n - 3] == readings[n - 4] {
        assert(stalls_in(readings) >= 3);
    }
}

/// A loop whose clock always moves is never stopped.
pub proof fn a_moving_clock_never_stalls(readings: Seq<nat>)
    requires
        forall|i: int| 0 < i < readings.len() ==> readings[i] != #[trigger] readings[i - 1],
    ensures
        stalls_in(readings) == 0,
{
    if readings.len() >= 2 {
        let n = readings.len() as int;
        assert(readings[n - 1] != readings[(n - 1) - 1]);
    }
}

/// Where the next tick of a paced loop falls, and how long to wait for it.
pub fn next_tick(cursor: Duration, step: Duration, now: Duration) -> (r: (Duration, Duration))
    ensures
        r.0@ == next_cursor(cursor@, step@),
        r.1@ == wait_until(r.0@, now@),
{
    let cursor = cursor.saturating_add(step);
    (cursor, cursor.saturating_sub(now))
}

/// The cursor one step on.
pub open spec fn next_cursor(cursor: nat, step: nat) -> nat {
    if cursor + step > duration::longest() {
        duration::longest()
    } else {
        cursor + step
    }
}

/// How long it is until `due`; no time where it has passed.
pub open spec fn wait_until(due: nat, now: nat) -> nat {
    if due < now {
        0
    } else {
        (due - now) as nat
    }
}

/// The cursor always moves, and against a clock that stands still the wait grows
/// by a full step: a wait that returned at once leaves the next round asking for
/// a real one.
pub proof fn a_moving_cursor_cannot_spin(cursor: nat, step: nat, now: nat)
    requires
        step > 0,
        cursor + step + step <= duration::longest(),
        now <= cursor + step,
    ensures
        next_cursor(cursor, step) > cursor,
        wait_until(next_cursor(next_cursor(cursor, step), step), now) == wait_until(
            next_cursor(cursor, step),
            now,
        ) + step,
{
}

} // verus!
