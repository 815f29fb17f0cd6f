//! What an elector does next, event by event.

use crate::duration;
use crate::duration::Duration;
use crate::elector_role::LeadOutcome;
use crate::elector_script;
use crate::elector_script::{
    ElectorActionView, ElectorEvent, ElectorNote, ElectorPlace, ElectorTurn, ElectorView, WorkActionView,
    WorkEvent, WorkPlace, WorkTurn,
};
use crate::roles::Work;
use vstd::prelude::*;

verus! {

/// One where something holds, and nothing otherwise.
pub open spec fn once(holds: bool) -> int {
    if holds {
        1
    } else {
        0
    }
}

/// Whether no count is full, and no guard either.
pub open spec fn has_room(v: ElectorView) -> bool {
    &&& v.counters.acquisitions < u64::MAX
    &&& v.counters.fenced_applied < u64::MAX
    &&& v.counters.fenced_rejected < u64::MAX
    &&& v.counters.lease_losses < u64::MAX
    &&& v.counters.resigns < u64::MAX
    &&& v.counters.errors < u64::MAX - 1
    &&& v.terms.stalls < u32::MAX
    &&& v.works.stalls < u32::MAX
}

/// Whether a guard that has seen one instant more has stalled for good.
pub open spec fn has_stalled(last: Option<nat>, stalls: u32, now: nat) -> bool {
    last == Some(now) && stalls + 1 >= 3
}

/// A guard counts how often the same instant comes again, and starts over at another.
pub proof fn a_guard_counts_repeats(guard: elector_script::GuardView, now: nat)
    requires
        guard.stalls < u32::MAX,
    ensures
        elector_script::ticked(guard, now).last == Some(now),
        guard.last == Some(now) ==> elector_script::ticked(guard, now).stalls == guard.stalls + 1,
        guard.last != Some(now) ==> elector_script::ticked(guard, now).stalls == 0,
        elector_script::unseen().last is None,
        elector_script::unseen().stalls == 0,
{
}

/// Whether an elector campaigns on: it leads within what is left of the run, with a blank
/// book; it is done where nothing is left, or where its clock has stalled.
pub open spec fn campaigns_on(v: ElectorView, turn: ElectorTurn, sim: nat) -> bool {
    let stalled = has_stalled(v.terms.last, v.terms.stalls, sim);
    &&& sim >= v.deadline || stalled <==> turn.action is Finish
    &&& turn.action is Finish ==> turn.script.place == ElectorPlace::Done
    &&& sim < v.deadline && stalled ==> turn.script.note == Some(ElectorNote::TermsStalled)
    &&& sim < v.deadline && !stalled ==> {
        &&& turn.action == (ElectorActionView::Lead { within: (v.deadline - sim) as nat })
        &&& turn.script.place == ElectorPlace::Leading
        &&& turn.script.book.ballot == 0
        &&& turn.script.book.logged_horizon is None
        &&& !turn.script.book.ended
    }
}

/// A term that was completed leads to the next campaign, and counts as a resignation where it
/// was released.
pub proof fn a_completed_term_leads_to_the_next(
    v: ElectorView,
    released: bool,
    sim: nat,
    local: nat,
)
    requires
        v.place == ElectorPlace::Leading,
        has_room(v),
    ensures
        ({
            let event = ElectorEvent::Led(LeadOutcome::Completed { released });
            let turn = elector_script::stepped(v, event, sim, local);
            &&& campaigns_on(v, turn, sim)
            &&& turn.script.counters.resigns == v.counters.resigns + once(released)
            &&& turn.script.counters.lease_losses == v.counters.lease_losses
            &&& turn.script.counters.acquisitions == v.counters.acquisitions
            &&& turn.script.counters.errors == v.counters.errors + once(
                sim < v.deadline && has_stalled(v.terms.last, v.terms.stalls, sim),
            )
        }),
{
}

/// A lost lease counts as one, and ends in the log the belief whose horizon still lies ahead;
/// where there is none the elector campaigns on.
pub proof fn a_lost_lease_ends_the_belief_that_lasts(v: ElectorView, sim: nat, local: nat)
    requires
        v.place == ElectorPlace::Leading,
        has_room(v),
    ensures
        ({
            let turn = elector_script::stepped(
                v,
                ElectorEvent::Led(LeadOutcome::LeaseLost),
                sim,
                local,
            );
            let lasts = v.book.logged_horizon is Some && !v.book.ended && local
                < v.book.logged_horizon->Some_0@;
            &&& turn.script.counters.lease_losses == v.counters.lease_losses + 1
            &&& turn.script.counters.resigns == v.counters.resigns
            &&& lasts ==> turn.action == (ElectorActionView::EndBelief { ballot: v.book.ballot })
                && turn.script.place == ElectorPlace::Closing && turn.script.book == v.book
            &&& !lasts ==> campaigns_on(v, turn, sim)
        }),
{
}

/// An elector whose campaign failed is done, and counts an error; one that ran out of time is
/// done, and counts one only where the delay failed or the run was not over.
pub proof fn an_elector_gives_up_in_time(
    v: ElectorView,
    delay_failed: bool,
    sim: nat,
    local: nat,
)
    requires
        v.place == ElectorPlace::Leading,
        has_room(v),
    ensures
        ({
            let turn = elector_script::stepped(
                v,
                ElectorEvent::Led(LeadOutcome::Failed),
                sim,
                local,
            );
            &&& turn.action is Finish
            &&& turn.script.place == ElectorPlace::Done
            &&& turn.script.note == Some(ElectorNote::LeadFailed)
            &&& turn.script.counters.errors == v.counters.errors + 1
        }),
        ({
            let turn = elector_script::stepped(
                v,
                ElectorEvent::TimedOut { delay_failed },
                sim,
                local,
            );
            let early = delay_failed || sim < v.deadline;
            &&& turn.action is Finish
            &&& turn.script.place == ElectorPlace::Done
            &&& turn.script.counters.errors == v.counters.errors + once(early)
            &&& early ==> turn.script.note == Some(ElectorNote::GaveUpEarly { delay_failed })
            &&& !early ==> turn.script.note == Some(ElectorNote::GaveUp)
        }),
{
}

/// A belief that was closed in the log leads to the next campaign; one that could not be
/// counts an error first.
pub proof fn a_closed_belief_leads_to_the_next_campaign(
    v: ElectorView,
    event: ElectorEvent,
    sim: nat,
    local: nat,
)
    requires
        v.place == ElectorPlace::Closing,
        has_room(v),
    ensures
        ({
            let turn = elector_script::stepped(v, event, sim, local);
            &&& campaigns_on(v, turn, sim)
            &&& turn.script.counters.errors == v.counters.errors + once(!(event is Elapsed)) + once(
                sim < v.deadline && has_stalled(v.terms.last, v.terms.stalls, sim),
            )
        }),
{
}

/// An elector that is done stays so.
pub proof fn done_stays_done(v: ElectorView, event: ElectorEvent, sim: nat, local: nat)
    requires
        v.place == ElectorPlace::Done,
    ensures
        elector_script::stepped(v, event, sim, local).action is Finish,
        elector_script::stepped(v, event, sim, local).script.place == ElectorPlace::Done,
        elector_script::stepped(v, event, sim, local).script.counters == v.counters,
{
}

/// Whether an elector leaves its work: it ends its belief in the log where the lease stands
/// and its end lies ahead, and otherwise just leaves.
pub open spec fn leaves(v: ElectorView, turn: WorkTurn, stands: bool, until: nat, local: nat) -> bool {
    if stands && local < until {
        turn.action == (WorkActionView::EndBelief { ballot: v.book.ballot })
            && turn.script.work_place == WorkPlace::Ending
    } else {
        turn.action is Leave && turn.script.work_place == WorkPlace::Left
    }
}

/// Whether an elector writes: within what is left of its lease, or leaves where nothing is.
pub open spec fn writes(v: ElectorView, turn: WorkTurn, until: nat, local: nat) -> bool {
    if local < until {
        turn.action == (WorkActionView::FencedWrite { within: (until - local) as nat })
            && turn.script.work_place == WorkPlace::Writing
    } else {
        turn.action is Leave && turn.script.work_place == WorkPlace::Left
    }
}

/// Whether a lease reaches further than what the log says.
pub open spec fn reaches_further(v: ElectorView, until: Duration) -> bool {
    v.book.logged_horizon is None || until@ > v.book.logged_horizon->Some_0@
}

/// Whether an elector works on: it leaves where the run or its lease is over, or its clock
/// has stalled; otherwise it logs a lease that reaches further than the logged one, or
/// writes.
pub open spec fn works_on(
    v: ElectorView,
    turn: WorkTurn,
    last: Option<nat>,
    stalls: u32,
    stands: bool,
    until: Duration,
    sim: nat,
    local: nat,
) -> bool {
    let over = sim >= v.deadline;
    let stalled = has_stalled(last, stalls, sim);
    &&& over || stalled || !stands ==> leaves(v, turn, stands, until@, local)
    &&& !over && stalled ==> turn.script.note == Some(ElectorNote::WorkStalled)
    &&& !over && !stalled && stands && reaches_further(v, until) ==> {
        &&& turn.action == (WorkActionView::BeginBelief { ballot: v.book.ballot, horizon: until@ })
        &&& turn.script.work_place == (WorkPlace::Beginning { first: false })
        &&& turn.script.horizon == until
    }
    &&& !over && !stalled && stands && !reaches_further(v, until) ==> writes(v, turn, until@, local)
}

/// An elector that won enters its term at its ballot and counts it; it logs its belief, and
/// then puts up its fence.
pub proof fn a_term_is_entered_with_a_belief_and_a_fence(
    v: ElectorView,
    ballot: u64,
    stands: bool,
    until: Duration,
    local: nat,
)
    requires
        has_room(v),
    ensures
        ({
            let turn = elector_script::entering(v, ballot, stands, until, local);
            &&& turn.script.counters.acquisitions == v.counters.acquisitions + 1
            &&& turn.script.counters.errors == v.counters.errors
            &&& turn.script.book.ballot == ballot
            &&& turn.script.book.logged_horizon == v.book.logged_horizon
            &&& reaches_further(v, until) ==> turn.action == (WorkActionView::BeginBelief {
                ballot,
                horizon: until@,
            }) && turn.script.work_place == (WorkPlace::Beginning { first: true })
                && turn.script.horizon == until
            &&& !reaches_further(v, until) ==> turn.action is InstallFence
                && turn.script.work_place == WorkPlace::Installing
        }),
{
}

/// A belief that was logged reaches as far as it said; the first leads to the fence, any
/// other to the next write. One that could not be logged ends the work with an error.
pub proof fn a_logged_belief_leads_on(
    v: ElectorView,
    first: bool,
    event: WorkEvent,
    stands: bool,
    until: Duration,
    sim: nat,
    local: nat,
)
    requires
        v.work_place == (WorkPlace::Beginning { first }),
        has_room(v),
    ensures
        ({
            let turn = elector_script::worked(v, event, stands, until, sim, local);
            &&& event is Elapsed ==> turn.script.book.logged_horizon == Some(v.horizon)
                && turn.script.book.ballot == v.book.ballot && turn.script.counters == v.counters
            &&& event is Elapsed && first ==> turn.action is InstallFence && turn.script.work_place
                == WorkPlace::Installing
            &&& event is Elapsed && !first && local < until@ ==> turn.action == (
            WorkActionView::FencedWrite { within: (until@ - local) as nat })
                && turn.script.work_place == WorkPlace::Writing
            &&& event is Elapsed && !first && local >= until@ ==> turn.action is Leave
            &&& !(event is Elapsed) ==> leaves(v, turn, stands, until@, local)
                && turn.script.counters.errors == v.counters.errors + 1 && turn.script.note == Some(
                ElectorNote::BeliefFailed,
            )
        }),
{
}

/// Once the fence is up the elector works, from now on and with a new guard; without a rank
/// it leaves, and where the fence failed it leaves with an error.
pub proof fn a_fence_begins_the_work(
    v: ElectorView,
    event: WorkEvent,
    stands: bool,
    until: Duration,
    sim: nat,
    local: nat,
)
    requires
        v.work_place == WorkPlace::Installing,
        has_room(v),
    ensures
        ({
            let turn = elector_script::worked(v, event, stands, until, sim, local);
            &&& event is Elapsed ==> works_on(v, turn, None, 0, stands, until, sim, local)
                && turn.script.cursor == local && turn.script.counters == v.counters
            &&& event is NoRank ==> leaves(v, turn, stands, until@, local) && turn.script.counters
                == v.counters
            &&& !(event is Elapsed) && !(event is NoRank) ==> leaves(v, turn, stands, until@, local)
                && turn.script.counters.errors == v.counters.errors + 1 && turn.script.note == Some(
                ElectorNote::FenceFailed,
            )
        }),
{
}

/// A write that came back counts as what came of it, and the elector waits for its next turn,
/// one step on; where that is due already it works on at once. Without a rank it leaves, and
/// where the write failed it leaves with an error.
pub proof fn a_write_leads_to_the_next_turn(
    v: ElectorView,
    work: Work,
    stands: bool,
    until: Duration,
    sim: nat,
    local: nat,
)
    requires
        v.work_place == WorkPlace::Writing,
        has_room(v),
        v.cursor + v.step <= duration::longest(),
    ensures
        ({
            let turn = elector_script::worked(
                v,
                WorkEvent::Worked(work),
                stands,
                until,
                sim,
                local,
            );
            let due = v.cursor + v.step;
            &&& turn.script.counters.fenced_applied == v.counters.fenced_applied + once(
                work is Committed,
            )
            &&& turn.script.counters.fenced_rejected == v.counters.fenced_rejected + once(
                work is Refused,
            )
            &&& turn.script.cursor == due
            &&& local < due ==> turn.action == (WorkActionView::Wait { span: (due - local) as nat })
                && turn.script.work_place == WorkPlace::Pacing
            &&& local >= due ==> works_on(
                v,
                turn,
                v.works.last,
                v.works.stalls,
                stands,
                until,
                sim,
                local,
            )
        }),
        ({
            let turn = elector_script::worked(v, WorkEvent::NoRank, stands, until, sim, local);
            leaves(v, turn, stands, until@, local) && turn.script.counters == v.counters
        }),
        ({
            let turn = elector_script::worked(v, WorkEvent::Failed, stands, until, sim, local);
            &&& leaves(v, turn, stands, until@, local)
            &&& turn.script.counters.errors == v.counters.errors + 1
            &&& turn.script.note == Some(ElectorNote::WriteFailed)
        }),
        ({
            let turn = elector_script::worked(v, WorkEvent::DelayFailed, stands, until, sim, local);
            &&& leaves(v, turn, stands, until@, local)
            &&& turn.script.counters.errors == v.counters.errors + 1
            &&& turn.script.note == Some(ElectorNote::DelayFailed)
        }),
{
}

/// After a wait the elector works on; a wait that failed ends the work with an error.
pub proof fn after_a_wait_the_elector_works_on(
    v: ElectorView,
    event: WorkEvent,
    stands: bool,
    until: Duration,
    sim: nat,
    local: nat,
)
    requires
        v.work_place == WorkPlace::Pacing,
        has_room(v),
    ensures
        ({
            let turn = elector_script::worked(v, event, stands, until, sim, local);
            &&& event is Elapsed ==> works_on(
                v,
                turn,
                v.works.last,
                v.works.stalls,
                stands,
                until,
                sim,
                local,
            )
            &&& !(event is Elapsed) ==> leaves(v, turn, stands, until@, local)
                && turn.script.counters.errors == v.counters.errors + 1 && turn.script.note == Some(
                ElectorNote::DelayFailed,
            )
        }),
{
}

/// A belief whose end was logged is ended, and the elector leaves; it leaves too where that
/// failed, with an error. Once it has left it does nothing more.
pub proof fn an_ended_belief_is_left(
    v: ElectorView,
    event: WorkEvent,
    stands: bool,
    until: Duration,
    sim: nat,
    local: nat,
)
    requires
        has_room(v),
    ensures
        v.work_place == WorkPlace::Ending ==> {
            let turn = elector_script::worked(v, event, stands, until, sim, local);
            &&& turn.action is Leave
            &&& turn.script.work_place == WorkPlace::Left
            &&& event is Elapsed ==> turn.script.book.ended && turn.script.counters == v.counters
            &&& !(event is Elapsed) ==> turn.script.book.ended == v.book.ended
                && turn.script.counters.errors == v.counters.errors + 1
            &&& turn.script.book.ballot == v.book.ballot
        },
        v.work_place == WorkPlace::Left ==> {
            let turn = elector_script::worked(v, event, stands, until, sim, local);
            turn.action is Leave && turn.script.work_place == WorkPlace::Left
                && turn.script.counters == v.counters
        },
{
}

/// An elector begins with nothing: no count, a blank book, guards that have seen nothing.
pub proof fn an_elector_begins_with_nothing(deadline: nat, step: nat, horizon: Duration)
    ensures
        ({
            let v = elector_script::fresh(deadline, step, horizon);
            &&& v.deadline == deadline && v.step == step
            &&& v.counters.acquisitions == 0 && v.counters.fenced_applied == 0
                && v.counters.fenced_rejected == 0 && v.counters.lease_losses == 0
                && v.counters.resigns == 0 && v.counters.errors == 0
            &&& v.book.ballot == 0 && v.book.logged_horizon is None && !v.book.ended
            &&& v.terms.last is None && v.terms.stalls == 0
            &&& v.works.last is None && v.works.stalls == 0
            &&& v.place == ElectorPlace::Leading && v.work_place == WorkPlace::Left
        }),
{
}

} // verus!
