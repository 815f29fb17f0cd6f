//! What a client of the lease simulation does next, event by event.

use crate::duration;
use crate::role_script;
use crate::role_script::{
    Fault, RoleActionView, RoleConfig, RoleEvent, RoleNote, RolePlace, RoleTurn, RoleView, TermView,
};
use crate::roles::{ClaimReply, Counters, RenewalReply, Role, Work};
use vstd::prelude::*;

verus! {

/// One where something holds, and nothing otherwise.
pub open spec fn once(holds: bool) -> int {
    if holds {
        1
    } else {
        0
    }
}

/// Whether no count is full.
pub open spec fn has_room(c: Counters) -> bool {
    &&& c.acquisitions < u64::MAX
    &&& c.renewals < u64::MAX
    &&& c.resigns < u64::MAX
    &&& c.denials < u64::MAX
    &&& c.superseded < u64::MAX
    &&& c.injected_unknowns < u64::MAX
    &&& c.recoveries_adopted < u64::MAX
    &&& c.lost < u64::MAX
    &&& c.crashes < u64::MAX
    &&& c.horizon_stops < u64::MAX
    &&& c.fenced_applied < u64::MAX
    &&& c.fenced_rejected < u64::MAX
    &&& c.sightings < u64::MAX
    &&& c.work_abandoned < u64::MAX
    &&& c.errors < u64::MAX
}

/// What a step moves: each count by one where its event calls for it, what was sighted where
/// the record was seen, and neither the role nor the run.
spec fn moves(v: RoleView, event: RoleEvent, turn: RoleTurn) -> bool {
    let c = turn.script.counters;
    let b = v.counters;
    let answered = v.place == RolePlace::Claiming && event is Claimed;
    let claim = event->Claimed_0;
    let renewed = event is Renewed && event->Renewed_0 is Refreshed;
    let lost = event is Renewed && event->Renewed_0 is Lost;
    let own = v.place == RolePlace::Fencing && event is Worked;
    let stale = v.place == RolePlace::StaleRenewing && event is Renewed;
    let work = event->Worked_0;
    let seen = event is Sighted && (v.place == RolePlace::Sighting || v.place
        == RolePlace::SuccessorSighting);
    let failed = turn.script.note == Some(RoleNote::Failed);
    &&& turn.script.role == v.role
    &&& turn.script.config == v.config
    &&& turn.script.start == v.start
    &&& turn.script.deadline == v.deadline
    &&& seen ==> turn.script.sighted == event->Sighted_0
    &&& !seen ==> turn.script.sighted == v.sighted
    &&& failed ==> turn.action is Finish && turn.script.place == RolePlace::Done
    &&& event is Failed && (v.place == RolePlace::Claiming || v.place == RolePlace::Believing
        || v.place == RolePlace::Sighting) ==> failed
    &&& has_room(b) ==> {
        &&& c.denials == b.denials + once(answered && claim is Denied)
        &&& c.superseded == b.superseded + once(answered && claim is Superseded)
        &&& c.acquisitions == b.acquisitions + once(answered && claim is Won)
        &&& c.recoveries_adopted == b.recoveries_adopted + once(
            answered && claim is Won && v.resumed,
        )
        &&& c.sightings == b.sightings + once(
            seen || (v.place == RolePlace::Arming && event is Armed),
        )
        &&& c.errors == b.errors + once(failed)
        &&& v.term is Some ==> {
            &&& c.renewals == b.renewals + once(
                renewed && (v.place == RolePlace::Renewing || v.place == RolePlace::StaleRenewing),
            )
            &&& c.lost == b.lost + once(
                (v.place == RolePlace::Renewing && lost) || (v.place is Resigning && event
                    is Resigned && !event->Resigned_0),
            )
            &&& c.resigns == b.resigns + once(
                v.place is Resigning && event is Resigned && event->Resigned_0,
            )
            &&& c.crashes == b.crashes + once(
                v.place == RolePlace::RollingCrash && event is Rolled && event->Rolled_0,
            )
            &&& c.fenced_applied == b.fenced_applied + once(
                (own && work is Committed) || (stale && v.stale is Committed),
            )
            &&& c.fenced_rejected == b.fenced_rejected + once(
                (own && work is Refused) || (stale && v.stale is Refused),
            )
            &&& c.work_abandoned == b.work_abandoned + once(
                (own && work is Abandoned) || (stale && v.stale is Abandoned),
            )
        }
    }
}

/// Whether a turn leaves the counts alone, but for the stops at a horizon, and the role, the
/// run and what was sighted too, and is no failure.
spec fn leaves_alone(v: RoleView, turn: RoleTurn) -> bool {
    let c = turn.script.counters;
    &&& c == (Counters { horizon_stops: c.horizon_stops, ..v.counters })
    &&& turn.script.role == v.role
    &&& turn.script.config == v.config
    &&& turn.script.start == v.start
    &&& turn.script.deadline == v.deadline
    &&& turn.script.sighted == v.sighted
    &&& turn.script.note == v.note || (turn.script.note is Some && turn.script.note->Some_0 is SleeperPausing)
}

proof fn going_on_leaves_alone()
    ensures
        forall|v: RoleView| leaves_alone(v, #[trigger] role_script::turned(v)),
{
    reveal(role_script::turned);
}

proof fn campaigning_leaves_alone()
    ensures
        forall|v: RoleView| leaves_alone(v, #[trigger] role_script::campaigned(v)),
        forall|v: RoleView, local: nat|
            leaves_alone(v, #[trigger] role_script::campaigning(v, local)),
        forall|v: RoleView| leaves_alone(v, #[trigger] role_script::believing(v)),
{
    going_on_leaves_alone();
    reveal(role_script::campaigned);
    reveal(role_script::campaigning);
    reveal(role_script::believing);
}

proof fn contending_leaves_alone()
    ensures
        forall|v: RoleView, sim: nat, local: nat|
            leaves_alone(v, #[trigger] role_script::contending(v, sim, local)),
{
    going_on_leaves_alone();
    campaigning_leaves_alone();
    reveal(role_script::contending);
    reveal(role_script::serving);
    reveal(role_script::stepping_down);
}

proof fn joining_leaves_alone()
    ensures
        forall|v: RoleView, sim: nat, local: nat|
            leaves_alone(v, #[trigger] role_script::joining(v, sim, local)),
        forall|v: RoleView, span: nat, sim: nat, local: nat|
            leaves_alone(v, #[trigger] role_script::pace_drawn(v, span, sim, local)),
{
    contending_leaves_alone();
    reveal(role_script::joining);
    reveal(role_script::pace_drawn);
}

proof fn a_campaign_moves_what_it_should(v: RoleView, event: RoleEvent, sim: nat, local: nat)
    requires
        v.note is None,
        v.place == RolePlace::Claiming || v.place == RolePlace::RollingDrop || v.place
            == RolePlace::DrawingDelay || v.place == RolePlace::LoggingUnknown || v.place
            == RolePlace::Believing,
    ensures
        moves(v, event, role_script::after_campaign(v, event, sim, local)),
{
    campaigning_leaves_alone();
    reveal(role_script::claimed);
    reveal(role_script::drop_rolled);
    reveal(role_script::dropped);
    reveal(role_script::believed);
}

proof fn service_moves_what_it_should(v: RoleView, term: TermView, event: RoleEvent, local: nat)
    requires
        v.note is None,
        v.term == Some(term),
        v.place == RolePlace::Renewing || v.place == RolePlace::BelievingOn || v.place
            == RolePlace::EndingLost || v.place == RolePlace::RollingCrash || v.place
            == RolePlace::Outlasting || v.place == RolePlace::RollingResign || v.place
            is EndingTerm || v.place is Resigning || v.place == RolePlace::Fencing,
    ensures
        moves(v, event, role_script::after_service(v, term, event, local)),
{
    going_on_leaves_alone();
    reveal(role_script::renewed);
    reveal(role_script::stepping_down);
    reveal(role_script::resigned);
    reveal(role_script::resign_rolled);
}

proof fn sleep_moves_what_it_should(v: RoleView, event: RoleEvent, sim: nat, local: nat)
    requires
        v.note is None,
        v.place == RolePlace::SleepDrawing || v.place == RolePlace::SleepPacing || v.place
            == RolePlace::Pausing || v.place == RolePlace::SuccessorSighting || v.place
            == RolePlace::SuccessorReading || v.place == RolePlace::SuccessorDrawing || v.place
            == RolePlace::SuccessorPacing || v.place == RolePlace::LoggingWoke || v.place
            == RolePlace::StaleWriting || v.place == RolePlace::StaleRenewing,
    ensures
        moves(v, event, role_script::after_sleep(v, event, sim, local)),
{
    campaigning_leaves_alone();
    joining_leaves_alone();
    reveal(role_script::dozing);
    reveal(role_script::awaiting_successor);
    reveal(role_script::woken);
}

proof fn rest_moves_what_it_should(v: RoleView, event: RoleEvent, sim: nat, local: nat)
    requires
        v.note is None,
        v.place == RolePlace::HoldingBack || v.place == RolePlace::Sighting || v.place
            == RolePlace::DrawingPace || v.place == RolePlace::Pacing || v.place
            == RolePlace::Arming || v.place == RolePlace::Watching || v.place
            == RolePlace::WatchDrawing || v.place == RolePlace::WatchPacing || v.place
            == RolePlace::Done,
    ensures
        moves(v, event, role_script::after_rest(v, event, sim, local)),
{
    contending_leaves_alone();
    campaigning_leaves_alone();
    joining_leaves_alone();
    reveal(role_script::dozing);
    reveal(role_script::beginning);
}

proof fn every_step_moves_what_it_should(v: RoleView, event: RoleEvent, sim: nat, local: nat)
    ensures
        moves(v, event, role_script::scripted(v, event, sim, local)),
{
    let q = RoleView { note: None, ..v };
    match v.place {
        RolePlace::Claiming
        | RolePlace::RollingDrop
        | RolePlace::DrawingDelay
        | RolePlace::LoggingUnknown
        | RolePlace::Believing => a_campaign_moves_what_it_should(q, event, sim, local),
        RolePlace::Renewing
        | RolePlace::BelievingOn
        | RolePlace::EndingLost
        | RolePlace::RollingCrash
        | RolePlace::Outlasting
        | RolePlace::RollingResign
        | RolePlace::EndingTerm { .. }
        | RolePlace::Resigning { .. }
        | RolePlace::Fencing => {
            if let Some(term) = v.term {
                service_moves_what_it_should(q, term, event, local);
            }
        },
        RolePlace::SleepDrawing
        | RolePlace::SleepPacing
        | RolePlace::Pausing
        | RolePlace::SuccessorSighting
        | RolePlace::SuccessorReading
        | RolePlace::SuccessorDrawing
        | RolePlace::SuccessorPacing
        | RolePlace::LoggingWoke
        | RolePlace::StaleWriting
        | RolePlace::StaleRenewing => sleep_moves_what_it_should(q, event, sim, local),
        _ => rest_moves_what_it_should(q, event, sim, local),
    }
}

/// A claim's answer counts once as what it is: denied, superseded, or won, and adopted where
/// the attempt had been lost track of. Nothing else moves these counts.
pub proof fn claims_are_counted_by_their_answers(v: RoleView, event: RoleEvent, sim: nat, local: nat)
    requires
        has_room(v.counters),
    ensures
        ({
            let c = role_script::scripted(v, event, sim, local).script.counters;
            let answered = v.place == RolePlace::Claiming && event is Claimed;
            let reply = event->Claimed_0;
            &&& c.denials == v.counters.denials + once(answered && reply is Denied)
            &&& c.superseded == v.counters.superseded + once(answered && reply is Superseded)
            &&& c.acquisitions == v.counters.acquisitions + once(answered && reply is Won)
            &&& c.recoveries_adopted == v.counters.recoveries_adopted + once(
                answered && reply is Won && v.resumed,
            )
        }),
{
    every_step_moves_what_it_should(v, event, sim, local);
}

/// A renewal counts where it went through, a loss where one did not or where a resignation
/// found the term gone, a resignation where it handed the term back, and a crash where one
/// was rolled.
pub proof fn service_is_counted_by_its_answers(v: RoleView, event: RoleEvent, sim: nat, local: nat)
    requires
        has_room(v.counters),
        v.term is Some,
    ensures
        ({
            let c = role_script::scripted(v, event, sim, local).script.counters;
            let renewed = event is Renewed && event->Renewed_0 is Refreshed;
            let lost = event is Renewed && event->Renewed_0 is Lost;
            &&& c.renewals == v.counters.renewals + once(
                renewed && (v.place == RolePlace::Renewing || v.place == RolePlace::StaleRenewing),
            )
            &&& c.lost == v.counters.lost + once(
                (v.place == RolePlace::Renewing && lost) || (v.place is Resigning && event
                    is Resigned && !event->Resigned_0),
            )
            &&& c.resigns == v.counters.resigns + once(
                v.place is Resigning && event is Resigned && event->Resigned_0,
            )
            &&& c.crashes == v.counters.crashes + once(
                v.place == RolePlace::RollingCrash && event is Rolled && event->Rolled_0,
            )
        }),
{
    every_step_moves_what_it_should(v, event, sim, local);
}

/// A fenced write counts as what came of it, when it comes back; the stale one of a sleeper
/// when the renewal it is owed with comes back.
pub proof fn writes_are_counted_by_what_came_of_them(
    v: RoleView,
    event: RoleEvent,
    sim: nat,
    local: nat,
)
    requires
        has_room(v.counters),
        v.term is Some,
    ensures
        ({
            let c = role_script::scripted(v, event, sim, local).script.counters;
            let own = v.place == RolePlace::Fencing && event is Worked;
            let stale = v.place == RolePlace::StaleRenewing && event is Renewed;
            let work = event->Worked_0;
            &&& c.fenced_applied == v.counters.fenced_applied + once(
                (own && work is Committed) || (stale && v.stale is Committed),
            )
            &&& c.fenced_rejected == v.counters.fenced_rejected + once(
                (own && work is Refused) || (stale && v.stale is Refused),
            )
            &&& c.work_abandoned == v.counters.work_abandoned + once(
                (own && work is Abandoned) || (stale && v.stale is Abandoned),
            )
        }),
{
    every_step_moves_what_it_should(v, event, sim, local);
}

/// A sighting counts where the record was seen, by a client between rounds, by a sleeper that
/// waits for its successor, and by a watcher; and what was seen is kept.
pub proof fn sightings_are_counted_where_the_record_was_seen(
    v: RoleView,
    event: RoleEvent,
    sim: nat,
    local: nat,
)
    requires
        has_room(v.counters),
    ensures
        ({
            let next = role_script::scripted(v, event, sim, local).script;
            let seen = event is Sighted && (v.place == RolePlace::Sighting || v.place
                == RolePlace::SuccessorSighting);
            &&& next.counters.sightings == v.counters.sightings + once(
                seen || (v.place == RolePlace::Arming && event is Armed),
            )
            &&& seen ==> next.sighted == event->Sighted_0
            &&& !seen ==> next.sighted == v.sighted
        }),
{
    every_step_moves_what_it_should(v, event, sim, local);
}

/// An error counts exactly where the client gives up: with a note that it failed, and nothing
/// further to do.
pub proof fn an_error_ends_a_client(v: RoleView, event: RoleEvent, sim: nat, local: nat)
    requires
        has_room(v.counters),
    ensures
        ({
            let turn = role_script::scripted(v, event, sim, local);
            let failed = turn.script.note == Some(RoleNote::Failed);
            &&& turn.script.counters.errors == v.counters.errors + once(failed)
            &&& failed ==> turn.action is Finish && turn.script.place == RolePlace::Done
            &&& event is Failed && (v.place == RolePlace::Claiming || v.place
                == RolePlace::Believing || v.place == RolePlace::Sighting) ==> failed
        }),
{
    every_step_moves_what_it_should(v, event, sim, local);
}

/// A client stays in its role and its run: role, configuration, start and deadline never
/// change.
pub proof fn a_client_keeps_its_role_and_its_run(v: RoleView, event: RoleEvent, sim: nat, local: nat)
    ensures
        ({
            let next = role_script::scripted(v, event, sim, local).script;
            &&& next.role == v.role
            &&& next.config == v.config
            &&& next.start == v.start
            &&& next.deadline == v.deadline
        }),
{
    every_step_moves_what_it_should(v, event, sim, local);
}

/// Whether a client that is between two things goes on to the next: it looks at the record
/// every other time, and otherwise draws how long to wait.
pub open spec fn goes_on(steps: u64, turn: RoleTurn) -> bool {
    if steps % 2 == 0 {
        turn.action is Sight && turn.script.place == RolePlace::Sighting && turn.script.steps
            == steps
    } else {
        turn.action is Jitter && turn.script.place == RolePlace::DrawingPace && (steps < u64::MAX
            ==> turn.script.steps == steps + 1)
    }
}

/// A client that has waited and has no term claims one while the run lasts: a new attempt
/// under the next number, or the one it lost track of once its time has come. Before that it
/// goes on, and after the run it is done.
pub proof fn without_a_term_a_client_claims(v: RoleView, event: RoleEvent, sim: nat, local: nat)
    requires
        v.place == RolePlace::Pacing,
        v.term is None,
        !v.asleep,
        v.attempt_id < u64::MAX,
    ensures
        ({
            let turn = role_script::scripted(v, event, sim, local);
            &&& sim >= v.deadline ==> turn.action is Finish && turn.script.place == RolePlace::Done
            &&& sim < v.deadline && v.resume_at is None ==> {
                &&& turn.action == (RoleActionView::Claim {
                    resumed: false,
                    attempt_id: (v.attempt_id + 1) as u64,
                })
                &&& turn.script.attempt_id == v.attempt_id + 1
                &&& turn.script.place == RolePlace::Claiming
                &&& !turn.script.resumed
            }
            &&& sim < v.deadline && v.resume_at is Some && v.resume_at->Some_0 <= local ==> {
                &&& turn.action == (RoleActionView::Claim {
                    resumed: true,
                    attempt_id: v.attempt_id,
                })
                &&& turn.script.attempt_id == v.attempt_id
                &&& turn.script.place == RolePlace::Claiming
                &&& turn.script.resumed
                &&& turn.script.resume_at is None
            }
            &&& sim < v.deadline && v.resume_at is Some && local < v.resume_at->Some_0 ==> goes_on(
                v.steps,
                turn,
            ) && turn.script.resume_at == v.resume_at
        }),
{
    reveal(role_script::contending);
    reveal(role_script::campaigning);
    reveal(role_script::campaigned);
    reveal(role_script::turned);
}

/// A client that has waited and holds a term serves it while the run lasts: it stops where
/// its horizon has passed, renews where that is due, and otherwise rolls for a crash. After
/// the run it steps down.
pub proof fn with_a_term_a_client_serves_it(
    v: RoleView,
    term: TermView,
    event: RoleEvent,
    sim: nat,
    local: nat,
)
    requires
        v.place == RolePlace::Pacing,
        v.term == Some(term),
        has_room(v.counters),
    ensures
        ({
            let turn = role_script::scripted(v, event, sim, local);
            let over = local >= term.horizon;
            &&& sim < v.deadline && over ==> {
                &&& turn.script.term is None
                &&& turn.script.counters.horizon_stops == v.counters.horizon_stops + 1
                &&& goes_on(v.steps, turn)
            }
            &&& sim < v.deadline && !over && local >= term.renew_due ==> turn.action is Renew
                && turn.script.place == RolePlace::Renewing && turn.script.term == v.term
            &&& sim < v.deadline && !over && local < term.renew_due ==> turn.action == (
            RoleActionView::Roll { fault: Fault::Crash }) && turn.script.place
                == RolePlace::RollingCrash && turn.script.term == v.term
            &&& sim >= v.deadline && !over ==> turn.action is EndBelief && turn.script.place == (
            RolePlace::EndingTerm { last: true }) && turn.script.term == v.term
            &&& sim >= v.deadline && over ==> turn.action is Resign && turn.script.place == (
            RolePlace::Resigning { last: true }) && turn.script.term == v.term
        }),
{
    reveal(role_script::contending);
    reveal(role_script::serving);
    reveal(role_script::stepping_down);
    reveal(role_script::turned);
}

/// A claim that won and whose horizon lies ahead begins a belief at the ballot it won, up to
/// that horizon; unless it is a contender's own first-hand claim in a run that forces
/// recoveries: then it rolls for losing the reply. One whose horizon has passed leads to
/// nothing but a count.
pub proof fn a_win_begins_a_belief_in_time(
    v: RoleView,
    ballot: u64,
    acquired_at: duration::Duration,
    sim: nat,
    local: nat,
)
    requires
        v.place == RolePlace::Claiming,
        has_room(v.counters),
    ensures
        ({
            let event = RoleEvent::Claimed(ClaimReply::Won { ballot, acquired_at });
            let turn = role_script::scripted(v, event, sim, local);
            let horizon = v.config.timing.horizon(acquired_at@);
            let dropped = !v.resumed && v.config.forced_recovery && v.role == Role::Contender;
            &&& turn.script.ballot == ballot
            &&& turn.script.acquired_at == acquired_at@
            &&& turn.script.term is None
            &&& turn.script.counters.horizon_stops == v.counters.horizon_stops + once(
                local >= horizon,
            )
            &&& local >= horizon ==> !(turn.action is BeginBelief) && !(turn.action is Roll)
                && turn.script.note == Some(RoleNote::ClaimOutlived { ballot })
            &&& local < horizon && dropped ==> turn.action == (RoleActionView::Roll {
                fault: Fault::DropReply,
            }) && turn.script.place == RolePlace::RollingDrop
            &&& local < horizon && !dropped ==> turn.action == (RoleActionView::BeginBelief {
                ballot,
                horizon,
            }) && turn.script.place == RolePlace::Believing
        }),
{
    reveal(role_script::claimed);
    reveal(role_script::believing);
    reveal(role_script::campaigned);
    reveal(role_script::turned);
}

/// A reply is lost where the roll says so or none was lost before, and only while enough of
/// the run is left to recover from it; otherwise the belief begins.
pub proof fn a_reply_is_lost_while_there_is_time_to_recover(
    v: RoleView,
    roll: bool,
    sim: nat,
    local: nat,
)
    requires
        v.place == RolePlace::RollingDrop,
        v.start <= sim,
        sim - v.start + v.config.longest_recovery@ <= duration::longest(),
        has_room(v.counters),
    ensures
        ({
            let turn = role_script::scripted(v, RoleEvent::Rolled(roll), sim, local);
            let lost = (roll || !v.injected_once) && sim - v.start + v.config.longest_recovery@
                < v.config.timing.test_duration@;
            let first = v.counters.injected_unknowns == 0;
            let (longest, step) = (v.config.longest_wait@, v.config.timing.step@);
            &&& !lost ==> turn.action == (RoleActionView::BeginBelief {
                ballot: v.ballot,
                horizon: v.config.timing.horizon(v.acquired_at),
            }) && turn.script.place == RolePlace::Believing && turn.script.injected_once
                == v.injected_once
            &&& lost ==> turn.script.injected_once
            &&& lost && first ==> turn.action is Jitter && turn.script.place
                == RolePlace::DrawingDelay
            &&& lost && !first && longest > step ==> turn.action == (RoleActionView::DrawDelay {
                spread: (longest - step) as nat,
            }) && turn.script.place == RolePlace::DrawingDelay
            &&& lost && !first && longest <= step ==> turn.action == (RoleActionView::LogUnknown {
                attempt_id: v.attempt_id,
                ballot: v.ballot,
            }) && turn.script.delay == step && turn.script.place == RolePlace::LoggingUnknown
            &&& turn.script.counters.injected_unknowns == v.counters.injected_unknowns + once(
                lost && !first && longest <= step,
            )
        }),
{
    reveal(role_script::drop_rolled);
    reveal(role_script::believing);
}

/// A lost reply is logged with the attempt and the ballot it was about, and the attempt is
/// taken up again after the delay that was drawn.
pub proof fn a_lost_reply_is_logged_and_taken_up_again(
    v: RoleView,
    span: duration::Duration,
    sim: nat,
    local: nat,
)
    requires
        has_room(v.counters),
        !v.asleep,
    ensures
        v.place == RolePlace::DrawingDelay ==> {
            let turn = role_script::scripted(v, RoleEvent::Drawn(span), sim, local);
            &&& turn.action == (RoleActionView::LogUnknown {
                attempt_id: v.attempt_id,
                ballot: v.ballot,
            })
            &&& turn.script.delay == span@
            &&& turn.script.place == RolePlace::LoggingUnknown
            &&& turn.script.counters.injected_unknowns == v.counters.injected_unknowns + 1
        },
        v.place == RolePlace::LoggingUnknown && local + v.delay <= duration::longest() ==> {
            let turn = role_script::scripted(v, RoleEvent::Elapsed, sim, local);
            &&& turn.script.resume_at == Some((local + v.delay) as nat)
            &&& turn.script.term is None
            &&& turn.script.attempt_id == v.attempt_id
            &&& turn.script.note == Some(RoleNote::ReplyDropped { ballot: v.ballot })
            &&& goes_on(v.steps, turn)
        },
{
    reveal(role_script::dropped);
    reveal(role_script::campaigned);
    reveal(role_script::turned);
}

/// Once its belief is logged a client holds the term it won: that ballot, the horizon and the
/// renewal that its anchor gives, and nothing written yet.
pub proof fn a_logged_belief_is_a_term_held(v: RoleView, sim: nat, local: nat)
    requires
        v.place == RolePlace::Believing,
    ensures
        ({
            let turn = role_script::scripted(v, RoleEvent::Elapsed, sim, local);
            &&& turn.script.term matches Some(term)
            &&& term.ballot == v.ballot
            &&& term.horizon == v.config.timing.horizon(v.acquired_at)
            &&& term.renew_due == v.config.timing.renewal(v.acquired_at)
            &&& term.sequence == 0
            &&& !v.asleep ==> goes_on(v.steps, turn)
            &&& v.asleep ==> turn.action is Pause && turn.script.place == RolePlace::Pausing
                && turn.script.note == Some(RoleNote::SleeperPausing { ballot: v.ballot })
        }),
{
    reveal(role_script::believed);
    reveal(role_script::campaigned);
    reveal(role_script::turned);
}

/// A renewal that went through carries the term on, at its ballot and sequence, to the
/// horizon and the renewal that its new anchor gives, and that belief is logged; unless that
/// horizon has passed: then the term is over. One that was lost ends the belief, in the log
/// too where its horizon still lies ahead.
pub proof fn a_renewal_carries_the_term_on(
    v: RoleView,
    term: TermView,
    reply: RenewalReply,
    sim: nat,
    local: nat,
)
    requires
        v.place == RolePlace::Renewing,
        v.term == Some(term),
        has_room(v.counters),
    ensures
        ({
            let turn = role_script::scripted(v, RoleEvent::Renewed(reply), sim, local);
            match reply {
                RenewalReply::Refreshed { acquired_at } => {
                    let horizon = v.config.timing.horizon(acquired_at@);
                    &&& turn.script.counters.horizon_stops == v.counters.horizon_stops + once(
                        local >= horizon,
                    )
                    &&& local >= horizon ==> turn.script.term is None && goes_on(v.steps, turn)
                    &&& local < horizon ==> {
                        &&& turn.action == (RoleActionView::BeginBelief {
                            ballot: term.ballot,
                            horizon,
                        })
                        &&& turn.script.place == RolePlace::BelievingOn
                        &&& turn.script.term is Some
                        &&& turn.script.term->Some_0.ballot == term.ballot
                        &&& turn.script.term->Some_0.sequence == term.sequence
                        &&& turn.script.term->Some_0.horizon == horizon
                        &&& turn.script.term->Some_0.renew_due == v.config.timing.renewal(
                            acquired_at@,
                        )
                    }
                },
                RenewalReply::Lost => {
                    &&& turn.script.counters.horizon_stops == v.counters.horizon_stops
                    &&& local < term.horizon ==> turn.action is EndBelief && turn.script.place
                        == RolePlace::EndingLost
                    &&& local >= term.horizon ==> turn.script.term is None && goes_on(v.steps, turn)
                },
            }
        }),
{
    reveal(role_script::renewed);
    reveal(role_script::turned);
}

/// What a client that serves a term does after each roll and answer: a crash is outlasted and
/// ends the term, a resignation ends the belief first while it lasts, a fenced write takes
/// the next sequence and may take until the horizon, and a handed-back term ends the client
/// or lets it go on.
pub proof fn a_term_is_served_step_by_step(
    v: RoleView,
    term: TermView,
    roll: bool,
    sim: nat,
    local: nat,
)
    requires
        v.term == Some(term),
        term.sequence < u32::MAX,
        has_room(v.counters),
    ensures
        v.place == RolePlace::RollingCrash ==> {
            let turn = role_script::scripted(v, RoleEvent::Rolled(roll), sim, local);
            &&& roll ==> turn.action is Outlast && turn.script.place == RolePlace::Outlasting
                && turn.script.note == Some(RoleNote::SoftCrash { ballot: term.ballot })
            &&& !roll ==> turn.action == (RoleActionView::Roll { fault: Fault::Resign })
                && turn.script.place == RolePlace::RollingResign
            &&& turn.script.term == v.term
        },
        v.place == RolePlace::RollingResign ==> {
            let turn = role_script::scripted(v, RoleEvent::Rolled(roll), sim, local);
            &&& roll && local < term.horizon ==> turn.action is EndBelief && turn.script.place == (
            RolePlace::EndingTerm { last: false })
            &&& roll && local >= term.horizon ==> turn.action is Resign && turn.script.place == (
            RolePlace::Resigning { last: false })
            &&& !roll && local >= term.horizon ==> goes_on(v.steps, turn) && turn.script.term
                == v.term
            &&& !roll && local < term.horizon ==> {
                &&& turn.action == (RoleActionView::FencedWrite {
                    ballot: term.ballot,
                    sequence: (term.sequence + 1) as u32,
                    within: Some((term.horizon - local) as nat),
                })
                &&& turn.script.place == RolePlace::Fencing
                &&& turn.script.term is Some
                &&& turn.script.term->Some_0.sequence == term.sequence + 1
                &&& turn.script.term->Some_0.ballot == term.ballot
                &&& turn.script.term->Some_0.horizon == term.horizon
                &&& turn.script.term->Some_0.renew_due == term.renew_due
            }
        },
        v.place == RolePlace::Outlasting ==> {
            let turn = role_script::scripted(v, RoleEvent::Elapsed, sim, local);
            turn.script.term is None && goes_on(v.steps, turn)
        },
        v.place == RolePlace::EndingLost ==> {
            let turn = role_script::scripted(v, RoleEvent::Elapsed, sim, local);
            turn.script.term is None && goes_on(v.steps, turn)
        },
        v.place == RolePlace::BelievingOn ==> {
            let turn = role_script::scripted(v, RoleEvent::Elapsed, sim, local);
            turn.script.term == v.term && goes_on(v.steps, turn)
        },
        v.place is EndingTerm ==> {
            let turn = role_script::scripted(v, RoleEvent::Elapsed, sim, local);
            &&& turn.action is Resign
            &&& turn.script.place == (RolePlace::Resigning { last: v.place->EndingTerm_last })
            &&& turn.script.term == v.term
        },
        v.place is Resigning ==> {
            let turn = role_script::scripted(v, RoleEvent::Resigned(roll), sim, local);
            &&& turn.script.term is None
            &&& v.place->Resigning_last ==> turn.action is Finish && turn.script.place
                == RolePlace::Done
            &&& !v.place->Resigning_last ==> goes_on(v.steps, turn)
        },
{
    reveal(role_script::stepping_down);
    reveal(role_script::resigned);
    reveal(role_script::resign_rolled);
    reveal(role_script::turned);
}

/// A client between rounds waits as long as it drew, and with a term no longer than until its
/// renewal is due; where nothing is left to wait it goes straight on.
pub proof fn a_client_waits_no_longer_than_until_its_renewal(
    v: RoleView,
    span: duration::Duration,
    sim: nat,
    local: nat,
)
    requires
        v.place == RolePlace::DrawingPace,
    ensures
        ({
            let turn = role_script::scripted(v, RoleEvent::Drawn(span), sim, local);
            &&& v.term is None ==> turn.action == (RoleActionView::Wait { span: span@ })
                && turn.script.place == RolePlace::Pacing
            &&& v.term matches Some(term) ==> {
                &&& local < term.renew_due && span@ > 0 ==> turn.script.place == RolePlace::Pacing
                    && turn.action == (RoleActionView::Wait {
                    span: if span@ <= term.renew_due - local {
                        span@
                    } else {
                        (term.renew_due - local) as nat
                    },
                })
                &&& local >= term.renew_due ==> !(turn.action is Wait)
            }
        }),
{
    reveal(role_script::pace_drawn);
    reveal(role_script::contending);
    reveal(role_script::serving);
    reveal(role_script::stepping_down);
    reveal(role_script::turned);
}

/// A look at the record leads to drawing how long to wait, one step on.
pub proof fn after_a_look_a_client_waits(v: RoleView, sighted: Option<u64>, sim: nat, local: nat)
    requires
        v.place == RolePlace::Sighting,
        v.steps < u64::MAX,
    ensures
        ({
            let turn = role_script::scripted(v, RoleEvent::Sighted(sighted), sim, local);
            &&& turn.action is Jitter
            &&& turn.script.place == RolePlace::DrawingPace
            &&& turn.script.steps == v.steps + 1
            &&& turn.script.term == v.term
        }),
{
}

/// A watcher arms its watch while the run lasts and waits for a change where it is armed, and
/// for a while where it is not; after the run it is done. It never claims.
pub proof fn a_watcher_watches_while_the_run_lasts(v: RoleView, event: RoleEvent, sim: nat, local: nat)
    requires
        v.place == RolePlace::Watching || v.place == RolePlace::WatchPacing || (v.place
            == RolePlace::HoldingBack && v.role == Role::Watcher),
    ensures
        ({
            let turn = role_script::scripted(v, event, sim, local);
            &&& sim < v.deadline ==> turn.action is Watch && turn.script.place == RolePlace::Arming
            &&& sim >= v.deadline ==> turn.action is Finish && turn.script.place == RolePlace::Done
        }),
{
    reveal(role_script::beginning);
}

/// An armed watch is waited on; one that is not is tried again after a draw.
pub proof fn a_watch_is_waited_on_where_it_is_armed(
    v: RoleView,
    armed: bool,
    span: duration::Duration,
    sim: nat,
    local: nat,
)
    ensures
        v.place == RolePlace::Arming ==> {
            let turn = role_script::scripted(v, RoleEvent::Armed(armed), sim, local);
            &&& armed ==> turn.action is AwaitChange && turn.script.place == RolePlace::Watching
            &&& !armed ==> turn.action is Jitter && turn.script.place == RolePlace::WatchDrawing
        },
        v.place == RolePlace::WatchDrawing ==> {
            let turn = role_script::scripted(v, RoleEvent::Drawn(span), sim, local);
            turn.action == (RoleActionView::Wait { span: span@ }) && turn.script.place
                == RolePlace::WatchPacing
        },
{
}

/// A sleeper campaigns until it leads, and is done where the run ends first.
pub proof fn a_sleeper_campaigns_until_it_leads(
    v: RoleView,
    span: duration::Duration,
    event: RoleEvent,
    sim: nat,
    local: nat,
)
    requires
        v.attempt_id < u64::MAX,
    ensures
        v.place == RolePlace::SleepDrawing ==> {
            let turn = role_script::scripted(v, RoleEvent::Drawn(span), sim, local);
            turn.action == (RoleActionView::Wait { span: span@ }) && turn.script.place
                == RolePlace::SleepPacing
        },
        v.place == RolePlace::SleepPacing || (v.place == RolePlace::HoldingBack && v.role
            == Role::Sleeper) ==> {
            let turn = role_script::scripted(v, event, sim, local);
            &&& sim >= v.deadline ==> turn.action is Finish && turn.script.note == Some(
                RoleNote::SleeperNeverLed,
            )
            &&& sim < v.deadline && v.resume_at is None ==> turn.script.asleep && turn.action == (
            RoleActionView::Claim { resumed: false, attempt_id: (v.attempt_id + 1) as u64 })
        },
{
    reveal(role_script::dozing);
    reveal(role_script::campaigning);
    reveal(role_script::beginning);
}

/// A sleeper that paused looks for its successor until the run ends: it wakes where both the
/// record and the register are past its ballot, and otherwise looks again after a draw. Where
/// the run ends first it joins the others without its term.
pub proof fn a_sleeper_wakes_to_a_successor(
    v: RoleView,
    term: TermView,
    writer: Option<u64>,
    span: duration::Duration,
    event: RoleEvent,
    sim: nat,
    local: nat,
)
    requires
        v.term == Some(term),
    ensures
        v.place == RolePlace::Pausing || v.place == RolePlace::SuccessorPacing ==> {
            let turn = role_script::scripted(v, event, sim, local);
            &&& sim < v.deadline ==> turn.action is Sight && turn.script.place
                == RolePlace::SuccessorSighting && turn.script.term == v.term
            &&& sim >= v.deadline ==> turn.action is Finish && turn.script.term is None
                && turn.script.note == Some(RoleNote::SleeperBarrierUnmet { ballot: term.ballot })
        },
        v.place == RolePlace::SuccessorReading ==> {
            let turn = role_script::scripted(v, RoleEvent::Wrote(writer), sim, local);
            let woken = v.sighted is Some && v.sighted->Some_0 > term.ballot && writer is Some
                && writer->Some_0 > term.ballot;
            &&& woken ==> turn.action == (RoleActionView::LogWoke { ballot: term.ballot })
                && turn.script.place == RolePlace::LoggingWoke
            &&& !woken ==> turn.action is Jitter && turn.script.place
                == RolePlace::SuccessorDrawing
            &&& turn.script.term == v.term
        },
        v.place == RolePlace::SuccessorDrawing ==> {
            let turn = role_script::scripted(v, RoleEvent::Drawn(span), sim, local);
            turn.action == (RoleActionView::Wait { span: span@ }) && turn.script.place
                == RolePlace::SuccessorPacing && turn.script.term == v.term
        },
{
    reveal(role_script::awaiting_successor);
    reveal(role_script::joining);
    reveal(role_script::contending);
}

/// A woken sleeper tries both stale operations under the ballot it had: a write at the next
/// sequence, with no time limit, then a renewal. It then joins the others without its term,
/// and says what came of both.
pub proof fn a_woken_sleeper_tries_both_stale_operations(
    v: RoleView,
    term: TermView,
    work: Work,
    reply: RenewalReply,
    sim: nat,
    local: nat,
)
    requires
        v.term == Some(term),
        term.sequence < u32::MAX,
    ensures
        v.place == RolePlace::LoggingWoke ==> {
            let turn = role_script::scripted(v, RoleEvent::Elapsed, sim, local);
            &&& turn.action == (RoleActionView::FencedWrite {
                ballot: term.ballot,
                sequence: (term.sequence + 1) as u32,
                within: None,
            })
            &&& turn.script.place == RolePlace::StaleWriting
            &&& turn.script.term == v.term
        },
        v.place == RolePlace::StaleWriting ==> {
            let turn = role_script::scripted(v, RoleEvent::Worked(work), sim, local);
            &&& turn.action is Renew
            &&& turn.script.place == RolePlace::StaleRenewing
            &&& turn.script.stale == work
            &&& turn.script.term == v.term
        },
        v.place == RolePlace::StaleRenewing ==> {
            let turn = role_script::scripted(v, RoleEvent::Renewed(reply), sim, local);
            &&& turn.script.term is None
            &&& !turn.script.asleep
            &&& turn.script.note == Some(
                RoleNote::SleeperWokeUp {
                    ballot: term.ballot,
                    committed: v.stale == Work::Committed,
                    renewed: reply is Refreshed,
                },
            )
            &&& sim >= v.deadline ==> turn.action is Finish
        },
{
    reveal(role_script::woken);
    reveal(role_script::joining);
    reveal(role_script::contending);
    reveal(role_script::campaigning);
    reveal(role_script::campaigned);
    reveal(role_script::turned);
}

/// A client begins with nothing: no count, no attempt, no term, and a deadline that lies the
/// run's length ahead.
pub proof fn a_client_begins_with_nothing(role: Role, config: RoleConfig, sim: nat)
    requires
        sim + config.timing.test_duration@ <= duration::longest(),
    ensures
        ({
            let v = role_script::fresh(role, config, sim);
            &&& v.role == role && v.config == config && v.start == sim && v.deadline == sim
                + config.timing.test_duration@
            &&& v.attempt_id == 0 && !v.resumed && v.resume_at is None && !v.injected_once
                && v.steps == 0 && v.term is None && v.sighted is None && !v.asleep
            &&& v.counters.acquisitions == 0 && v.counters.renewals == 0 && v.counters.resigns == 0
            &&& v.counters.denials == 0 && v.counters.superseded == 0
                && v.counters.injected_unknowns == 0 && v.counters.recoveries_adopted == 0
            &&& v.counters.lost == 0 && v.counters.crashes == 0 && v.counters.horizon_stops == 0
            &&& v.counters.fenced_applied == 0 && v.counters.fenced_rejected == 0
                && v.counters.sightings == 0 && v.counters.work_abandoned == 0 && v.counters.errors
                == 0
        }),
{
}

/// Everybody but a sleeper holds back for the head start, if there is one.
pub proof fn all_but_the_sleeper_hold_back(role: Role, config: RoleConfig, sim: nat, local: nat)
    ensures
        ({
            let turn = role_script::begun(role, config, sim, local);
            role != Role::Sleeper && config.head_start@ > 0 ==> turn.action == (
            RoleActionView::Wait { span: config.head_start@ }) && turn.script.place
                == RolePlace::HoldingBack
        }),
{
}

/// A client that does not hold back begins at once: a watcher arms its watch, anybody else
/// makes its first attempt, and only a sleeper does so asleep.
pub proof fn whoever_does_not_hold_back_begins(role: Role, config: RoleConfig, sim: nat, local: nat)
    requires
        role == Role::Sleeper || config.head_start@ == 0,
        config.timing.test_duration@ > 0,
        sim + config.timing.test_duration@ <= duration::longest(),
    ensures
        ({
            let turn = role_script::begun(role, config, sim, local);
            &&& role == Role::Watcher ==> turn.action is Watch
            &&& role != Role::Watcher ==> turn.action is Claim
                && turn.action->Claim_attempt_id == 1 && !turn.action->Claim_resumed
            &&& turn.script.asleep <==> role == Role::Sleeper
        }),
{
    let v = role_script::fresh(role, config, sim);
    assert(v.deadline > sim);
    reveal(role_script::beginning);
    match role {
        Role::Watcher => {},
        Role::Sleeper => {
            reveal(role_script::dozing);
            reveal(role_script::campaigning);
        },
        Role::Contender => {
            reveal(role_script::contending);
            reveal(role_script::campaigning);
        },
    }
}

} // verus!
