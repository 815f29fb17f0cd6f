//! What a client of the leader-lease simulation does next, step by step.

use crate::duration;
use crate::judgement_laws;
use crate::lease_driver;
use crate::lease_driver::{
    ActionView, AfterForeign, AfterStale, Barrier, Breach, DriverView, EventView, Mishap, Note,
    Place, RunView, Status, Tally, WhoView,
};
use crate::lease_plan;
use crate::lease_plan::{AdoptionDelay, Plan};
use crate::lease_records::PollTransition;
use crate::lease_types::{LocalView, TokenView};
use vstd::prelude::*;

verus! {

// ---------------------------------------------------------------------------
// What a client keeps
// ---------------------------------------------------------------------------

/// A caller's leadership is there exactly where it leads, with all it says; and a sighting
/// runs out a lease after it was made.
pub proof fn what_a_caller_holds_and_waits_for(local: LocalView)
    ensures
        match lease_driver::leadership_of(local) {
            Some(t) => local is Leadership && t.participant == local->Leadership_participant
                && t.rank == local->Leadership_rank && t.lease_duration
                == local->Leadership_lease_duration && t.renewed_at == local->Leadership_renewed_at,
            None => !(local is Leadership),
        },
        match lease_driver::expiry_of(local) {
            Some(expiry) => local is Observation && (local->Observation_observed_at
                + local->Observation_lease_duration <= duration::longest() ==> expiry
                == local->Observation_observed_at + local->Observation_lease_duration),
            None => !(local is Observation),
        },
{
}

/// The barriers and statuses go by their words.
pub proof fn barriers_and_statuses_go_by_their_words()
    ensures
        Barrier::Ready.label() == "ready"@,
        Barrier::Observed.label() == "observed"@,
        Barrier::Expired.label() == "expired"@,
        Barrier::Done.label() == "done"@,
        Status::Ready.word() == "ready"@,
        Status::Contended.word() == "contended"@,
        Status::Incumbent.word() == "incumbent"@,
        Status::Error.word() == "error"@,
{
}

/// A status is counted once for each place it stands at.
pub proof fn statuses_are_counted_by_their_places(statuses: Seq<Seq<u8>>, status: Status, n: int)
    requires
        0 <= n <= statuses.len(),
    ensures
        lease_driver::count_of(statuses, status, n) == judgement_laws::places(
            |k: int| statuses[k] == status.spelled(),
            n,
        ).len(),
    decreases n,
{
    let stands = |k: int| statuses[k] == status.spelled();
    judgement_laws::places_are_finite(stands, n);
    if n > 0 {
        statuses_are_counted_by_their_places(statuses, status, n - 1);
        judgement_laws::places_grow_by_one(stands, n);
        assert((|k: int| statuses[k] == status.spelled()) =~= stands);
    }
}

/// An error counts once, and is noted with what failed and under which number; nothing else
/// changes.
pub proof fn an_error_is_counted_and_noted(d: DriverView, mishap: Mishap, op_num: u64)
    requires
        d.tally.run_errors < u64::MAX,
    ensures
        ({
            let r = lease_driver::failed(d, mishap, op_num);
            &&& r.tally.run_errors == d.tally.run_errors + 1
            &&& r.notes == d.notes.push(Note::Failure { mishap, op_num })
            &&& r.who == d.who && r.place == d.place && r.cursor == d.cursor && r.spans == d.spans
            &&& r.tally.op_num == d.tally.op_num && r.tally.issued == d.tally.issued
        }),
{
}

/// A breach is noted with the number of the operation that showed it, and counts no error.
pub proof fn a_breach_is_noted(d: DriverView, breach: Breach)
    ensures
        ({
            let r = lease_driver::accused(d, breach);
            &&& r.notes == d.notes.push(Note::Broken { breach, op_num: d.tally.issued })
            &&& r.tally == d.tally
            &&& r.who == d.who
        }),
{
}

/// A client that is born again is another incarnation under another name, and has forgotten
/// all it knew.
pub proof fn a_new_incarnation_knows_nothing(d: DriverView, label: Seq<char>)
    requires
        d.who.incarnation < u64::MAX,
    ensures
        ({
            let r = lease_driver::reborn(d, label);
            &&& r.who.incarnation == d.who.incarnation + 1
            &&& r.who.participant == lease_plan::incarnation_name(
                label,
                d.plan.client_id,
                d.plan.process_id,
                (d.who.incarnation + 1) as u64,
            )
            &&& r.who.local_state is Unknown
            &&& r.who.last_leadership is None
            &&& r.who.stale_leadership is None
            &&& r.tally == d.tally && r.cursor == d.cursor && r.plan == d.plan && r.notes == d.notes
        }),
{
}

/// Every operation takes the next number, and its own stays known.
pub proof fn an_operation_takes_the_next_number(d: DriverView)
    requires
        d.tally.op_num < u64::MAX,
    ensures
        lease_driver::numbered(d).tally.issued == d.tally.op_num,
        lease_driver::numbered(d).tally.op_num == d.tally.op_num + 1,
        lease_driver::numbered(d).tally.run_errors == d.tally.run_errors,
        lease_driver::numbered(d).who == d.who,
{
}

/// A delayed adoption counts once, and once as the delay it had.
pub proof fn a_delay_counts_as_what_it_is(tally: Tally, delay: Option<AdoptionDelay>)
    requires
        tally.delayed_adoption_count < u64::MAX,
        tally.delayed_adoption_sub_lease_count < u64::MAX,
        tally.delayed_adoption_exact_lease_count < u64::MAX,
        tally.delayed_adoption_over_lease_count < u64::MAX,
    ensures
        ({
            let r = lease_driver::with_delay(tally, delay);
            let shorter: int = if delay == Some(AdoptionDelay::Shorter) {
                1
            } else {
                0
            };
            let exact: int = if delay == Some(AdoptionDelay::Exact) {
                1
            } else {
                0
            };
            let longer: int = if delay == Some(AdoptionDelay::Longer) {
                1
            } else {
                0
            };
            &&& r.delayed_adoption_count == tally.delayed_adoption_count + shorter + exact + longer
            &&& r.delayed_adoption_sub_lease_count == tally.delayed_adoption_sub_lease_count
                + shorter
            &&& r.delayed_adoption_exact_lease_count == tally.delayed_adoption_exact_lease_count
                + exact
            &&& r.delayed_adoption_over_lease_count == tally.delayed_adoption_over_lease_count
                + longer
            &&& r.run_errors == tally.run_errors && r.op_num == tally.op_num && r.poll_count
                == tally.poll_count
        }),
{
}

/// A client adopts what it is left with; a leadership is remembered as the last one, and the
/// one before it as stale where its rank was lower.
pub proof fn a_client_remembers_its_leaderships(who: WhoView, local: LocalView)
    ensures
        ({
            let r = lease_driver::adopting(who, local);
            &&& r.local_state == local
            &&& r.participant == who.participant
            &&& r.incarnation == who.incarnation
            &&& !(local is Leadership) ==> r.last_leadership == who.last_leadership
                && r.stale_leadership == who.stale_leadership
            &&& local is Leadership ==> {
                &&& r.last_leadership is Some
                &&& r.last_leadership->Some_0.rank == local->Leadership_rank
                &&& who.last_leadership is Some && who.last_leadership->Some_0.rank
                    < local->Leadership_rank ==> r.stale_leadership == who.last_leadership
                &&& who.last_leadership is None || who.last_leadership->Some_0.rank
                    >= local->Leadership_rank ==> r.stale_leadership == who.stale_leadership
            }
        }),
{
}

// ---------------------------------------------------------------------------
// Rounds
// ---------------------------------------------------------------------------

/// A client draws for a round while there is one left, and then says that it is ready.
pub proof fn rounds_go_on_while_there_are_any(d: DriverView)
    ensures
        ({
            let turn = lease_driver::round_begun(d);
            &&& d.cursor.round < d.plan.operation_count ==> turn.action is Draw
                && turn.driver.place == Place::RoundWeight
            &&& d.cursor.round >= d.plan.operation_count ==> turn.action == (ActionView::Mark {
                barrier: Barrier::Ready,
                status: Status::Ready,
                again: false,
            }) && turn.driver.place == Place::ReadyMark
        }),
{
    reveal(lease_driver::round_begun);
}

/// A round's weight is the last two digits of the draw. A round that polls counts a poll, and
/// draws its delay first where delays are on; its lease is its own where the weight changes
/// it, and the plan's otherwise.
pub proof fn a_weight_decides_whether_a_round_polls(d: DriverView, random: u32, now: nat)
    requires
        d.tally.poll_count < u64::MAX,
        d.plan.polls(d.cursor.round, random % 100),
    ensures
        ({
            let turn = lease_driver::round_weighed(d, random, now);
            let weight = random % 100;
            let lease = if d.plan.changes_lease(weight) {
                d.plan.round_lease(d.cursor.round)
            } else {
                d.plan.lease_duration@
            };
            &&& turn.driver.cursor.weight == weight
            &&& !turn.driver.cursor.forced_pause
            &&& turn.driver.tally.poll_count == d.tally.poll_count + 1
            &&& turn.driver.spans.round == lease
            &&& d.plan.opts(lease_plan::OPTIONAL_DELAYED_ADOPTION) ==> turn.action is Draw
                && turn.driver.place == Place::RoundDelay
            &&& !d.plan.opts(lease_plan::OPTIONAL_DELAYED_ADOPTION) ==> {
                &&& turn.driver.place == Place::RoundPoll
                &&& turn.action is Poll
                &&& turn.action->Poll_lease_duration == lease
                &&& turn.action->Poll_delay is None
                &&& turn.action->Poll_brings == d.who.local_state
                &&& turn.action->Poll_participant == d.who.participant
                &&& turn.action->Poll_incarnation == d.who.incarnation
                &&& turn.action->Poll_op_num == d.tally.op_num
                &&& turn.action->Poll_tracks
            }
        }),
{
    reveal(lease_driver::round_weighed);
}

/// A client that led writes at rank zero once in a run, and pauses past its lease once.
pub proof fn a_leader_tries_a_write_at_rank_zero_once(d: DriverView, run: RunView, now: nat)
    requires
        run.next_state is Leadership,
        !d.tally.zero_stale_write_completed,
        d.tally.leader_count < u64::MAX,
    ensures
        ({
            let turn = lease_driver::round_answered(d, Some(run), now);
            &&& turn.driver.place == Place::RoundZeroWrite
            &&& turn.action is StaleWrite
            &&& turn.action->StaleWrite_rank == 0
            &&& turn.action->StaleWrite_actor == d.who.participant
            &&& turn.action->StaleWrite_lease_duration == d.spans.round
            &&& turn.driver.tally.leader_count == d.tally.leader_count + 1
            &&& turn.driver.cursor.forced_pause <==> !d.tally.expiry_pause_completed
            &&& turn.driver.who.local_state == run.next_state
        }),
{
    reveal(lease_driver::round_answered);
}

/// A round waits past the lease where it must or where its weight says so, and otherwise
/// until the next round is due.
pub proof fn a_round_ends_in_a_wait(d: DriverView, now: nat)
    ensures
        ({
            let turn = lease_driver::round_paused(d, now);
            let past = d.cursor.forced_pause || (d.plan.opts(lease_plan::OPTIONAL_PAUSE)
                && d.plan.changes_lease(d.cursor.weight));
            &&& turn.driver.place == Place::RoundWait
            &&& past ==> turn.action == (ActionView::Wait {
                until: Plan::boundary_at(d.who.local_state, now),
            })
            &&& !past ==> turn.action == (ActionView::Wait {
                until: d.plan.next_round_at(d.cursor.round, d.who.local_state, now),
            })
            &&& turn.driver.tally.expiry_pause_completed <==> d.tally.expiry_pause_completed
                || d.cursor.forced_pause
        }),
{
    reveal(lease_driver::round_paused);
}

/// Every third round takes a snapshot before it waits.
pub proof fn every_third_round_takes_a_snapshot(d: DriverView, now: nat)
    ensures
        ({
            let turn = lease_driver::round_tried(d, now);
            &&& d.cursor.round % 3 == 0 ==> turn.action is Snapshot && turn.driver.place
                == Place::RoundSnapshot
            &&& d.cursor.round % 3 != 0 ==> turn.action is Wait && turn.driver.place
                == Place::RoundWait
            &&& d.plan.drops(d.cursor.weight) ==> turn.driver.who.local_state is Unknown
                && turn.driver.who.last_leadership is None
            &&& !d.plan.drops(d.cursor.weight) ==> turn.driver.who == d.who
        }),
{
    reveal(lease_driver::round_tried);
    reveal(lease_driver::round_paused);
}

/// A leader resigns where that is on and its weight says so, with the very leadership it
/// holds.
pub proof fn a_leader_resigns_where_its_weight_says_so(d: DriverView, now: nat)
    requires
        d.who.local_state is Leadership,
        d.plan.opts(lease_plan::OPTIONAL_RESIGN),
        d.plan.resigns(d.cursor.weight),
    ensures
        ({
            let turn = lease_driver::round_observed(d, now);
            &&& turn.driver.place == Place::RoundResign
            &&& turn.action is Resign
            &&& turn.action->Resign_token.rank == d.who.local_state->Leadership_rank
            &&& turn.action->Resign_token.participant == d.who.local_state->Leadership_participant
            &&& turn.action->Resign_token.renewed_at == d.who.local_state->Leadership_renewed_at
            &&& turn.action->Resign_tracks
            &&& turn.action->Resign_op_num == d.tally.op_num
        }),
{
    reveal(lease_driver::round_observed);
}

/// A round that ended leads to the next one.
pub proof fn a_round_leads_to_the_next(d: DriverView)
    requires
        d.cursor.round < d.plan.operation_count,
    ensures
        lease_driver::round_ended(d).driver.cursor.round == d.cursor.round + 1,
        lease_driver::round_ended(d).action is Draw <==> d.cursor.round + 1
            < d.plan.operation_count,
{
    reveal(lease_driver::round_ended);
    reveal(lease_driver::round_begun);
}

// ---------------------------------------------------------------------------
// The race
// ---------------------------------------------------------------------------

/// Only a racer that has seen a leader polls in the race; one that failed before says so, and
/// one that leads says that.
pub proof fn a_racer_polls_where_it_saw_a_leader(d: DriverView)
    ensures
        ({
            let turn = lease_driver::race_started(d);
            let failed = d.cursor.race_failed;
            let seen = d.who.local_state is Observation;
            &&& failed ==> turn.action == (ActionView::Mark {
                barrier: Barrier::Done,
                status: Status::Error,
                again: false,
            })
            &&& !failed && !seen ==> turn.action == (ActionView::Mark {
                barrier: Barrier::Done,
                status: Status::Incumbent,
                again: false,
            })
            &&& !failed && seen ==> turn.action is Poll && turn.driver.place == Place::RacePoll
                && turn.action->Poll_lease_duration == d.plan.lease_duration@
                && turn.action->Poll_delay is None
        }),
{
    reveal(lease_driver::race_started);
    reveal(lease_driver::race_over);
}

/// A racer that polled tries a write at the rank it had seen before. That it is turned down
/// makes it a contender; that it commits is a breach.
pub proof fn a_racers_stale_write_must_be_turned_down(
    d: DriverView,
    run: RunView,
    committed: Option<bool>,
)
    ensures
        ({
            let turn = lease_driver::race_answered(d, Some(run));
            &&& turn.action is StaleWrite
            &&& turn.action->StaleWrite_rank == d.cursor.race_rank
            &&& turn.driver.place == Place::RaceWrite
            &&& turn.driver.who.local_state == run.next_state
        }),
        ({
            let turn = lease_driver::race_written(d, committed);
            &&& turn.action is Mark
            &&& turn.action->Mark_barrier == Barrier::Done
            &&& turn.action->Mark_status == Status::Contended <==> committed == Some(false)
            &&& turn.action->Mark_status == Status::Error <==> committed != Some(false)
            &&& committed == Some(true) ==> turn.driver.notes == d.notes.push(
                Note::Broken {
                    breach: Breach::RaceStaleWriteCommitted,
                    op_num: d.tally.issued,
                },
            )
            &&& committed == Some(false) ==> turn.driver.notes == d.notes && turn.driver.tally
                == d.tally
        }),
{
    reveal(lease_driver::race_answered);
    reveal(lease_driver::race_written);
    reveal(lease_driver::race_over);
}

/// Only the first client collects what became of the race; everybody else is done.
pub proof fn the_first_client_collects(d: DriverView)
    ensures
        ({
            let turn = lease_driver::race_closed(d);
            &&& d.plan.client_id == 0 ==> turn.action == (ActionView::Collect {
                barrier: Barrier::Done,
                again: false,
            }) && turn.driver.place == Place::RaceCollect
            &&& d.plan.client_id != 0 ==> turn.action is Finish && turn.driver.place == Place::Done
        }),
{
    reveal(lease_driver::race_closed);
    reveal(lease_driver::finished);
}

// ---------------------------------------------------------------------------
// Stale tokens
// ---------------------------------------------------------------------------

/// A stale token is polled with, resigned with and written under, and nothing of it is
/// adopted: first a poll that brings it, and a wait until its lease is surely over.
pub proof fn a_stale_token_is_polled_with(d: DriverView, then: AfterStale, token: TokenView)
    ensures
        ({
            let turn = lease_driver::stale_begun(d, then, token);
            &&& turn.driver.held == Some(token)
            &&& turn.driver.place == Place::StalePoll(then)
            &&& turn.action is Poll
            &&& turn.action->Poll_brings == (LocalView::Leadership {
                participant: token.participant,
                rank: token.rank,
                lease_duration: token.lease_duration,
                renewed_at: token.renewed_at,
            })
            &&& !turn.action->Poll_tracks
            &&& turn.action->Poll_participant == d.who.participant
            &&& turn.driver.who == d.who
        }),
{
    reveal(lease_driver::stale_begun);
}

/// That a stale token renews is a breach; the client then waits until a millisecond behind
/// the end of its lease.
pub proof fn a_stale_token_must_not_renew(
    d: DriverView,
    then: AfterStale,
    run: RunView,
    token: TokenView,
    now: nat,
)
    requires
        d.held == Some(token),
        token.renewed_at + token.lease_duration + 1_000_000 <= duration::longest(),
    ensures
        ({
            let turn = lease_driver::stale_polled(d, then, Some(run), now);
            &&& turn.action == (ActionView::Wait {
                until: (token.renewed_at + token.lease_duration + 1_000_000) as nat,
            })
            &&& turn.driver.place == Place::StaleWait(then)
            &&& run.transition == PollTransition::Renewed ==> turn.driver.notes == d.notes.push(
                Note::Broken { breach: Breach::StaleRenewSucceeded, op_num: d.tally.issued },
            )
            &&& run.transition != PollTransition::Renewed ==> turn.driver.notes == d.notes
        }),
{
    reveal(lease_driver::stale_polled);
}

/// After the wait the token is resigned with, and after that written under at its own rank;
/// that either works is a breach.
pub proof fn a_stale_token_must_not_resign(
    d: DriverView,
    then: AfterStale,
    released: bool,
    token: TokenView,
    now: nat,
)
    requires
        d.held == Some(token),
    ensures
        ({
            let turn = lease_driver::stale_waited(d, then, now);
            &&& turn.action is Resign
            &&& turn.action->Resign_token == token
            &&& !turn.action->Resign_tracks
            &&& turn.driver.place == Place::StaleResign(then)
        }),
        ({
            let turn = lease_driver::stale_resigned(d, then, Some(released), now);
            &&& turn.action is StaleWrite
            &&& turn.action->StaleWrite_rank == token.rank
            &&& turn.driver.place == Place::StaleWrite(then)
            &&& released ==> turn.driver.notes == d.notes.push(
                Note::Broken { breach: Breach::StaleResignSucceeded, op_num: d.tally.issued },
            )
            &&& !released ==> turn.driver.notes == d.notes
        }),
{
    reveal(lease_driver::stale_waited);
    reveal(lease_driver::stale_resigned);
}

// ---------------------------------------------------------------------------
// Strangers
// ---------------------------------------------------------------------------

/// A stranger polls under a name of its own, knowing nothing, with a lease two seconds
/// longer; nothing of that is adopted.
pub proof fn a_stranger_polls_with_a_longer_lease(
    d: DriverView,
    then: AfterForeign,
    lease: nat,
    delay: Option<AdoptionDelay>,
)
    requires
        lease + 2_000_000_000 <= duration::longest(),
    ensures
        ({
            let turn = lease_driver::foreign_begun(d, then, lease, delay);
            &&& turn.action is Poll
            &&& turn.action->Poll_brings is Unknown
            &&& !turn.action->Poll_tracks
            &&& turn.action->Poll_lease_duration == lease + 2_000_000_000
            &&& turn.action->Poll_participant == lease_plan::incarnation_name(
                "foreign"@,
                d.plan.client_id,
                d.plan.process_id,
                d.who.incarnation,
            )
            &&& turn.driver.spans.lease == lease
            &&& turn.driver.cursor.follower_delay == delay
            &&& turn.driver.place == Place::ForeignPoll(then)
        }),
{
    reveal(lease_driver::foreign_begun);
}

/// A client watches the stranger where it sees another's leadership under the stranger's
/// lease; it polls a millisecond before that runs out, and again when it does.
pub proof fn a_client_watches_the_stranger(d: DriverView, then: AfterForeign)
    ensures
        lease_driver::watches_a_stranger(d) <==> {
            &&& d.who.local_state is Observation
            &&& d.held is Some
            &&& d.who.local_state->Observation_owner != d.who.participant
            &&& d.who.local_state->Observation_lease_duration == d.held->Some_0.lease_duration
        },
        lease_driver::foreign_early(d, then).action is Poll,
        lease_driver::foreign_early(d, then).action->Poll_lease_duration == d.spans.lease,
        lease_driver::foreign_due(d, then).action is Poll,
        lease_driver::foreign_due(d, then).action->Poll_lease_duration == d.spans.lease,
{
    reveal(lease_driver::foreign_early);
    reveal(lease_driver::foreign_due);
}

// ---------------------------------------------------------------------------
// Completion
// ---------------------------------------------------------------------------

/// There are three completion phases, each with the delay of its number and a lease of its
/// own.
pub proof fn completion_has_three_phases(d: DriverView)
    requires
        d.plan.operation_count + 3 <= usize::MAX,
        d.cursor.phase < 3,
    ensures
        ({
            let turn = lease_driver::phase_begun(d);
            let lease = d.plan.round_lease((d.plan.operation_count + d.cursor.phase) as usize);
            &&& turn.action is Poll
            &&& turn.driver.place == Place::PhaseFirst
            &&& turn.action->Poll_lease_duration == lease
            &&& turn.driver.spans.base == lease
            &&& turn.action->Poll_delay == Some(
                if d.cursor.phase == 0 {
                    AdoptionDelay::Shorter
                } else if d.cursor.phase == 1 {
                    AdoptionDelay::Exact
                } else {
                    AdoptionDelay::Longer
                },
            )
        }),
{
    reveal(lease_driver::phase_begun);
}

/// The last lease of all is a second short of the longest there is.
pub proof fn the_last_lease_is_nearly_the_longest()
    ensures
        lease_driver::final_lease() + 1_000_000_000 == duration::longest(),
{
}

/// A completion phase that led renews under the lease of the next, and otherwise watches; what
/// it won first is kept, and where the renewal has a higher rank it is tried as stale.
pub proof fn a_phase_renews_what_it_won(d: DriverView, run: RunView)
    requires
        d.plan.operation_count + 4 <= usize::MAX,
        d.cursor.phase < 3,
        run.next_state is Leadership,
    ensures
        ({
            let turn = lease_driver::phase_led(d, Some(run));
            let lease = d.plan.round_lease((d.plan.operation_count + d.cursor.phase + 1) as usize);
            &&& turn.action is Poll
            &&& turn.driver.place == Place::PhaseRenew
            &&& turn.action->Poll_lease_duration == lease
            &&& turn.action->Poll_brings == run.next_state
            &&& turn.driver.spans.lease == lease
            &&& turn.driver.held is Some
            &&& turn.driver.held->Some_0.rank == run.next_state->Leadership_rank
        }),
{
    reveal(lease_driver::phase_led);
}

/// A renewal of a higher rank has the token before it tried as stale; otherwise the renewed
/// one is resigned with.
pub proof fn a_phase_tries_the_token_before_the_renewal(
    d: DriverView,
    run: RunView,
    first: TokenView,
)
    requires
        d.held == Some(first),
        run.next_state is Leadership,
    ensures
        ({
            let turn = lease_driver::phase_renewed(d, Some(run));
            let rank = run.next_state->Leadership_rank;
            &&& turn.driver.renewed is Some
            &&& turn.driver.renewed->Some_0.rank == rank
            &&& first.rank < rank ==> turn.driver.place == Place::StalePoll(AfterStale::Phase)
                && turn.action is Poll && !turn.action->Poll_tracks
            &&& first.rank >= rank ==> turn.driver.place == Place::PhaseResign && turn.action is Resign
                && turn.action->Resign_token.rank == rank && turn.action->Resign_tracks
        }),
{
    reveal(lease_driver::phase_renewed);
    reveal(lease_driver::phase_resigning);
    reveal(lease_driver::stale_begun);
}

/// A phase that watches a leader waits until a millisecond before its lease runs out, and one
/// that leads waits until a millisecond behind the end of its own.
pub proof fn a_phase_waits_around_the_end_of_the_lease(d: DriverView)
    ensures
        d.who.local_state is Observation && d.who.local_state->Observation_observed_at
            + d.who.local_state->Observation_lease_duration <= duration::longest()
            && d.who.local_state->Observation_observed_at
            + d.who.local_state->Observation_lease_duration >= 1_000_000 ==> {
            let turn = lease_driver::phase_watching(d);
            let expiry = d.who.local_state->Observation_observed_at
                + d.who.local_state->Observation_lease_duration;
            &&& turn.action == (ActionView::Wait { until: (expiry - 1_000_000) as nat })
            &&& turn.driver.place == Place::PhaseBefore
            &&& turn.driver.spans.expiry == expiry
        },
        d.who.local_state is Leadership && d.who.local_state->Leadership_renewed_at
            + d.who.local_state->Leadership_lease_duration + 1_000_000 <= duration::longest() ==> {
            let turn = lease_driver::phase_expiring(d);
            &&& turn.action == (ActionView::Wait {
                until: (d.who.local_state->Leadership_renewed_at
                    + d.who.local_state->Leadership_lease_duration + 1_000_000) as nat,
            })
            &&& turn.driver.place == Place::PhaseAfter
        },
{
    reveal(lease_driver::phase_watching);
    reveal(lease_driver::phase_expiring);
}

/// What follows the race is counted from the statuses: the contenders, whether there were two
/// at least and no error, and how many errors there were before.
pub proof fn the_race_is_counted_from_the_statuses(d: DriverView, statuses: Seq<Seq<u8>>)
    requires
        d.plan.operation_count + 3 <= usize::MAX,
        statuses.len() <= usize::MAX,
    ensures
        ({
            let turn = lease_driver::race_counted(d, Some(statuses));
            let n = statuses.len() as int;
            let contenders = lease_driver::count_of(statuses, Status::Contended, n);
            let errors = lease_driver::count_of(statuses, Status::Error, n);
            &&& contenders <= usize::MAX ==> turn.driver.tally.coordinated_race_contenders
                == contenders
            &&& turn.driver.tally.coordinated_race_completed <==> contenders >= 2 && errors == 0
            &&& turn.driver.tally.errors_before_completion == d.tally.run_errors
            &&& turn.driver.cursor.phase == 0
            &&& turn.driver.place == Place::PhaseFirst
            &&& turn.driver.who.local_state is Unknown
        }),
{
    reveal(lease_driver::race_counted);
    reveal(lease_driver::completion_begun);
    reveal(lease_driver::phase_begun);
}

/// A run that is complete is done, and its errors since the completion began are counted.
pub proof fn completion_counts_its_own_errors(d: DriverView)
    requires
        d.tally.errors_before_completion <= d.tally.run_errors,
    ensures
        ({
            let turn = lease_driver::completed(d);
            &&& turn.action is Finish
            &&& turn.driver.place == Place::Done
            &&& turn.driver.tally.completion_run_errors + d.tally.errors_before_completion
                == d.tally.run_errors
        }),
{
    reveal(lease_driver::completed);
    reveal(lease_driver::finished);
}

/// A last resignation that was contended is a breach, one that failed an error, and after any
/// of them the run is done.
pub proof fn the_last_resignation_ends_the_run(d: DriverView, released: Option<bool>)
    requires
        d.tally.run_errors < u64::MAX,
    ensures
        ({
            let turn = lease_driver::exact_resigned(d, released);
            &&& turn.action is Finish
            &&& released == Some(true) ==> turn.driver.notes == d.notes && turn.driver.tally.run_errors
                == d.tally.run_errors
            &&& released == Some(false) ==> turn.driver.notes == d.notes.push(
                Note::Broken {
                    breach: Breach::FinalExactResignContended,
                    op_num: d.tally.issued,
                },
            )
            &&& released is None ==> turn.driver.tally.run_errors == d.tally.run_errors + 1
        }),
{
    reveal(lease_driver::exact_resigned);
    reveal(lease_driver::completed);
    reveal(lease_driver::finished);
}

/// The last leader renews under a lease a second longer than the one it has, and is then
/// resigned with by the very incarnation that led.
pub proof fn the_last_leader_renews_longer_and_resigns(
    d: DriverView,
    run: RunView,
    token: TokenView,
)
    ensures
        run.next_state is Leadership && run.next_state->Leadership_lease_duration + 1_000_000_000
            <= duration::longest() ==> {
            let turn = lease_driver::exact_polled(d, Some(run));
            &&& turn.action is Poll
            &&& turn.driver.place == Place::ExactRenew
            &&& turn.action->Poll_lease_duration == run.next_state->Leadership_lease_duration
                + 1_000_000_000
            &&& turn.driver.cursor.leader_incarnation == d.who.incarnation
        },
        run.next_state is Observation && run.next_state->Observation_observed_at
            + run.next_state->Observation_lease_duration < duration::longest() ==> {
            let turn = lease_driver::exact_polled(d, Some(run));
            turn.action == (ActionView::Wait {
                until: (run.next_state->Observation_observed_at
                    + run.next_state->Observation_lease_duration + 1) as nat,
            }) && turn.driver.place == Place::ExactWait
        },
        d.renewed == Some(token) ==> {
            let turn = lease_driver::exact_resigning(d, Some(run));
            &&& turn.action is Resign
            &&& turn.action->Resign_token == token
            &&& turn.action->Resign_incarnation == d.cursor.leader_incarnation
            &&& turn.action->Resign_tracks
            &&& turn.driver.place == Place::ExactResign
        },
{
    reveal(lease_driver::exact_polled);
    reveal(lease_driver::exact_resigning);
}

/// A stale write that committed is a breach, one that was turned down completes the stale
/// actions, and one that failed is an error.
pub proof fn a_stale_write_completes_the_stale_actions(
    d: DriverView,
    committed: Option<bool>,
    now: nat,
)
    requires
        d.tally.run_errors < u64::MAX,
        d.cursor.round % 3 == 0,
        !d.plan.drops(d.cursor.weight),
    ensures
        ({
            let turn = lease_driver::stale_written(d, AfterStale::Round, committed, now);
            &&& turn.driver.tally.stale_actions_completed <==> d.tally.stale_actions_completed
                || committed == Some(false)
            &&& committed == Some(true) ==> turn.driver.notes == d.notes.push(
                Note::Broken { breach: Breach::StaleWriteCommitted, op_num: d.tally.issued },
            )
            &&& committed is None ==> turn.driver.tally.run_errors == d.tally.run_errors + 1
            &&& turn.action is Snapshot
        }),
{
    reveal(lease_driver::stale_written);
    reveal(lease_driver::stale_over);
    reveal(lease_driver::round_tried);
}

/// A write at rank zero that committed is a breach, one that was turned down is done with for
/// the run, and one that failed is an error.
pub proof fn a_write_at_rank_zero_must_be_turned_down(
    d: DriverView,
    committed: Option<bool>,
    now: nat,
)
    requires
        d.tally.run_errors < u64::MAX,
        d.plan.opts(lease_plan::OPTIONAL_OBSERVER),
        d.plan.observes(d.cursor.weight),
    ensures
        ({
            let turn = lease_driver::round_zero_written(d, committed, now);
            &&& turn.driver.tally.zero_stale_write_completed <==> d.tally.zero_stale_write_completed
                || committed == Some(false)
            &&& committed == Some(true) ==> turn.driver.notes == d.notes.push(
                Note::Broken { breach: Breach::ZeroRankStaleWriteCommitted, op_num: d.tally.issued },
            )
            &&& committed is None ==> turn.driver.tally.run_errors == d.tally.run_errors + 1
            &&& turn.action is Observe
            &&& turn.action->Observe_actor == d.who.participant
            &&& turn.driver.place == Place::RoundObserve
        }),
{
    reveal(lease_driver::round_zero_written);
    reveal(lease_driver::round_polled);
}

/// A marker that could not be written is written again, with an error; once it stands the
/// client waits at its barrier, and looks again as long as not all have come.
pub proof fn a_client_waits_at_a_barrier_it_has_marked(
    d: DriverView,
    place: Place,
    barrier: Barrier,
    event: EventView,
)
    requires
        d.tally.run_errors < u64::MAX,
    ensures
        ({
            let turn = lease_driver::barrier_marked(d, place, barrier, event);
            &&& event is Failed ==> turn.action == (ActionView::Mark {
                barrier,
                status: d.cursor.status,
                again: true,
            }) && turn.driver.place == d.place && turn.driver.tally.run_errors
                == d.tally.run_errors + 1
            &&& !(event is Failed) ==> turn.action == (ActionView::Await { barrier, again: false })
                && turn.driver.place == place && turn.driver.tally == d.tally
        }),
        ({
            let turn = lease_driver::barrier_awaited(d, barrier, event);
            &&& turn.action == (ActionView::Await { barrier, again: true })
            &&& turn.driver.place == d.place
            &&& event is Settled ==> turn.driver.tally == d.tally
            &&& !(event is Settled) ==> turn.driver.tally.run_errors == d.tally.run_errors + 1
        }),
{
    reveal(lease_driver::barrier_marked);
    reveal(lease_driver::barrier_awaited);
}

/// A racer is a new incarnation, polls at once, says what it observed, and waits until what it
/// saw runs out.
pub proof fn a_racer_waits_for_what_it_saw_to_run_out(d: DriverView, run: RunView)
    ensures
        ({
            let turn = lease_driver::race_begun(d);
            &&& turn.action is Poll
            &&& turn.action->Poll_brings is Unknown
            &&& turn.action->Poll_lease_duration == d.plan.lease_duration@
            &&& turn.driver.place == Place::RaceFirst
            &&& !turn.driver.cursor.race_failed
        }),
        ({
            let turn = lease_driver::race_entered(d, Some(run));
            &&& turn.action == (ActionView::Mark {
                barrier: Barrier::Observed,
                status: Status::Ready,
                again: false,
            })
            &&& turn.driver.who.local_state == run.next_state
            &&& turn.driver.cursor.race_failed == d.cursor.race_failed
        }),
        lease_driver::race_entered(d, None).driver.cursor.race_failed,
        d.who.local_state is Observation && d.who.local_state->Observation_observed_at
            + d.who.local_state->Observation_lease_duration <= duration::longest() ==> {
            let turn = lease_driver::race_watched(d);
            &&& turn.action == (ActionView::Wait {
                until: (d.who.local_state->Observation_observed_at
                    + d.who.local_state->Observation_lease_duration) as nat,
            })
            &&& turn.driver.cursor.race_rank == d.who.local_state->Observation_rank
        },
        !(d.who.local_state is Observation) ==> lease_driver::race_watched(d).action == (
        ActionView::Mark { barrier: Barrier::Expired, status: Status::Ready, again: false }),
{
    reveal(lease_driver::race_begun);
    reveal(lease_driver::race_entered);
    reveal(lease_driver::race_watched);
}

/// A leader that resigned lets a stranger in, and has forgotten its leadership by then; with
/// delays on it adopts the stranger late.
pub proof fn a_resignation_lets_a_stranger_in(d: DriverView, now: nat)
    requires
        d.spans.round + 2_000_000_000 <= duration::longest(),
    ensures
        ({
            let turn = lease_driver::round_released(d, Some(true), now);
            let late = d.plan.opts(lease_plan::OPTIONAL_DELAYED_ADOPTION);
            &&& turn.driver.place == Place::ForeignPoll(AfterForeign::Round)
            &&& turn.driver.who.local_state is Unknown
            &&& turn.driver.spans.lease == d.spans.round
            &&& turn.action is Poll
            &&& turn.action->Poll_lease_duration == d.spans.round + 2_000_000_000
            &&& late ==> turn.driver.cursor.follower_delay == Some(AdoptionDelay::Longer)
            &&& !late ==> turn.driver.cursor.follower_delay is None
        }),
{
    reveal(lease_driver::round_released);
    reveal(lease_driver::foreign_begun);
}

/// A stale leadership is tried where the weight says so and it was not tried before in the
/// run.
pub proof fn a_stale_leadership_is_tried_once(d: DriverView, token: TokenView, now: nat)
    requires
        d.who.stale_leadership == Some(token),
        d.plan.goes_stale(d.cursor.weight),
    ensures
        !d.tally.stale_actions_completed ==> {
            let turn = lease_driver::round_resigned(d, now);
            turn.driver.place == Place::StalePoll(AfterStale::Round) && turn.driver.held == Some(
                token,
            )
        },
        d.tally.stale_actions_completed ==> !(lease_driver::round_resigned(
            d,
            now,
        ).driver.place is StalePoll),
{
    reveal(lease_driver::round_resigned);
    reveal(lease_driver::stale_begun);
    reveal(lease_driver::round_tried);
    reveal(lease_driver::round_paused);
}

/// A stranger that leads is followed, under the client's own lease and with the delay that was
/// set, by a client that knows nothing of it yet.
pub proof fn a_stranger_that_leads_is_followed(
    d: DriverView,
    then: AfterForeign,
    run: RunView,
    now: nat,
)
    requires
        run.next_state is Leadership,
    ensures
        ({
            let turn = lease_driver::foreign_polled(d, then, Some(run), now);
            &&& turn.driver.place == Place::ForeignFollow(then)
            &&& turn.driver.held is Some
            &&& turn.driver.held->Some_0.rank == run.next_state->Leadership_rank
            &&& turn.driver.held->Some_0.lease_duration == run.next_state->Leadership_lease_duration
            &&& turn.action is Poll
            &&& turn.action->Poll_brings is Unknown
            &&& turn.action->Poll_tracks
            &&& turn.action->Poll_participant == d.who.participant
            &&& turn.action->Poll_lease_duration == d.spans.lease
            &&& turn.action->Poll_delay == d.cursor.follower_delay
        }),
{
    reveal(lease_driver::foreign_polled);
}

/// A follower that sees the stranger waits until a millisecond before its lease runs out; and
/// after the poll there until it does.
pub proof fn a_follower_waits_for_the_stranger_to_run_out(
    d: DriverView,
    then: AfterForeign,
    run: RunView,
    token: TokenView,
    now: nat,
)
    requires
        d.held == Some(token),
        run.next_state is Observation,
        run.next_state->Observation_owner != d.who.participant,
        run.next_state->Observation_lease_duration == token.lease_duration,
        1_000_000 <= run.next_state->Observation_observed_at + token.lease_duration
            <= duration::longest(),
    ensures
        ({
            let turn = lease_driver::foreign_followed(d, then, Some(run), now);
            let expiry = run.next_state->Observation_observed_at + token.lease_duration;
            &&& turn.action == (ActionView::Wait { until: (expiry - 1_000_000) as nat })
            &&& turn.driver.place == Place::ForeignBefore(then)
            &&& turn.driver.spans.expiry == expiry
            &&& turn.driver.who.local_state == run.next_state
        }),
        ({
            let turn = lease_driver::foreign_waited(d, then, Some(run));
            turn.action == (ActionView::Wait { until: d.spans.expiry }) && turn.driver.place
                == Place::ForeignExact(then)
        }),
{
    reveal(lease_driver::foreign_followed);
    reveal(lease_driver::foreign_waited);
}

/// A client that took over from the stranger at a higher rank tries the stranger's token as
/// stale.
pub proof fn the_strangers_token_is_tried_as_stale(
    d: DriverView,
    then: AfterForeign,
    run: RunView,
    token: TokenView,
    now: nat,
)
    requires
        d.held == Some(token),
        run.next_state is Leadership,
        run.next_state->Leadership_rank > token.rank,
    ensures
        ({
            let turn = lease_driver::foreign_taken(d, then, Some(run), now);
            &&& turn.driver.place == Place::StalePoll(AfterStale::Foreign(then))
            &&& turn.driver.held == Some(token)
            &&& turn.action is Poll
            &&& !turn.action->Poll_tracks
        }),
{
    reveal(lease_driver::foreign_taken);
    reveal(lease_driver::stale_begun);
}

/// A phase's resignation lets a stranger in where it went through, and is noted as contended
/// where it did not; after that, or an error, the client starts the phase's second half as
/// another incarnation.
pub proof fn a_phase_resigns_and_starts_over(d: DriverView, released: Option<bool>)
    requires
        d.tally.run_errors < u64::MAX,
        d.spans.lease + 2_000_000_000 <= duration::longest(),
    ensures
        ({
            let turn = lease_driver::phase_released(d, released);
            &&& released == Some(true) ==> turn.driver.place == Place::ForeignPoll(
                AfterForeign::Phase,
            ) && turn.action is Poll && turn.action->Poll_lease_duration == d.spans.lease
                + 2_000_000_000
            &&& released == Some(false) ==> turn.driver.notes == d.notes.push(
                Note::ResignContended { op_num: d.tally.issued },
            ) && turn.driver.tally.run_errors == d.tally.run_errors
            &&& released is None ==> turn.driver.tally.run_errors == d.tally.run_errors + 1
            &&& released != Some(true) ==> turn.driver.place == Place::PhaseReset && turn.action
                is Poll && turn.action->Poll_lease_duration == d.spans.lease
                && turn.action->Poll_brings is Unknown
        }),
{
    reveal(lease_driver::phase_released);
    reveal(lease_driver::phase_resetting);
    reveal(lease_driver::foreign_begun);
}

/// After the phases a new incarnation polls with the longer delay; where it leads another one
/// follows it, and what either has seen is polled with once more. Then the last lease begins.
pub proof fn the_last_adoption_is_a_late_one(d: DriverView, run: RunView)
    requires
        d.plan.operation_count + 3 <= usize::MAX,
    ensures
        ({
            let turn = lease_driver::final_begun(d);
            let lease = d.plan.round_lease((d.plan.operation_count + 3) as usize);
            &&& turn.action is Poll
            &&& turn.action->Poll_brings is Unknown
            &&& turn.action->Poll_lease_duration == lease
            &&& turn.driver.spans.base == lease
            &&& turn.action->Poll_delay == Some(AdoptionDelay::Longer)
            &&& turn.driver.place == Place::FinalFirst
        }),
        run.next_state is Leadership ==> {
            let turn = lease_driver::final_followed(d, Some(run));
            &&& turn.driver.place == Place::FinalFollower
            &&& turn.action is Poll
            &&& turn.action->Poll_brings is Unknown
            &&& turn.action->Poll_lease_duration == d.spans.base
            &&& turn.action->Poll_delay == Some(AdoptionDelay::Longer)
        },
        run.next_state is Observation ==> {
            let turn = lease_driver::final_followed(d, Some(run));
            &&& turn.driver.place == Place::FinalLast
            &&& turn.action is Poll
            &&& turn.action->Poll_brings == run.next_state
            &&& turn.action->Poll_delay is None
        },
        !(d.who.local_state is Observation) ==> {
            let turn = lease_driver::final_adopted(d);
            &&& turn.driver.place == Place::ExactPoll
            &&& turn.action is Poll
            &&& turn.action->Poll_brings is Unknown
            &&& turn.action->Poll_lease_duration + 1_000_000_000 == duration::longest()
        },
{
    reveal(lease_driver::final_begun);
    reveal(lease_driver::final_followed);
    reveal(lease_driver::final_adopted);
    reveal(lease_driver::exact_begun);
    reveal(lease_driver::exact_polling);
}

} // verus!
