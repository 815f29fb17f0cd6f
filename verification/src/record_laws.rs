//! What the clients of both simulations write down, field by field.

use crate::journal;
use crate::journal::{Claim, ClaimOutcome, Grant, Standing};
use crate::lease_plan;
use crate::lease_plan::AdoptionDelay;
use crate::lease_records;
use crate::lease_records::{FencedWrite, Occasion, OutcomeView, PollTransition};
use crate::lease_types;
use crate::lease_types::{DurableView, EntryView, LocalView, TokenView};
use crate::log_schema::{LogRecord, OpKind, Outcome};
use crate::text;
use vstd::prelude::*;

verus! {

// ---------------------------------------------------------------------------
// The lease recipe's journal
// ---------------------------------------------------------------------------

/// A client's process name ends in its number.
pub proof fn a_process_is_named_after_its_client(client_id: i32)
    ensures
        journal::leader_name(client_id) == "process_"@ + text::int_text(client_id as int),
{
}

/// Whether a record has only its kind and its token: nothing of a term, no instant, nothing
/// written.
pub open spec fn says_nothing_more(r: LogRecord) -> bool {
    &&& r.ballot == 0
    &&& r.generation == 0
    &&& r.attempt_id == 0
    &&& r.observed is None
    &&& !r.leader_record_written
    &&& !r.recovery_noop
    &&& !r.maybe_committed
    &&& !r.superseded
    &&& r.local_nanos == 0
    &&& r.sim_nanos == 0
    &&& r.observation_start_nanos is None
    &&& r.lease_nanos == 0
    &&& r.horizon_nanos == 0
}

/// A blank record applied, and says its kind and its token and nothing more.
pub proof fn a_blank_record_says_its_kind(op: OpKind, token: [u8; 16])
    ensures
        journal::blank(op, token).op == op,
        journal::blank(op, token).token == token,
        journal::blank(op, token).outcome == Outcome::Applied,
        says_nothing_more(journal::blank(op, token)),
{
}

/// What was seen is the ballot, the generation and the vacancy of the record that stood, if
/// any did; and the lease it was given, if it was given one.
pub proof fn what_was_seen_is_what_stood(previous: Option<Standing>)
    ensures
        match (journal::seen(previous), previous) {
            (Some(seen), Some(record)) => seen.ballot == record.ballot && seen.generation
                == record.generation && seen.vacant == record.vacant,
            (None, None) => true,
            _ => false,
        },
        previous is None ==> journal::advertised(previous) == 0,
        previous matches Some(record) ==> match record.lease_nanos {
            Some(lease) => journal::advertised(previous) == lease,
            None => journal::advertised(previous) == 0,
        },
{
}

/// A claim that meets a holder is a steal, any other is a claim. It says under which
/// attempt and token it was made, when, since when the record had stood still, and what
/// stood. It applied exactly where it won.
pub proof fn a_claim_says_what_it_met(
    previous: Option<Standing>,
    leader: Seq<char>,
    claim: Claim,
    outcome: ClaimOutcome,
)
    ensures
        ({
            let r = journal::claimed(previous, leader, claim, outcome);
            &&& r.op == OpKind::Steal <==> (previous matches Some(record) && !record.vacant)
            &&& r.op == OpKind::Claim <==> (previous matches Some(record) ==> record.vacant)
            &&& r.attempt_id == claim.attempt_id
            &&& r.token == claim.token
            &&& r.maybe_committed == claim.maybe_committed
            &&& r.local_nanos == claim.local_nanos
            &&& r.observation_start_nanos == claim.observed_since
            &&& r.observed is Some <==> previous is Some
            &&& previous matches Some(record) ==> r.observed->Some_0.ballot == record.ballot
                && r.observed->Some_0.generation == record.generation && r.observed->Some_0.vacant
                == record.vacant
            &&& r.sim_nanos == 0 && r.horizon_nanos == 0
            &&& r.outcome == Outcome::Applied <==> outcome is Won
            &&& r.outcome == Outcome::Rejected <==> !(outcome is Won)
            &&& r.superseded <==> outcome is Superseded
        }),
{
}

/// A claim that won says the term it was granted, and that it wrote the record, unless the
/// record already stood under its own name and token: then it found its own write. One that
/// did not win says no term, and the lease that the record advertised.
pub proof fn a_claim_says_what_it_won(
    previous: Option<Standing>,
    leader: Seq<char>,
    claim: Claim,
    outcome: ClaimOutcome,
)
    ensures
        ({
            let r = journal::claimed(previous, leader, claim, outcome);
            let own = previous matches Some(record) && !record.vacant && record.leader_id@ == leader
                && record.token@ == claim.token@;
            match outcome {
                ClaimOutcome::Won(grant) => {
                    &&& r.ballot == grant.ballot
                    &&& r.generation == grant.generation
                    &&& r.lease_nanos == grant.lease_nanos
                    &&& r.recovery_noop <==> own
                    &&& r.leader_record_written <==> !own
                },
                _ => {
                    &&& r.ballot == 0
                    &&& r.generation == 0
                    &&& !r.recovery_noop
                    &&& !r.leader_record_written
                    &&& r.lease_nanos == match previous {
                        Some(record) => match record.lease_nanos {
                            Some(lease) => lease,
                            None => 0,
                        },
                        None => 0,
                    }
                },
            }
        }),
{
}

/// A renewal says the term it renews, the generation one above the expected one, and
/// whether it wrote the record or found its own renewal there: under its own name and
/// token, at that generation.
pub proof fn a_renewal_says_what_it_renewed(
    previous: Option<Standing>,
    leader: Seq<char>,
    grant: Grant,
    expected_generation: u64,
    applied: bool,
    local_nanos: u64,
)
    requires
        expected_generation < u64::MAX,
    ensures
        ({
            let r = journal::refreshed(
                previous,
                leader,
                grant,
                expected_generation,
                applied,
                local_nanos,
            );
            let own = previous matches Some(record) && !record.vacant && record.leader_id@ == leader
                && record.token@ == grant.token@ && record.generation == expected_generation + 1;
            &&& r.op == OpKind::Renew
            &&& r.outcome == Outcome::Applied <==> applied
            &&& r.outcome == Outcome::Rejected <==> !applied
            &&& r.ballot == grant.ballot
            &&& r.token == grant.token
            &&& r.lease_nanos == grant.lease_nanos
            &&& r.generation == expected_generation + 1
            &&& r.local_nanos == local_nanos
            &&& r.recovery_noop <==> applied && own
            &&& r.leader_record_written <==> applied && !own
            &&& r.observed is Some <==> previous is Some
            &&& previous matches Some(record) ==> r.observed->Some_0.ballot == record.ballot
                && r.observed->Some_0.generation == record.generation && r.observed->Some_0.vacant
                == record.vacant
            &&& r.attempt_id == 0 && !r.superseded && !r.maybe_committed && r.sim_nanos == 0
                && r.horizon_nanos == 0 && r.observation_start_nanos is None
        }),
{
}

/// A resignation says the term that stood, or its own where none did, and whether it wrote
/// the record or found it already vacant at its ballot.
pub proof fn a_resignation_says_what_it_gave_up(
    previous: Option<Standing>,
    grant: Grant,
    applied: bool,
    local_nanos: u64,
)
    ensures
        ({
            let r = journal::resigned(previous, grant, applied, local_nanos);
            let own = previous matches Some(record) && record.vacant && record.ballot
                == grant.ballot;
            &&& r.op == OpKind::Resign
            &&& r.outcome == Outcome::Applied <==> applied
            &&& r.outcome == Outcome::Rejected <==> !applied
            &&& r.token == grant.token
            &&& r.local_nanos == local_nanos
            &&& previous matches Some(record) ==> r.ballot == record.ballot && r.generation
                == record.generation
            &&& previous is None ==> r.ballot == grant.ballot && r.generation == grant.generation
            &&& r.recovery_noop <==> applied && own
            &&& r.leader_record_written <==> applied && !own
            &&& r.observed is Some <==> previous is Some
            &&& previous matches Some(record) ==> r.observed->Some_0.ballot == record.ballot
                && r.observed->Some_0.generation == record.generation && r.observed->Some_0.vacant
                == record.vacant
            &&& r.lease_nanos == 0
            &&& r.attempt_id == 0 && !r.superseded && !r.maybe_committed && r.sim_nanos == 0
                && r.horizon_nanos == 0 && r.observation_start_nanos is None
        }),
{
}

/// An operation applied or it was turned down.
pub proof fn an_operation_applied_or_was_turned_down(applied: bool)
    ensures
        journal::ending(applied) == Outcome::Applied <==> applied,
        journal::ending(applied) == Outcome::Rejected <==> !applied,
{
}

/// No token is sixteen zeroes.
pub proof fn no_token_is_all_zeroes(token: [u8; 16])
    ensures
        journal::no_token(token) <==> forall|i: int| 0 <= i < 16 ==> #[trigger] token@[i] == 0,
{
    let zeroes = Seq::new(16, |i: int| 0u8);
    assert(token@.len() == 16);
    if forall|i: int| 0 <= i < 16 ==> #[trigger] token@[i] == 0 {
        assert(token@ =~= zeroes);
    }
    if journal::no_token(token) {
        assert forall|i: int| 0 <= i < 16 implies #[trigger] token@[i] == 0 by {
            assert(zeroes[i] == 0);
        }
    }
}

// ---------------------------------------------------------------------------
// The leader-lease log
// ---------------------------------------------------------------------------

/// A poll's transition has the number of what it did.
pub proof fn a_transition_has_the_number_of_what_it_did(transition: PollTransition)
    ensures
        transition == PollTransition::Acquired <==> transition.code()
            == lease_types::TRANSITION_ACQUIRED,
        transition == PollTransition::Renewed <==> transition.code()
            == lease_types::TRANSITION_RENEWED,
        transition == PollTransition::TookOver <==> transition.code()
            == lease_types::TRANSITION_TOOK_OVER,
        transition == PollTransition::Reacquired <==> transition.code()
            == lease_types::TRANSITION_REACQUIRED,
        transition == PollTransition::Followed <==> transition.code()
            == lease_types::TRANSITION_FOLLOWED,
{
}

/// A delay is planned only for a follower that was given one and has not seen this very
/// leadership before: owner, rank and lease all the same. It is the delay's part of the
/// lease it follows.
pub proof fn a_delay_is_planned_for_what_was_not_seen_before(
    outcome: OutcomeView,
    local: LocalView,
    delay: Option<AdoptionDelay>,
)
    ensures
        ({
            let planned = lease_records::planned_delay(outcome, local, delay);
            match outcome {
                OutcomeView::Leader { .. } => planned is None,
                OutcomeView::Follower { owner, rank, lease_duration } => {
                    let seen = local is Observation && local->Observation_owner == owner
                        && local->Observation_rank == rank && local->Observation_lease_duration
                        == lease_duration;
                    &&& planned is Some <==> delay is Some && !seen
                    &&& planned matches Some(p) ==> p == lease_plan::lease_part(
                        delay->Some_0.part(),
                        lease_duration,
                    )
                },
            }
        }),
{
}

/// Whether an entry is an occasion's: client, incarnation, number, instant and lease, not
/// yet stamped.
pub open spec fn is_of_the_occasion(e: EntryView, occasion: Occasion) -> bool {
    &&& e.client_id == occasion.client_id
    &&& e.incarnation == occasion.incarnation
    &&& e.op_num == occasion.op_num
    &&& e.attempt_started_at == occasion.attempt_started_at@
    &&& e.configured_lease_duration == occasion.configured_lease_duration@
    &&& e.versionstamp.len() == 12
    &&& forall|i: int| 0 <= i < 10 ==> #[trigger] e.versionstamp[i] == 255
    &&& e.versionstamp[10] == 0
    &&& e.versionstamp[11] == 0
}

/// Whether an entry tells of no write to the protected register.
pub open spec fn wrote_nothing(e: EntryView) -> bool {
    &&& e.requested_write_rank == 0
    &&& e.observed_write_rank == 0
    &&& e.observed_value is None
    &&& !e.protected_write_committed
    &&& e.payload.len() == 0
}

/// Whether an entry tells of a write: its rank, what it found, whether it committed, and the
/// payload of a role.
pub open spec fn tells_of(
    e: EntryView,
    write: FencedWrite,
    role: Seq<char>,
    actor: Seq<char>,
    op_num: u64,
) -> bool {
    &&& e.requested_write_rank == write.rank
    &&& e.observed_write_rank == write.observed_rank
    &&& e.observed_value is Some <==> write.observed_value is Some
    &&& write.observed_value matches Some(value) ==> e.observed_value == Some(value@)
    &&& e.protected_write_committed == write.committed
    &&& e.payload == vstd::utf8::encode_utf8(
        role + ":"@ + actor + ":"@ + text::nat_text(op_num as nat),
    )
}

/// A poll is logged with the states before and after it, what its caller knew, the delay it
/// planned and the transition it made; with the write of a leader where there was one, and
/// without a result otherwise.
pub proof fn a_poll_is_logged_as_it_went(
    occasion: Occasion,
    actor: Seq<char>,
    prior: DurableView,
    current: DurableView,
    local: LocalView,
    planned: Option<nat>,
    transition: PollTransition,
    write: Option<FencedWrite>,
)
    ensures
        ({
            let e = lease_records::poll_entry(
                occasion,
                actor,
                prior,
                current,
                local,
                planned,
                transition,
                write,
            );
            &&& is_of_the_occasion(e, occasion)
            &&& e.kind == lease_types::OP_POLL
            &&& e.actor == actor
            &&& e.prior == prior
            &&& e.current == current
            &&& e.local_input == local
            &&& e.tracks_local_state == occasion.tracks_local_state
            &&& e.planned_adoption_delay == planned
            &&& e.transition == transition.code()
            &&& e.result <==> write is Some
            &&& write is None ==> wrote_nothing(e)
            &&& write matches Some(w) ==> tells_of(e, w, "leader"@, actor, occasion.op_num)
        }),
{
}

/// A resignation is logged under its token's participant, with the states before and after
/// it, the token as what the caller knew, and whether it gave the election up.
pub proof fn a_resignation_is_logged_as_it_went(
    occasion: Occasion,
    token: TokenView,
    prior: DurableView,
    current: DurableView,
    resigned: bool,
)
    ensures
        ({
            let e = lease_records::resign_entry(occasion, token, prior, current, resigned);
            &&& is_of_the_occasion(e, occasion)
            &&& e.kind == lease_types::OP_RESIGN
            &&& e.actor == token.participant
            &&& e.prior == prior
            &&& e.current == current
            &&& e.local_input is Leadership
            &&& e.local_input->Leadership_participant == token.participant
            &&& e.local_input->Leadership_rank == token.rank
            &&& e.local_input->Leadership_lease_duration == token.lease_duration
            &&& e.local_input->Leadership_renewed_at == token.renewed_at
            &&& e.tracks_local_state == occasion.tracks_local_state
            &&& e.planned_adoption_delay is None
            &&& e.transition == lease_types::TRANSITION_NONE
            &&& e.result == resigned
            &&& wrote_nothing(e)
        }),
{
}

/// An observation is logged with the state it found, before and after, and adopts nothing.
pub proof fn an_observation_is_logged_as_it_went(
    occasion: Occasion,
    actor: Seq<char>,
    state: DurableView,
)
    ensures
        ({
            let e = lease_records::observer_entry(occasion, actor, state);
            &&& is_of_the_occasion(e, occasion)
            &&& e.kind == lease_types::OP_OBSERVE
            &&& e.actor == actor
            &&& e.prior == state
            &&& e.current == state
            &&& e.local_input is Unknown
            &&& !e.tracks_local_state
            &&& e.planned_adoption_delay is None
            &&& e.transition == lease_types::TRANSITION_NONE
            &&& e.result
            &&& wrote_nothing(e)
        }),
{
}

/// A stale write is logged with the state it found, before and after, what it wrote under
/// its own payload, and whether that committed.
pub proof fn a_stale_write_is_logged_as_it_went(
    occasion: Occasion,
    actor: Seq<char>,
    state: DurableView,
    write: FencedWrite,
)
    ensures
        ({
            let e = lease_records::stale_write_entry(occasion, actor, state, write);
            &&& is_of_the_occasion(e, occasion)
            &&& e.kind == lease_types::OP_STALE_WRITE
            &&& e.actor == actor
            &&& e.prior == state
            &&& e.current == state
            &&& e.local_input is Unknown
            &&& !e.tracks_local_state
            &&& e.planned_adoption_delay is None
            &&& e.transition == lease_types::TRANSITION_NONE
            &&& e.result == write.committed
            &&& tells_of(e, write, "stale"@, actor, occasion.op_num)
        }),
{
}

/// A state nobody touched has rank zero, no owner and no lease.
pub proof fn an_untouched_state_is_empty()
    ensures
        lease_types::untouched().rank == 0,
        lease_types::untouched().owner is None,
        lease_types::untouched().lease_duration is None,
{
}

} // verus!
