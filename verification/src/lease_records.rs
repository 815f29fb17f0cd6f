//! What a client of the leader-lease simulation writes down of an operation.

use crate::duration;
use crate::duration::Duration;
use crate::lease_oracle;
use crate::lease_plan;
use crate::lease_plan::AdoptionDelay;
use crate::lease_types;
use crate::lease_types::{
    DurableState, DurableView, EntryView, LocalInput, LocalView, LogEntry, Token, TokenView,
    OP_OBSERVE, OP_POLL, OP_RESIGN, OP_STALE_WRITE, TRANSITION_ACQUIRED, TRANSITION_FOLLOWED,
    TRANSITION_NONE, TRANSITION_REACQUIRED, TRANSITION_RENEWED, TRANSITION_TOOK_OVER,
};
use crate::lease_wire::{protected_payload, stale_payload};
use crate::text::same_text;
use vstd::prelude::*;

verus! {

/// What a poll did.
#[derive(Debug, Clone, Copy, PartialEq, Eq, Structural)]
pub enum PollTransition {
    /// It took an election nobody held.
    Acquired,
    /// It renewed what the caller held.
    Renewed,
    /// It took over from somebody whose lease ran out.
    TookOver,
    /// It took back what had been the caller's own.
    Reacquired,
    /// It found somebody else leading.
    Followed,
}

impl PollTransition {
    /// The number the log holds for it.
    pub open spec fn code(self) -> i64 {
        match self {
            PollTransition::Acquired => TRANSITION_ACQUIRED,
            PollTransition::Renewed => TRANSITION_RENEWED,
            PollTransition::TookOver => TRANSITION_TOOK_OVER,
            PollTransition::Reacquired => TRANSITION_REACQUIRED,
            PollTransition::Followed => TRANSITION_FOLLOWED,
        }
    }
}

/// The number the log holds for a transition.
pub fn transition_code(transition: PollTransition) -> (r: i64)
    ensures
        r == transition.code(),
{
    match transition {
        PollTransition::Acquired => TRANSITION_ACQUIRED,
        PollTransition::Renewed => TRANSITION_RENEWED,
        PollTransition::TookOver => TRANSITION_TOOK_OVER,
        PollTransition::Reacquired => TRANSITION_REACQUIRED,
        PollTransition::Followed => TRANSITION_FOLLOWED,
    }
}

/// Every transition has a number of its own, and none has that of an operation
/// that made no transition.
pub proof fn transitions_have_their_own_numbers(a: PollTransition, b: PollTransition)
    ensures
        a.code() == b.code() ==> a == b,
        a.code() != TRANSITION_NONE,
{
}

/// What a poll found.
#[derive(Debug)]
pub enum PollOutcome {
    /// The caller leads.
    Leader {
        /// Its rank.
        rank: u64,
    },
    /// Somebody else leads.
    Follower {
        /// The leader.
        owner: String,
        /// Its rank.
        rank: u64,
        /// Its lease.
        lease_duration: Duration,
    },
}

/// What a [`PollOutcome`] says.
pub enum OutcomeView {
    Leader { rank: u64 },
    Follower { owner: Seq<char>, rank: u64, lease_duration: nat },
}

impl View for PollOutcome {
    type V = OutcomeView;

    open spec fn view(&self) -> OutcomeView {
        match *self {
            PollOutcome::Leader { rank } => OutcomeView::Leader { rank },
            PollOutcome::Follower { owner, rank, lease_duration } => OutcomeView::Follower {
                owner: owner@,
                rank,
                lease_duration: lease_duration@,
            },
        }
    }
}

/// How long a caller means to wait before it adopts what its poll found: only a
/// follower that observed something new waits.
pub open spec fn planned_delay(
    outcome: OutcomeView,
    local: LocalView,
    delay: Option<AdoptionDelay>,
) -> Option<nat> {
    match outcome {
        OutcomeView::Leader { .. } => None,
        OutcomeView::Follower { owner, rank, lease_duration } => {
            let known = local matches LocalView::Observation {
                owner: seen,
                rank: seen_rank,
                lease_duration: seen_lease,
                ..
            } && seen == owner && seen_rank == rank && seen_lease == lease_duration;
            match delay {
                Some(delay) if !known => Some(lease_plan::lease_part(delay.part(), lease_duration)),
                _ => None,
            }
        },
    }
}

/// How long a caller means to wait before it adopts what its poll found.
pub fn planned_follower_adoption_delay(
    outcome: &PollOutcome,
    local_state: &LocalInput,
    adoption_delay: Option<AdoptionDelay>,
) -> (r: Option<Duration>)
    ensures
        lease_types::span_view(r) == planned_delay(outcome@, local_state@, adoption_delay),
{
    match outcome {
        PollOutcome::Leader { .. } => None,
        PollOutcome::Follower { owner, rank, lease_duration } => {
            let known = match local_state {
                LocalInput::Observation {
                    owner: seen,
                    rank: seen_rank,
                    lease_duration: seen_lease,
                    ..
                } => same_text(seen.as_str(), owner.as_str()) && *seen_rank == *rank
                    && seen_lease.same_as(lease_duration),
                _ => false,
            };
            match adoption_delay {
                Some(delay) => {
                    if known {
                        None
                    } else {
                        Some(delay.duration(*lease_duration))
                    }
                },
                None => None,
            }
        },
    }
}

/// When a caller adopts what a poll returned: now, but never at the very instant
/// the attempt started.
pub fn adoption_instant(now: Duration, attempt_started_at: Duration) -> (r: Duration)
    ensures
        r@ == (if now@ >= lease_oracle::span_sum(attempt_started_at@, 1) {
            now@
        } else {
            lease_oracle::span_sum(attempt_started_at@, 1)
        }),
{
    let earliest = attempt_started_at.saturating_add(Duration::from_nanos(1));
    if now.shorter_than(&earliest) {
        earliest
    } else {
        now
    }
}

/// Who ran an operation, when, and under which lease.
#[derive(Debug, Clone, Copy, PartialEq, Eq, Structural)]
pub struct Occasion {
    /// The client.
    pub client_id: i32,
    /// Its incarnation.
    pub incarnation: u64,
    /// Its own number for the operation.
    pub op_num: u64,
    /// Whether it adopts the local state that a poll or a resignation leaves it with.
    pub tracks_local_state: bool,
    /// When the attempt started.
    pub attempt_started_at: Duration,
    /// The lease it was configured with.
    pub configured_lease_duration: Duration,
}

/// What a leader did to the protected register.
#[derive(Debug)]
pub struct FencedWrite {
    /// The rank it wrote at.
    pub rank: u64,
    /// The rank of the value it read before.
    pub observed_rank: u64,
    /// The value it read before.
    pub observed_value: Option<Vec<u8>>,
    /// Whether the write committed.
    pub committed: bool,
}

/// The stamp of an entry the database has not stamped yet.
pub open spec fn unstamped() -> Seq<u8> {
    seq![255u8, 255, 255, 255, 255, 255, 255, 255, 255, 255, 0, 0]
}

fn no_stamp() -> (r: [u8; 12])
    ensures
        r@ == unstamped(),
{
    let r: [u8; 12] = [255, 255, 255, 255, 255, 255, 255, 255, 255, 255, 0, 0];
    assert(r@ =~= unstamped());
    r
}

/// An entry that did nothing: it found `state` and left it.
pub open spec fn idle_entry(
    occasion: Occasion,
    kind: i64,
    actor: Seq<char>,
    state: DurableView,
) -> EntryView {
    EntryView {
        versionstamp: unstamped(),
        client_id: occasion.client_id,
        incarnation: occasion.incarnation,
        op_num: occasion.op_num,
        kind,
        actor,
        prior: state,
        current: state,
        local_input: LocalView::Unknown,
        tracks_local_state: occasion.tracks_local_state,
        attempt_started_at: occasion.attempt_started_at@,
        configured_lease_duration: occasion.configured_lease_duration@,
        planned_adoption_delay: None,
        transition: TRANSITION_NONE,
        result: false,
        requested_write_rank: 0,
        observed_write_rank: 0,
        observed_value: None,
        protected_write_committed: false,
        payload: Seq::empty(),
    }
}

/// What a poll writes down.
pub open spec fn poll_entry(
    occasion: Occasion,
    actor: Seq<char>,
    prior: DurableView,
    current: DurableView,
    local: LocalView,
    planned: Option<nat>,
    transition: PollTransition,
    write: Option<FencedWrite>,
) -> EntryView {
    let polled = EntryView {
        current,
        local_input: local,
        planned_adoption_delay: planned,
        transition: transition.code(),
        ..idle_entry(occasion, OP_POLL, actor, prior)
    };
    match write {
        Some(write) => EntryView {
            result: true,
            requested_write_rank: write.rank,
            observed_write_rank: write.observed_rank,
            observed_value: lease_types::value_view(write.observed_value),
            protected_write_committed: write.committed,
            payload: lease_types::payload_of("leader"@, actor, occasion.op_num),
            ..polled
        },
        None => polled,
    }
}

/// What the resignation of a leadership writes down: its holder is the actor.
pub open spec fn resign_entry(
    occasion: Occasion,
    token: TokenView,
    prior: DurableView,
    current: DurableView,
    resigned: bool,
) -> EntryView {
    EntryView {
        current,
        local_input: token.local(),
        result: resigned,
        ..idle_entry(occasion, OP_RESIGN, token.participant, prior)
    }
}

/// What an observation writes down.
pub open spec fn observer_entry(occasion: Occasion, actor: Seq<char>, state: DurableView) -> EntryView {
    EntryView {
        result: true,
        tracks_local_state: false,
        ..idle_entry(occasion, OP_OBSERVE, actor, state)
    }
}

/// What a write at a stale rank writes down.
pub open spec fn stale_write_entry(
    occasion: Occasion,
    actor: Seq<char>,
    state: DurableView,
    write: FencedWrite,
) -> EntryView {
    EntryView {
        result: write.committed,
        requested_write_rank: write.rank,
        observed_write_rank: write.observed_rank,
        observed_value: lease_types::value_view(write.observed_value),
        protected_write_committed: write.committed,
        payload: lease_types::payload_of("stale"@, actor, occasion.op_num),
        tracks_local_state: false,
        ..idle_entry(occasion, OP_STALE_WRITE, actor, state)
    }
}

fn idle(occasion: Occasion, kind: i64, actor: String, prior: DurableState, current: DurableState) -> (r:
    LogEntry)
    ensures
        r@ == (EntryView { current: current@, ..idle_entry(occasion, kind, actor@, prior@) }),
{
    LogEntry {
        versionstamp: no_stamp(),
        client_id: occasion.client_id,
        incarnation: occasion.incarnation,
        op_num: occasion.op_num,
        kind,
        actor,
        prior,
        current,
        local_input: LocalInput::Unknown,
        tracks_local_state: occasion.tracks_local_state,
        attempt_started_at: occasion.attempt_started_at,
        configured_lease_duration: occasion.configured_lease_duration,
        planned_adoption_delay: None,
        transition: TRANSITION_NONE,
        result: false,
        requested_write_rank: 0,
        observed_write_rank: 0,
        observed_value: None,
        protected_write_committed: false,
        payload: Vec::new(),
    }
}

/// What a poll writes down: a leader's fenced write with it, a follower's none.
pub fn record_poll(
    occasion: Occasion,
    actor: String,
    prior: DurableState,
    current: DurableState,
    local: LocalInput,
    planned_adoption_delay: Option<Duration>,
    transition: PollTransition,
    write: Option<FencedWrite>,
) -> (r: LogEntry)
    ensures
        r@ == poll_entry(
            occasion,
            actor@,
            prior@,
            current@,
            local@,
            lease_types::span_view(planned_adoption_delay),
            transition,
            write,
        ),
{
    let payload = protected_payload(actor.as_str(), occasion.op_num);
    let mut r = idle(occasion, OP_POLL, actor, prior, current);
    r.local_input = local;
    r.planned_adoption_delay = planned_adoption_delay;
    r.transition = transition_code(transition);
    match write {
        Some(write) => {
            r.result = true;
            r.requested_write_rank = write.rank;
            r.observed_write_rank = write.observed_rank;
            r.observed_value = write.observed_value;
            r.protected_write_committed = write.committed;
            r.payload = payload;
        },
        None => {},
    }
    r
}

/// What the resignation of a leadership writes down.
pub fn record_resign(
    occasion: Occasion,
    token: Token,
    prior: DurableState,
    current: DurableState,
    resigned: bool,
) -> (r: LogEntry)
    ensures
        r@ == resign_entry(occasion, token@, prior@, current@, resigned),
{
    let mut r = idle(occasion, OP_RESIGN, token.participant.clone(), prior, current);
    r.local_input = LocalInput::Leadership {
        participant: token.participant,
        rank: token.rank,
        lease_duration: token.lease_duration,
        renewed_at: token.renewed_at,
    };
    r.result = resigned;
    r
}

/// What an observation writes down.
pub fn record_observer(occasion: Occasion, actor: String, state: DurableState) -> (r: LogEntry)
    ensures
        r@ == observer_entry(occasion, actor@, state@),
{
    let same = state.clone();
    let mut r = idle(occasion, OP_OBSERVE, actor, state, same);
    r.tracks_local_state = false;
    r.result = true;
    r
}

/// What a write at a stale rank writes down.
pub fn record_stale_write(
    occasion: Occasion,
    actor: String,
    state: DurableState,
    write: FencedWrite,
) -> (r: LogEntry)
    ensures
        r@ == stale_write_entry(occasion, actor@, state@, write),
{
    let payload = stale_payload(actor.as_str(), occasion.op_num);
    let same = state.clone();
    let mut r = idle(occasion, OP_STALE_WRITE, actor, state, same);
    r.tracks_local_state = false;
    r.result = write.committed;
    r.requested_write_rank = write.rank;
    r.observed_write_rank = write.observed_rank;
    r.observed_value = write.observed_value;
    r.protected_write_committed = write.committed;
    r.payload = payload;
    r
}

// ---------------------------------------------------------------------------
// What the oracle makes of these records
// ---------------------------------------------------------------------------

/// An observation is accepted wherever it found what the oracle has.
pub proof fn an_observation_is_accepted(occasion: Occasion, actor: Seq<char>, s: lease_oracle::OracleView)
    ensures
        lease_oracle::after_observe(observer_entry(occasion, actor, s.election), s) == Ok::<
            lease_oracle::OracleView,
            Seq<char>,
        >(s),
{
}

/// A write at a rank already passed is accepted only where the register turned it
/// down and still holds what the oracle has.
pub proof fn a_stale_write_must_be_turned_down(
    occasion: Occasion,
    actor: Seq<char>,
    write: FencedWrite,
    s: lease_oracle::OracleView,
)
    ensures
        lease_oracle::was_rejected(stale_write_entry(occasion, actor, s.election, write), s) <==> (
        !write.committed && write.rank < s.election.rank && write.observed_rank == s.protected_rank
            && lease_types::value_view(write.observed_value) == s.protected_value),
{
}

/// A leader's poll shows the evidence it owes exactly where it moved the election
/// one rank on to itself and its fenced write at that rank committed over what
/// the register held.
pub proof fn a_leader_shows_its_evidence(
    occasion: Occasion,
    actor: Seq<char>,
    current: DurableView,
    local: LocalView,
    transition: PollTransition,
    write: FencedWrite,
    s: lease_oracle::OracleView,
)
    requires
        s.election.rank < u64::MAX,
    ensures
        ({
            let entry = poll_entry(
                occasion,
                actor,
                s.election,
                current,
                local,
                None,
                transition,
                Some(write),
            );
            lease_oracle::shows_evidence(entry, s) <==> (current == lease_oracle::acquired_state(
                entry,
                s.election,
            ) && write.rank == s.election.rank + 1 && write.observed_rank == s.protected_rank
                && lease_types::value_view(write.observed_value) == s.protected_value
                && write.committed)
        }),
{
}

/// A resignation is accepted where it released exactly what its token held, and
/// only then.
pub proof fn a_resignation_is_accepted(occasion: Occasion, token: TokenView, s: lease_oracle::OracleView)
    ensures
        ({
            let probe = resign_entry(occasion, token, s.election, s.election, false);
            let exact = lease_oracle::token_stands(probe, s.election);
            let released = DurableView { owner: None, ..s.election };
            &&& exact ==> lease_oracle::after_resign(
                resign_entry(occasion, token, s.election, released, true),
                s,
            ) is Ok
            &&& !exact ==> lease_oracle::after_resign(probe, s) is Ok
            &&& lease_oracle::after_resign(
                resign_entry(occasion, token, s.election, s.election, true),
                s,
            ) is Err || (exact && released == s.election)
        }),
{
}

} // verus!
