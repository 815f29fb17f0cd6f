//! The independent oracle of the leader-lease simulation.
//!
//! It walks the operation log in commit order, holds every entry to the
//! protocol's rules, and notes which of the interesting paths the run took. It
//! never asks the recipe anything.

use crate::duration;
use crate::duration::Duration;
use crate::lease_types;
use crate::lease_types::{
    copy_bytes, same_bytes, same_optional_value, DurableState, DurableView, EntryView, LocalInput,
    LocalView, LogEntry, Snapshot, SnapshotView, OP_OBSERVE, OP_POLL, OP_RESIGN, OP_STALE_WRITE,
    TRANSITION_ACQUIRED, TRANSITION_FOLLOWED, TRANSITION_NONE, TRANSITION_REACQUIRED,
    TRANSITION_RENEWED, TRANSITION_TOOK_OVER,
};
use crate::lease_wire::{protected_payload, stale_payload};
use crate::name_set::NameSet;
use crate::stamps;
use crate::stamps::{is_complete, stamp_number};
use crate::text;
use crate::text::{number_text, quoted, same_text, signed_text};
use vstd::prelude::*;
use vstd::string::*;

verus! {

/// What the name of every participant in the coordinated race starts with.
pub const RACE_PARTICIPANT_PREFIX: &'static str = "race\0";

/// How many witnesses the completion phase drives deterministically.
pub const FORCED_WITNESS_COUNT: usize = 9;

/// How many witnesses depend on swarm state or simulated timing.
pub const PROBABILISTIC_WITNESS_COUNT: usize = 7;

// ---------------------------------------------------------------------------
// What a caller is expected to bring
// ---------------------------------------------------------------------------

/// The local state an incarnation is expected to bring to its next operation.
#[derive(Debug)]
pub enum LocalExpectation {
    /// Exactly this.
    Exact(LocalInput),
    /// An observation of this leader, adopted after the poll that found it.
    AdoptedObservation {
        /// The leader.
        owner: String,
        /// Its rank.
        rank: u64,
        /// Its lease.
        lease_duration: Duration,
        /// When the poll that found it started.
        not_before: Duration,
        /// How long the caller meant to wait before adopting it.
        planned_adoption_delay: Option<Duration>,
    },
}

/// What a [`LocalExpectation`] says.
#[verifier::ext_equal]
pub enum ExpectationView {
    Exact(LocalView),
    AdoptedObservation {
        owner: Seq<char>,
        rank: u64,
        lease_duration: nat,
        not_before: nat,
        planned_adoption_delay: Option<nat>,
    },
}

impl View for LocalExpectation {
    type V = ExpectationView;

    open spec fn view(&self) -> ExpectationView {
        match *self {
            LocalExpectation::Exact(local) => ExpectationView::Exact(local@),
            LocalExpectation::AdoptedObservation {
                owner,
                rank,
                lease_duration,
                not_before,
                planned_adoption_delay,
            } => ExpectationView::AdoptedObservation {
                owner: owner@,
                rank,
                lease_duration: lease_duration@,
                not_before: not_before@,
                planned_adoption_delay: lease_types::span_view(planned_adoption_delay),
            },
        }
    }
}

// ---------------------------------------------------------------------------
// Small rules
// ---------------------------------------------------------------------------

/// How long it was from one instant to a later one; no time where it was not
/// later.
pub open spec fn elapsed(from: nat, to: nat) -> nat {
    if to < from {
        0
    } else {
        (to - from) as nat
    }
}

/// The sum of two spans, as far as a span goes.
pub open spec fn span_sum(a: nat, b: nat) -> nat {
    if a + b > duration::longest() {
        duration::longest()
    } else {
        a + b
    }
}

/// Whether an observation made at `observed_at` is late enough for one planned
/// `delay` after `not_before`, give or take the nanosecond that simulated time
/// loses on its way through a float.
pub open spec fn adopted_late_enough(observed_at: nat, not_before: nat, delay: nat) -> bool {
    observed_at >= elapsed(1, span_sum(not_before, delay))
}

/// Whether an adopted observation waited out its planned delay.
pub fn adopted_after_planned_delay(
    observed_at: Duration,
    not_before: Duration,
    planned_adoption_delay: Duration,
) -> (r: bool)
    ensures
        r == adopted_late_enough(observed_at@, not_before@, planned_adoption_delay@),
{
    !observed_at.shorter_than(
        &not_before.saturating_add(planned_adoption_delay).saturating_sub(Duration::from_nanos(1)),
    )
}

/// The tolerance is one nanosecond and no more.
pub proof fn adoption_tolerates_one_nanosecond(not_before: nat, delay: nat)
    requires
        1 <= not_before + delay <= duration::longest(),
    ensures
        adopted_late_enough((not_before + delay - 1) as nat, not_before, delay),
        not_before + delay >= 2 ==> !adopted_late_enough(
            (not_before + delay - 2) as nat,
            not_before,
            delay,
        ),
{
}

/// Whether an election stands exactly as a token of it says.
pub open spec fn stands(election: DurableView, owner: Seq<char>, rank: u64, lease: nat) -> bool {
    election.owner == Some(owner) && election.rank == rank && election.lease_duration == Some(lease)
}

fn still_stands(election: &DurableState, owner: &str, rank: u64, lease: &Duration) -> (r: bool)
    ensures
        r == stands(election@, owner@, rank, lease@),
{
    election.owned_by(owner) && election.rank == rank && election.leased_for(lease)
}

/// Whether the entry's caller may renew: it holds a token of its own that still
/// stands and whose lease has not run out.
pub open spec fn may_renew(entry: EntryView, election: DurableView) -> bool {
    entry.local_input matches LocalView::Leadership {
        participant,
        rank,
        lease_duration,
        renewed_at,
    } && participant == entry.actor && stands(election, entry.actor, rank, lease_duration)
        && elapsed(renewed_at, entry.attempt_started_at) < lease_duration
}

/// Whether the entry's caller may take the election over: what it observed still
/// stands and it has watched it for a whole lease.
pub open spec fn may_take_over(entry: EntryView, election: DurableView) -> bool {
    entry.local_input matches LocalView::Observation {
        owner,
        rank,
        lease_duration,
        observed_at,
    } && stands(election, owner, rank, lease_duration) && elapsed(
        observed_at,
        entry.attempt_started_at,
    ) >= lease_duration
}

/// Whether the entry's caller may renew.
pub fn renewal_enabled(entry: &LogEntry, election: &DurableState) -> (r: bool)
    ensures
        r == may_renew(entry@, election@),
{
    match &entry.local_input {
        LocalInput::Leadership { participant, rank, lease_duration, renewed_at } => same_text(
            participant.as_str(),
            entry.actor.as_str(),
        ) && still_stands(election, entry.actor.as_str(), *rank, lease_duration)
            && entry.attempt_started_at.saturating_sub(*renewed_at).shorter_than(lease_duration),
        _ => false,
    }
}

/// Whether the entry's caller may take the election over.
pub fn takeover_enabled(entry: &LogEntry, election: &DurableState) -> (r: bool)
    ensures
        r == may_take_over(entry@, election@),
{
    match &entry.local_input {
        LocalInput::Observation { owner, rank, lease_duration, observed_at } => still_stands(
            election,
            owner.as_str(),
            *rank,
            lease_duration,
        ) && !entry.attempt_started_at.saturating_sub(*observed_at).shorter_than(lease_duration),
        _ => false,
    }
}

/// Whether an operation touched the protected register.
pub open spec fn touched_register(entry: EntryView) -> bool {
    entry.requested_write_rank != 0 || entry.observed_write_rank != 0 || entry.observed_value
        is Some || entry.protected_write_committed || entry.payload.len() > 0
}

/// Whether an operation touched the protected register.
pub fn has_protected_effect(entry: &LogEntry) -> (r: bool)
    ensures
        r == touched_register(entry@),
{
    entry.requested_write_rank != 0 || entry.observed_write_rank != 0
        || entry.observed_value.is_some() || entry.protected_write_committed
        || entry.payload.len() > 0
}

/// How an operation is named in a complaint: `(client, op_num)`.
pub open spec fn operation_text(entry: EntryView) -> Seq<char> {
    "("@ + text::int_text(entry.client_id as int) + ", "@ + text::nat_text(entry.op_num as nat)
        + ")"@
}

fn operation_words(entry: &LogEntry) -> (r: String)
    ensures
        r@ == operation_text(entry@),
{
    "(".to_owned().concat(signed_text(entry.client_id as i64).as_str()).concat(", ").concat(
        number_text(entry.op_num).as_str(),
    ).concat(")")
}

/// How an incarnation is named in a complaint: `incarnation (actor, n)`.
pub open spec fn incarnation_text(entry: EntryView) -> Seq<char> {
    "incarnation ("@ + entry.actor + ", "@ + text::nat_text(entry.incarnation as nat) + ")"@
}

fn incarnation_words(entry: &LogEntry) -> (r: String)
    ensures
        r@ == incarnation_text(entry@),
{
    "incarnation (".to_owned().concat(entry.actor.as_str()).concat(", ").concat(
        number_text(entry.incarnation).as_str(),
    ).concat(")")
}

/// A complaint about the transition a poll reported.
pub open spec fn poll_complaint(entry: EntryView, message: Seq<char>) -> Seq<char> {
    "poll "@ + operation_text(entry) + " transition "@ + text::int_text(entry.transition as int)
        + " invalid: "@ + message
}

/// A complaint about the transition a poll reported.
pub fn poll_transition_error(entry: &LogEntry, message: &str) -> (r: String)
    ensures
        r@ == poll_complaint(entry@, message@),
{
    "poll ".to_owned().concat(operation_words(entry).as_str()).concat(" transition ").concat(
        signed_text(entry.transition).as_str(),
    ).concat(" invalid: ").concat(message)
}

/// Whether a participant takes part in the coordinated race.
pub open spec fn races(actor: Seq<char>) -> bool {
    actor.len() >= RACE_PARTICIPANT_PREFIX@.len() && actor.take(
        RACE_PARTICIPANT_PREFIX@.len() as int,
    ) == RACE_PARTICIPANT_PREFIX@
}

/// Whether a participant takes part in the coordinated race.
pub fn is_racer(actor: &str) -> (r: bool)
    ensures
        r == races(actor@),
{
    let prefix = RACE_PARTICIPANT_PREFIX;
    proof {
        reveal_strlit("race\0");
    }
    if actor.unicode_len() < 5 {
        return false;
    }
    let mut i: usize = 0;
    while i < 5
        invariant
            i <= 5,
            prefix@ == RACE_PARTICIPANT_PREFIX@,
            prefix@.len() == 5,
            actor@.len() >= 5,
            forall|k: int| 0 <= k < i ==> actor@[k] == prefix@[k],
        decreases 5 - i,
    {
        if actor.get_char(i) != prefix.get_char(i) {
            assert(actor@.take(5)[i as int] != prefix@[i as int]);
            return false;
        }
        i = i + 1;
    }
    assert(actor@.take(5) =~= prefix@);
    true
}

// ---------------------------------------------------------------------------
// The transition a poll reported
// ---------------------------------------------------------------------------

/// Whether a poll's report is allowed, and if so whether the caller leads.
pub open spec fn poll_verdict(entry: EntryView, election: DurableView) -> Result<bool, Seq<char>> {
    let unsafe_report = Err::<bool, Seq<char>>(
        poll_complaint(entry, "reported transition violates its safety preconditions"@),
    );
    if entry.transition == TRANSITION_ACQUIRED {
        if entry.result && election.owner is None {
            Ok(entry.result)
        } else {
            unsafe_report
        }
    } else if entry.transition == TRANSITION_RENEWED {
        if !(entry.local_input is Leadership) {
            Err(poll_complaint(entry, "renewal lacks a leadership token"@))
        } else if entry.result && may_renew(entry, election) {
            Ok(entry.result)
        } else {
            unsafe_report
        }
    } else if entry.transition == TRANSITION_TOOK_OVER || entry.transition
        == TRANSITION_REACQUIRED {
        match entry.local_input {
            LocalView::Observation { owner, .. } => if entry.result && may_take_over(
                entry,
                election,
            ) && (entry.transition == TRANSITION_REACQUIRED) == (owner == entry.actor) {
                Ok(entry.result)
            } else {
                unsafe_report
            },
            _ => Err(poll_complaint(entry, "takeover lacks an observation"@)),
        }
    } else if entry.transition == TRANSITION_FOLLOWED {
        if !entry.result && election.owner is Some && !may_renew(entry, election)
            && !may_take_over(entry, election) {
            Ok(entry.result)
        } else {
            unsafe_report
        }
    } else {
        Err("unknown poll transition "@ + text::int_text(entry.transition as int))
    }
}

/// Whether a poll's report is allowed, and if so whether the caller leads.
pub fn validate_reported_poll(entry: &LogEntry, election: &DurableState) -> (r: Result<
    bool,
    String,
>)
    ensures
        match r {
            Ok(leader) => poll_verdict(entry@, election@) == Ok::<bool, Seq<char>>(leader),
            Err(text) => poll_verdict(entry@, election@) == Err::<bool, Seq<char>>(text@),
        },
{
    let valid = if entry.transition == TRANSITION_ACQUIRED {
        entry.result && election.owner.is_none()
    } else if entry.transition == TRANSITION_RENEWED {
        match &entry.local_input {
            LocalInput::Leadership { .. } => {},
            _ => {
                return Err(poll_transition_error(entry, "renewal lacks a leadership token"));
            },
        }
        entry.result && renewal_enabled(entry, election)
    } else if entry.transition == TRANSITION_TOOK_OVER || entry.transition
        == TRANSITION_REACQUIRED {
        match &entry.local_input {
            LocalInput::Observation { owner, .. } => {
                let own = same_text(owner.as_str(), entry.actor.as_str());
                entry.result && takeover_enabled(entry, election) && (entry.transition
                    == TRANSITION_REACQUIRED) == own
            },
            _ => {
                return Err(poll_transition_error(entry, "takeover lacks an observation"));
            },
        }
    } else if entry.transition == TRANSITION_FOLLOWED {
        !entry.result && election.owner.is_some() && !renewal_enabled(entry, election)
            && !takeover_enabled(entry, election)
    } else {
        return Err(
            "unknown poll transition ".to_owned().concat(signed_text(entry.transition).as_str()),
        );
    };
    if valid {
        Ok(entry.result)
    } else {
        Err(
            poll_transition_error(
                entry,
                "reported transition violates its safety preconditions",
            ),
        )
    }
}

/// A poll that leads either found nobody, or held or had outwaited exactly what
/// stands: the oracle accepts no other way into leadership.
pub proof fn leadership_is_never_taken_from_a_live_holder(entry: EntryView, election: DurableView)
    requires
        poll_verdict(entry, election) == Ok::<bool, Seq<char>>(true),
    ensures
        election.owner is None || may_renew(entry, election) || may_take_over(entry, election),
{
}

// ---------------------------------------------------------------------------
// Witnesses
// ---------------------------------------------------------------------------

/// Which of the interesting paths a run took, the coordinated race apart.
#[derive(Debug, Clone, Copy, PartialEq, Eq, Structural)]
pub struct Sightings {
    /// An expired election was taken.
    pub saw_expiry: bool,
    /// An expired election was taken from somebody else.
    pub saw_foreign_takeover: bool,
    /// The rank of the last takeover.
    pub last_takeover_rank: Option<u64>,
    /// A follower polled before the lease it watched ran out.
    pub saw_before_expiry: bool,
    /// An election was taken the instant its lease ran out.
    pub saw_exact_expiry: bool,
    /// An election was polled after its lease ran out.
    pub saw_after_expiry: bool,
    /// A leader's own token failed to renew.
    pub saw_stale_renew: bool,
    /// A leader's token failed to renew because its rank had been passed.
    pub saw_stale_renew_after_advance: bool,
    /// A resignation released nothing.
    pub saw_stale_resign: bool,
    /// A resignation came after its lease and released nothing.
    pub saw_delayed_stale_resign: bool,
    /// A resignation came after a takeover and released nothing.
    pub saw_stale_resign_after_takeover: bool,
    /// A resignation released the election.
    pub saw_exact_resign: bool,
    /// A stale write was rejected.
    pub saw_stale_write: bool,
    /// A stale write at rank zero was rejected.
    pub saw_zero_rank_stale_write: bool,
    /// A stale write at a rank that had been passed was rejected.
    pub saw_post_advance_stale_write: bool,
    /// The rank of the last renewal that changed the lease.
    pub renewal_with_new_duration_rank: Option<u64>,
    /// A follower met a changed lease with no observation of it.
    pub saw_follower_duration_reset: bool,
    /// An observation was adopted later than its own lease.
    pub saw_delayed_observation_adoption: bool,
}

/// Which of the interesting paths a run took.
#[derive(Debug)]
pub struct ReplayWitnesses {
    /// Everything but the coordinated race.
    pub seen: Sightings,
    /// How the coordinated race went.
    pub race: RaceWitnesses,
}

/// How the coordinated race went.
#[derive(Debug)]
pub struct RaceWitnesses {
    /// What the contenders all observed.
    pub predecessor: Option<(String, u64, Duration)>,
    /// The contenders.
    pub contenders: NameSet,
    /// The winner.
    pub winner: Option<String>,
    /// The contenders whose stale write was rejected.
    pub stale_writers: NameSet,
}

/// What [`ReplayWitnesses`] say.
pub struct WitnessView {
    pub seen: Sightings,
    pub race: RaceView,
}

/// What [`RaceWitnesses`] say.
pub struct RaceView {
    pub predecessor: Option<(Seq<char>, u64, nat)>,
    pub contenders: Set<Seq<char>>,
    pub winner: Option<Seq<char>>,
    pub stale_writers: Set<Seq<char>>,
}

impl View for RaceWitnesses {
    type V = RaceView;

    open spec fn view(&self) -> RaceView {
        RaceView {
            predecessor: predecessor_view(self.predecessor),
            contenders: self.contenders@,
            winner: lease_types::text_view(self.winner),
            stale_writers: self.stale_writers@,
        }
    }
}

/// What an observed predecessor says.
pub open spec fn predecessor_view(predecessor: Option<(String, u64, Duration)>) -> Option<
    (Seq<char>, u64, nat),
> {
    match predecessor {
        Some(p) => Some((p.0@, p.1, p.2@)),
        None => None,
    }
}

impl View for ReplayWitnesses {
    type V = WitnessView;

    open spec fn view(&self) -> WitnessView {
        WitnessView {
            seen: self.seen,
            race: self.race@,
        }
    }
}

/// A run that took none of the paths.
pub open spec fn nothing_seen() -> WitnessView {
    WitnessView {
        seen: Sightings {
            saw_expiry: false,
            saw_foreign_takeover: false,
            last_takeover_rank: None,
            saw_before_expiry: false,
            saw_exact_expiry: false,
            saw_after_expiry: false,
            saw_stale_renew: false,
            saw_stale_renew_after_advance: false,
            saw_stale_resign: false,
            saw_delayed_stale_resign: false,
            saw_stale_resign_after_takeover: false,
            saw_exact_resign: false,
            saw_stale_write: false,
            saw_zero_rank_stale_write: false,
            saw_post_advance_stale_write: false,
            renewal_with_new_duration_rank: None,
            saw_follower_duration_reset: false,
            saw_delayed_observation_adoption: false,
        },
        race: RaceView {
            predecessor: None,
            contenders: Set::empty(),
            winner: None,
            stale_writers: Set::empty(),
        },
    }
}

impl Default for ReplayWitnesses {
    fn default() -> (r: ReplayWitnesses)
        ensures
            r@ == nothing_seen(),
    {
        ReplayWitnesses {
            seen: Sightings {
                saw_expiry: false,
                saw_foreign_takeover: false,
                last_takeover_rank: None,
                saw_before_expiry: false,
                saw_exact_expiry: false,
                saw_after_expiry: false,
                saw_stale_renew: false,
                saw_stale_renew_after_advance: false,
                saw_stale_resign: false,
                saw_delayed_stale_resign: false,
                saw_stale_resign_after_takeover: false,
                saw_exact_resign: false,
                saw_stale_write: false,
                saw_zero_rank_stale_write: false,
                saw_post_advance_stale_write: false,
                renewal_with_new_duration_rank: None,
                saw_follower_duration_reset: false,
                saw_delayed_observation_adoption: false,
            },
            race: RaceWitnesses {
                predecessor: None,
                contenders: NameSet::new(),
                winner: None,
                stale_writers: NameSet::new(),
            },
        }
    }
}

// ---------------------------------------------------------------------------
// The coordinated race
// ---------------------------------------------------------------------------

/// Whether an entry is a contender's bid in the coordinated race: a racer that
/// has outwaited what it observed.
pub open spec fn is_bid(entry: EntryView) -> bool {
    entry.local_input matches LocalView::Observation { lease_duration, observed_at, .. } && races(
        entry.actor,
    ) && elapsed(observed_at, entry.attempt_started_at) >= lease_duration
}

/// What a contender's bid observed.
pub open spec fn bid_predecessor(entry: EntryView) -> (Seq<char>, u64, nat) {
    match entry.local_input {
        LocalView::Observation { owner, rank, lease_duration, .. } => (owner, rank, lease_duration),
        _ => arbitrary(),
    }
}

/// The race after a bid: every contender observed the same predecessor, bid
/// once, and at most one of them won.
pub open spec fn after_bid(entry: EntryView, w: RaceView) -> Result<RaceView, Seq<char>> {
    let predecessor = bid_predecessor(entry);
    let entered = RaceView {
        predecessor: Some(predecessor),
        contenders: w.contenders.insert(entry.actor),
        ..w
    };
    if !is_bid(entry) {
        Ok(w)
    } else if w.predecessor is Some && w.predecessor != Some(predecessor) {
        Err("coordinated race contenders observed different predecessors"@)
    } else if w.contenders.contains(entry.actor) {
        Err("coordinated race contender retried as a second logical operation"@)
    } else if entry.transition == TRANSITION_TOOK_OVER && entry.result {
        if w.winner is Some {
            Err("coordinated race elected more than one winner"@)
        } else {
            Ok(RaceView { winner: Some(entry.actor), ..entered })
        }
    } else if entry.transition == TRANSITION_FOLLOWED && !entry.result {
        Ok(entered)
    } else {
        Err("coordinated race contender reported an invalid outcome"@)
    }
}

/// The race after a bid that does not hold together: what the bid put down before it
/// was found out stays.
pub open spec fn upset_by_bid(entry: EntryView, w: RaceView) -> RaceView {
    let predecessor = bid_predecessor(entry);
    let entered = RaceView {
        predecessor: Some(predecessor),
        contenders: w.contenders.insert(entry.actor),
        ..w
    };
    if w.predecessor is Some && w.predecessor != Some(predecessor) {
        w
    } else if entry.transition == TRANSITION_TOOK_OVER && entry.result && !w.contenders.contains(
        entry.actor,
    ) {
        RaceView { winner: Some(entry.actor), ..entered }
    } else {
        entered
    }
}

/// Notes a bid in the coordinated race.
pub fn record_race_takeover(entry: &LogEntry, race: &mut RaceWitnesses) -> (r: Result<
    (),
    String,
>)
    ensures
        match r {
            Ok(_) => after_bid(entry@, old(race)@) == Ok::<RaceView, Seq<char>>(
                final(race)@,
            ),
            Err(text) => after_bid(entry@, old(race)@) == Err::<RaceView, Seq<char>>(text@)
                && final(race)@ == upset_by_bid(entry@, old(race)@),
        },
{
    let (owner, rank, lease_duration, observed_at) = match &entry.local_input {
        LocalInput::Observation { owner, rank, lease_duration, observed_at } => (
            owner,
            *rank,
            *lease_duration,
            *observed_at,
        ),
        _ => {
            return Ok(());
        },
    };
    if !is_racer(entry.actor.as_str()) || entry.attempt_started_at.saturating_sub(
        observed_at,
    ).shorter_than(&lease_duration) {
        return Ok(());
    }
    let known = match &race.predecessor {
        Some((other, other_rank, other_lease)) => {
            if !(same_text(other.as_str(), owner.as_str()) && *other_rank == rank
                && other_lease.same_as(&lease_duration)) {
                return Err(
                    "coordinated race contenders observed different predecessors".to_owned(),
                );
            }
            true
        },
        None => false,
    };
    if !known {
        race.predecessor = Some((owner.clone(), rank, lease_duration));
    }
    if !race.contenders.insert(entry.actor.clone()) {
        return Err("coordinated race contender retried as a second logical operation".to_owned());
    }
    if entry.transition == TRANSITION_TOOK_OVER && entry.result {
        let second = race.winner.is_some();
        race.winner = Some(entry.actor.clone());
        if second {
            return Err("coordinated race elected more than one winner".to_owned());
        }
    } else if !(entry.transition == TRANSITION_FOLLOWED && !entry.result) {
        return Err("coordinated race contender reported an invalid outcome".to_owned());
    }
    Ok(())
}

/// The race after a stale write: a racer writes once, at the rank of the
/// predecessor everybody observed.
pub open spec fn after_stale_write(entry: EntryView, w: RaceView) -> Result<
    RaceView,
    Seq<char>,
> {
    if !races(entry.actor) {
        Ok(w)
    } else if w.predecessor is None {
        Err("coordinated race stale write lacks a predecessor"@)
    } else if entry.requested_write_rank != w.predecessor->Some_0.1 {
        Err("coordinated race stale write used the wrong rank"@)
    } else if w.stale_writers.contains(entry.actor) {
        Err("coordinated race contender issued multiple stale writes"@)
    } else {
        Ok(RaceView { stale_writers: w.stale_writers.insert(entry.actor), ..w })
    }
}

/// Notes a stale write in the coordinated race.
pub fn record_race_stale_write(entry: &LogEntry, race: &mut RaceWitnesses) -> (r: Result<
    (),
    String,
>)
    ensures
        match r {
            Ok(_) => after_stale_write(entry@, old(race)@) == Ok::<RaceView, Seq<char>>(
                final(race)@,
            ),
            Err(text) => after_stale_write(entry@, old(race)@) == Err::<RaceView, Seq<char>>(text@)
                && final(race)@ == old(race)@,
        },
{
    if !is_racer(entry.actor.as_str()) {
        return Ok(());
    }
    match &race.predecessor {
        None => {
            return Err("coordinated race stale write lacks a predecessor".to_owned());
        },
        Some(predecessor) => {
            if entry.requested_write_rank != predecessor.1 {
                return Err("coordinated race stale write used the wrong rank".to_owned());
            }
        },
    }
    let ghost writers = race.stale_writers@;
    if !race.stale_writers.insert(entry.actor.clone()) {
        assert(race.stale_writers@ =~= writers);
        return Err("coordinated race contender issued multiple stale writes".to_owned());
    }
    Ok(())
}

// ---------------------------------------------------------------------------
// Local state
// ---------------------------------------------------------------------------

/// The observation a follower is expected to adopt, or what its poll lost.
pub open spec fn expected_observation(
    election: DurableView,
    not_before: nat,
    planned_adoption_delay: Option<nat>,
) -> Result<ExpectationView, Seq<char>> {
    if election.owner is None {
        Err("follower poll lost owner"@)
    } else if election.lease_duration is None {
        Err("follower poll lost lease duration"@)
    } else {
        Ok(
            ExpectationView::AdoptedObservation {
                owner: election.owner->Some_0,
                rank: election.rank,
                lease_duration: election.lease_duration->Some_0,
                not_before,
                planned_adoption_delay,
            },
        )
    }
}

/// The observation a follower is expected to adopt, or what its poll lost.
pub fn follower_observation_expectation(
    election: &DurableState,
    not_before: Duration,
    planned_adoption_delay: Option<Duration>,
) -> (r: Result<LocalExpectation, String>)
    ensures
        match r {
            Ok(expectation) => expected_observation(
                election@,
                not_before@,
                lease_types::span_view(planned_adoption_delay),
            ) == Ok::<ExpectationView, Seq<char>>(expectation@),
            Err(text) => expected_observation(
                election@,
                not_before@,
                lease_types::span_view(planned_adoption_delay),
            ) == Err::<ExpectationView, Seq<char>>(text@),
        },
{
    let owner = match &election.owner {
        Some(owner) => owner.clone(),
        None => {
            return Err("follower poll lost owner".to_owned());
        },
    };
    let lease_duration = match election.lease_duration {
        Some(lease) => lease,
        None => {
            return Err("follower poll lost lease duration".to_owned());
        },
    };
    Ok(
        LocalExpectation::AdoptedObservation {
            owner,
            rank: election.rank,
            lease_duration,
            not_before,
            planned_adoption_delay,
        },
    )
}

/// What an incarnation must bring to its next operation, given that this one
/// left the election standing as `election`; nothing where the operation does
/// not touch local state.
pub open spec fn expectation_after(entry: EntryView, election: DurableView) -> Result<
    Option<ExpectationView>,
    Seq<char>,
> {
    if !entry.tracks_local_state {
        Ok(None)
    } else if entry.kind == OP_POLL && entry.result {
        if entry.planned_adoption_delay is Some {
            Err("leader poll planned a follower adoption delay"@)
        } else if election.lease_duration is None {
            Err("leader poll lost lease duration"@)
        } else {
            Ok(
                Some(
                    ExpectationView::Exact(
                        LocalView::Leadership {
                            participant: entry.actor,
                            rank: election.rank,
                            lease_duration: election.lease_duration->Some_0,
                            renewed_at: entry.attempt_started_at,
                        },
                    ),
                ),
            )
        }
    } else if entry.kind == OP_POLL {
        if entry.local_input matches LocalView::Observation { owner, rank, lease_duration, .. }
            && stands(election, owner, rank, lease_duration) {
            if entry.planned_adoption_delay is Some {
                Err("preserved follower observation planned a delay"@)
            } else {
                Ok(Some(ExpectationView::Exact(entry.local_input)))
            }
        } else {
            match expected_observation(
                election,
                entry.attempt_started_at,
                entry.planned_adoption_delay,
            ) {
                Ok(expectation) => Ok(Some(expectation)),
                Err(text) => Err(text),
            }
        }
    } else if entry.kind == OP_RESIGN {
        Ok(
            Some(
                ExpectationView::Exact(
                    if entry.result {
                        LocalView::Unknown
                    } else {
                        entry.local_input
                    },
                ),
            ),
        )
    } else {
        Ok(None)
    }
}

/// What an optional expectation says.
pub open spec fn expectation_view(expectation: Option<LocalExpectation>) -> Option<ExpectationView> {
    match expectation {
        Some(expectation) => Some(expectation@),
        None => None,
    }
}

/// What an incarnation must bring to its next operation.
pub fn advance_local_state(entry: &LogEntry, election: &DurableState) -> (r: Result<
    Option<LocalExpectation>,
    String,
>)
    ensures
        match r {
            Ok(expectation) => expectation_after(entry@, election@) == Ok::<
                Option<ExpectationView>,
                Seq<char>,
            >(expectation_view(expectation)),
            Err(text) => expectation_after(entry@, election@) == Err::<
                Option<ExpectationView>,
                Seq<char>,
            >(text@),
        },
{
    if !entry.tracks_local_state {
        return Ok(None);
    }
    if entry.kind == OP_POLL && entry.result {
        if entry.planned_adoption_delay.is_some() {
            return Err("leader poll planned a follower adoption delay".to_owned());
        }
        match election.lease_duration {
            Some(lease_duration) => Ok(
                Some(
                    LocalExpectation::Exact(
                        LocalInput::Leadership {
                            participant: entry.actor.clone(),
                            rank: election.rank,
                            lease_duration,
                            renewed_at: entry.attempt_started_at,
                        },
                    ),
                ),
            ),
            None => Err("leader poll lost lease duration".to_owned()),
        }
    } else if entry.kind == OP_POLL {
        let preserved = match &entry.local_input {
            LocalInput::Observation { owner, rank, lease_duration, .. } => still_stands(
                election,
                owner.as_str(),
                *rank,
                lease_duration,
            ),
            _ => false,
        };
        if preserved {
            if entry.planned_adoption_delay.is_some() {
                return Err("preserved follower observation planned a delay".to_owned());
            }
            Ok(Some(LocalExpectation::Exact(entry.local_input.clone())))
        } else {
            match follower_observation_expectation(
                election,
                entry.attempt_started_at,
                entry.planned_adoption_delay,
            ) {
                Ok(expectation) => Ok(Some(expectation)),
                Err(text) => Err(text),
            }
        }
    } else if entry.kind == OP_RESIGN {
        if entry.result {
            Ok(Some(LocalExpectation::Exact(LocalInput::Unknown)))
        } else {
            Ok(Some(LocalExpectation::Exact(entry.local_input.clone())))
        }
    } else {
        Ok(None)
    }
}

/// Whether an entry settles what `actor`'s incarnation must bring next.
pub open spec fn settles(entry: EntryView, actor: Seq<char>, incarnation: u64) -> bool {
    entry.tracks_local_state && entry.actor == actor && entry.incarnation == incarnation && (
    entry.kind == OP_POLL || entry.kind == OP_RESIGN)
}

/// The last of the first `n` entries that settles what an incarnation must bring,
/// or a negative number where none does.
pub open spec fn last_settled(
    entries: Seq<EntryView>,
    actor: Seq<char>,
    incarnation: u64,
    n: int,
) -> int
    decreases n,
{
    if n <= 0 {
        -1
    } else if settles(entries[n - 1], actor, incarnation) {
        n - 1
    } else {
        last_settled(entries, actor, incarnation, n - 1)
    }
}

/// What entry `i`'s incarnation must bring to it, if anything settled it: what
/// its last operation left, given the state that operation left the election in.
pub open spec fn expected_at(entries: Seq<EntryView>, i: int) -> Option<ExpectationView> {
    let j = last_settled(entries, entries[i].actor, entries[i].incarnation, i);
    if j < 0 {
        None
    } else {
        match expectation_after(entries[j], entries[j].current) {
            Ok(expectation) => expectation,
            Err(_) => None,
        }
    }
}

/// Whether what an entry brought is what was expected of it, and if so whether
/// it was an observation adopted later than its own lease.
pub open spec fn local_verdict(entry: EntryView, expected: Option<ExpectationView>) -> Result<
    bool,
    Seq<char>,
> {
    if !entry.tracks_local_state {
        Ok(false)
    } else {
        match expected {
            None => if entry.local_input is Unknown {
                Ok(false)
            } else {
                Err(incarnation_text(entry) + " adopted local state without a prior poll"@)
            },
            Some(ExpectationView::Exact(local)) => if local == entry.local_input {
                Ok(false)
            } else {
                Err(
                    incarnation_text(entry)
                        + " local state regressed or changed unexpectedly"@,
                )
            },
            Some(
                ExpectationView::AdoptedObservation {
                    owner,
                    rank,
                    lease_duration,
                    not_before,
                    planned_adoption_delay,
                },
            ) => {
                let delay = match planned_adoption_delay {
                    Some(delay) => delay,
                    None => 0,
                };
                if entry.local_input matches LocalView::Observation {
                    owner: seen,
                    rank: seen_rank,
                    lease_duration: seen_lease,
                    observed_at,
                } && seen == owner && seen_rank == rank && seen_lease == lease_duration
                    && observed_at > not_before && adopted_late_enough(
                    observed_at,
                    not_before,
                    delay,
                ) && observed_at <= entry.attempt_started_at {
                    Ok(planned_adoption_delay is Some && delay > lease_duration)
                } else {
                    Err(incarnation_text(entry) + " did not adopt its follower observation"@)
                }
            },
        }
    }
}

/// Whether what an entry brought is what was expected of it.
pub fn validate_local_input(entry: &LogEntry, expected: &Option<LocalExpectation>) -> (r: Result<
    bool,
    String,
>)
    ensures
        match r {
            Ok(delayed) => local_verdict(entry@, expectation_view(*expected)) == Ok::<
                bool,
                Seq<char>,
            >(delayed),
            Err(text) => local_verdict(entry@, expectation_view(*expected)) == Err::<
                bool,
                Seq<char>,
            >(text@),
        },
{
    if !entry.tracks_local_state {
        return Ok(false);
    }
    match expected {
        None => match &entry.local_input {
            LocalInput::Unknown => Ok(false),
            _ => Err(
                incarnation_words(entry).concat(" adopted local state without a prior poll"),
            ),
        },
        Some(LocalExpectation::Exact(local)) => if local.same_as(&entry.local_input) {
            Ok(false)
        } else {
            Err(
                incarnation_words(entry).concat(
                    " local state regressed or changed unexpectedly",
                ),
            )
        },
        Some(
            LocalExpectation::AdoptedObservation {
                owner,
                rank,
                lease_duration,
                not_before,
                planned_adoption_delay,
            },
        ) => {
            let delay = match planned_adoption_delay {
                Some(delay) => *delay,
                None => Duration::zero(),
            };
            let adopted = match &entry.local_input {
                LocalInput::Observation {
                    owner: seen,
                    rank: seen_rank,
                    lease_duration: seen_lease,
                    observed_at,
                } => same_text(seen.as_str(), owner.as_str()) && *seen_rank == *rank
                    && seen_lease.same_as(lease_duration) && not_before.shorter_than(observed_at)
                    && adopted_after_planned_delay(*observed_at, *not_before, delay)
                    && !entry.attempt_started_at.shorter_than(observed_at),
                _ => false,
            };
            if adopted {
                Ok(planned_adoption_delay.is_some() && lease_duration.shorter_than(&delay))
            } else {
                Err(incarnation_words(entry).concat(" did not adopt its follower observation"))
            }
        },
    }
}

fn settled_expectation(entries: &[LogEntry], i: usize) -> (r: Option<LocalExpectation>)
    requires
        i < entries@.len(),
    ensures
        expectation_view(r) == expected_at(lease_types::entry_views(entries@), i as int),
{
    let ghost views = lease_types::entry_views(entries@);
    let entry = &entries[i];
    assert(views[i as int] == entry@);
    let mut j: usize = i;
    while j > 0
        invariant
            j <= i < entries@.len(),
            views == lease_types::entry_views(entries@),
            views[i as int] == entry@,
            last_settled(views, entry@.actor, entry@.incarnation, i as int) == last_settled(
                views,
                entry@.actor,
                entry@.incarnation,
                j as int,
            ),
        decreases j,
    {
        j = j - 1;
        let earlier = &entries[j];
        assert(views[j as int] == earlier@);
        if earlier.tracks_local_state && same_text(earlier.actor.as_str(), entry.actor.as_str())
            && earlier.incarnation == entry.incarnation && (earlier.kind == OP_POLL
            || earlier.kind == OP_RESIGN) {
            return match advance_local_state(earlier, &earlier.current) {
                Ok(expectation) => expectation,
                Err(_) => None,
            };
        }
    }
    None
}

// ---------------------------------------------------------------------------
// Polls
// ---------------------------------------------------------------------------

/// The election a successful poll leaves: its caller owns it, one rank on, under
/// the lease it was configured with.
pub open spec fn acquired_state(entry: EntryView, election: DurableView) -> DurableView {
    DurableView {
        rank: (election.rank + 1) as u64,
        owner: Some(entry.actor),
        lease_duration: Some(entry.configured_lease_duration),
    }
}

/// Whether a leader poll shows the durable and fenced-write evidence it owes.
pub open spec fn shows_evidence(entry: EntryView, s: OracleView) -> bool {
    &&& entry.current == acquired_state(entry, s.election)
    &&& entry.requested_write_rank == s.election.rank + 1
    &&& entry.observed_write_rank == s.protected_rank
    &&& entry.observed_value == s.protected_value
    &&& entry.protected_write_committed
    &&& entry.payload == lease_types::payload_of("leader"@, entry.actor, entry.op_num)
}

/// Whether an entry observed exactly what stands.
pub open spec fn observes(entry: EntryView, election: DurableView) -> bool {
    entry.local_input matches LocalView::Observation { owner, rank, lease_duration, .. } && stands(
        election,
        owner,
        rank,
        lease_duration,
    )
}

/// How long an entry had watched what it observed.
pub open spec fn watched(entry: EntryView) -> nat {
    match entry.local_input {
        LocalView::Observation { observed_at, .. } => elapsed(
            observed_at,
            entry.attempt_started_at,
        ),
        _ => 0,
    }
}

/// The lease of what an entry observed.
pub open spec fn watched_lease(entry: EntryView) -> nat {
    match entry.local_input {
        LocalView::Observation { lease_duration, .. } => lease_duration,
        _ => 0,
    }
}

/// Whether a poll renewed under a lease other than the one that stood.
pub open spec fn renews_with_a_new_lease(entry: EntryView, election: DurableView) -> bool {
    entry.transition == TRANSITION_RENEWED && election.lease_duration != Some(
        entry.configured_lease_duration,
    )
}

/// The sightings with those of a leader poll at `rank` added.
pub open spec fn with_leader(
    w: Sightings,
    rank: u64,
    took_over: bool,
    reacquired: bool,
    new_lease: bool,
    exact: bool,
    after: bool,
) -> Sightings {
    Sightings {
        saw_expiry: w.saw_expiry || took_over || reacquired,
        saw_foreign_takeover: w.saw_foreign_takeover || took_over,
        last_takeover_rank: if took_over {
            Some(rank)
        } else {
            w.last_takeover_rank
        },
        renewal_with_new_duration_rank: if new_lease {
            Some(rank)
        } else {
            w.renewal_with_new_duration_rank
        },
        saw_exact_expiry: w.saw_exact_expiry || exact,
        saw_after_expiry: w.saw_after_expiry || after,
        ..w
    }
}

/// What a leader poll adds to the sightings: a takeover, a reacquisition, a
/// renewal that changed the lease, and whether what it had watched ran out that
/// instant or before.
pub open spec fn leader_sightings(entry: EntryView, election: DurableView, w: Sightings) -> Sightings {
    with_leader(
        w,
        (election.rank + 1) as u64,
        entry.transition == TRANSITION_TOOK_OVER,
        entry.transition == TRANSITION_REACQUIRED,
        renews_with_a_new_lease(entry, election),
        observes(entry, election) && watched(entry) == watched_lease(entry),
        observes(entry, election) && watched(entry) > watched_lease(entry),
    )
}

/// Whether an entry brought its own leadership token.
pub open spec fn brings_own_token(entry: EntryView) -> bool {
    entry.local_input matches LocalView::Leadership { participant, .. } && participant
        == entry.actor
}

/// Whether an entry brought its own token, which still stands, after its lease.
pub open spec fn own_token_expired(entry: EntryView, election: DurableView) -> bool {
    entry.local_input matches LocalView::Leadership { rank, lease_duration, renewed_at, .. }
        && brings_own_token(entry) && stands(election, entry.actor, rank, lease_duration)
        && elapsed(renewed_at, entry.attempt_started_at) >= lease_duration
}

/// Whether an entry brought its own token after the election had moved past it.
pub open spec fn own_token_passed(entry: EntryView, election: DurableView) -> bool {
    entry.local_input matches LocalView::Leadership { rank, .. } && brings_own_token(entry) && rank
        < election.rank
}

/// The sightings with those of a follower poll added.
pub open spec fn with_follower(
    w: Sightings,
    before_expiry: bool,
    delayed: bool,
    own_token: bool,
    expired: bool,
    passed: bool,
    reset: bool,
) -> Sightings {
    Sightings {
        saw_before_expiry: w.saw_before_expiry || before_expiry,
        saw_delayed_observation_adoption: w.saw_delayed_observation_adoption || (before_expiry
            && delayed),
        saw_stale_renew: w.saw_stale_renew || own_token,
        saw_after_expiry: w.saw_after_expiry || expired,
        saw_stale_renew_after_advance: w.saw_stale_renew_after_advance || passed,
        saw_follower_duration_reset: w.saw_follower_duration_reset || reset,
        ..w
    }
}

/// What a follower poll adds to the sightings: an observation still running, a
/// token of its own that expired or was passed, and a changed lease it had not
/// observed.
pub open spec fn follower_sightings(
    entry: EntryView,
    election: DurableView,
    delayed: bool,
    w: Sightings,
) -> Sightings {
    with_follower(
        w,
        observes(entry, election) && watched(entry) < watched_lease(entry),
        delayed,
        brings_own_token(entry),
        own_token_expired(entry, election),
        own_token_passed(entry, election),
        w.renewal_with_new_duration_rank == Some(election.rank) && !(entry.local_input
            is Observation),
    )
}

/// Where the oracle stands between two entries.
pub struct OracleView {
    pub election: DurableView,
    pub protected_rank: u64,
    pub protected_value: Option<Seq<u8>>,
    pub witnesses: WitnessView,
}

/// The oracle before the first entry.
pub open spec fn oracle_start() -> OracleView {
    OracleView {
        election: lease_types::untouched(),
        protected_rank: 0,
        protected_value: None,
        witnesses: nothing_seen(),
    }
}

/// An oracle with the race a bid leaves.
pub open spec fn with_bid(entry: EntryView, s: OracleView) -> Result<OracleView, Seq<char>> {
    match after_bid(entry, s.witnesses.race) {
        Ok(race) => Ok(OracleView { witnesses: WitnessView { race, ..s.witnesses }, ..s }),
        Err(text) => Err(text),
    }
}

/// Where a poll that leads leaves everything but the race, or what is wrong with
/// it.
pub open spec fn after_leading(entry: EntryView, s: OracleView) -> Result<OracleView, Seq<char>> {
    if s.election.rank == u64::MAX {
        Err("revision overflow"@)
    } else if !shows_evidence(entry, s) {
        Err(
            "leader poll "@ + operation_text(entry)
                + " has invalid durable or fenced-write evidence"@,
        )
    } else {
        Ok(
            OracleView {
                election: acquired_state(entry, s.election),
                protected_rank: (s.election.rank + 1) as u64,
                protected_value: Some(entry.payload),
                witnesses: WitnessView {
                    seen: leader_sightings(entry, s.election, s.witnesses.seen),
                    race: s.witnesses.race,
                },
            },
        )
    }
}

/// Where a poll that follows leaves everything but the race, or what is wrong
/// with it.
pub open spec fn after_following(entry: EntryView, s: OracleView, delayed: bool) -> Result<
    OracleView,
    Seq<char>,
> {
    if entry.current != s.election || touched_register(entry) {
        Err("follower poll "@ + operation_text(entry) + " changed state"@)
    } else {
        Ok(
            OracleView {
                election: s.election,
                protected_rank: s.protected_rank,
                protected_value: s.protected_value,
                witnesses: WitnessView {
                    seen: follower_sightings(entry, s.election, delayed, s.witnesses.seen),
                    race: s.witnesses.race,
                },
            },
        )
    }
}

/// Where a poll leaves the oracle, or what is wrong with it.
pub open spec fn after_poll(entry: EntryView, s: OracleView, delayed: bool) -> Result<
    OracleView,
    Seq<char>,
> {
    match poll_verdict(entry, s.election) {
        Err(text) => Err(text),
        Ok(leader) => match if leader {
            after_leading(entry, s)
        } else {
            after_following(entry, s, delayed)
        } {
            Err(text) => Err(text),
            Ok(moved) => with_bid(entry, moved),
        },
    }
}

/// Where the oracle stands between two entries.
#[derive(Debug)]
pub struct Oracle {
    /// The election's durable state.
    pub election: DurableState,
    /// The rank of the protected value.
    pub protected_rank: u64,
    /// The protected value.
    pub protected_value: Option<Vec<u8>>,
    /// Which paths the run took so far.
    pub witnesses: ReplayWitnesses,
}

impl View for Oracle {
    type V = OracleView;

    open spec fn view(&self) -> OracleView {
        OracleView {
            election: self.election@,
            protected_rank: self.protected_rank,
            protected_value: lease_types::value_view(self.protected_value),
            witnesses: self.witnesses@,
        }
    }
}

fn observes_now(entry: &LogEntry, election: &DurableState) -> (r: bool)
    ensures
        r == observes(entry@, election@),
{
    match &entry.local_input {
        LocalInput::Observation { owner, rank, lease_duration, .. } => still_stands(
            election,
            owner.as_str(),
            *rank,
            lease_duration,
        ),
        _ => false,
    }
}

/// How long an entry had watched what it observed, and the lease of that.
fn watch(entry: &LogEntry) -> (r: (Duration, Duration))
    ensures
        r.0@ == watched(entry@),
        r.1@ == watched_lease(entry@),
{
    match &entry.local_input {
        LocalInput::Observation { lease_duration, observed_at, .. } => (
            entry.attempt_started_at.saturating_sub(*observed_at),
            *lease_duration,
        ),
        _ => (Duration::zero(), Duration::zero()),
    }
}

fn has_own_token(entry: &LogEntry) -> (r: bool)
    ensures
        r == brings_own_token(entry@),
{
    match &entry.local_input {
        LocalInput::Leadership { participant, .. } => same_text(
            participant.as_str(),
            entry.actor.as_str(),
        ),
        _ => false,
    }
}

fn token_expired(entry: &LogEntry, election: &DurableState) -> (r: bool)
    ensures
        r == own_token_expired(entry@, election@),
{
    match &entry.local_input {
        LocalInput::Leadership { rank, lease_duration, renewed_at, .. } => has_own_token(entry)
            && still_stands(election, entry.actor.as_str(), *rank, lease_duration)
            && !entry.attempt_started_at.saturating_sub(*renewed_at).shorter_than(lease_duration),
        _ => false,
    }
}

fn token_passed(entry: &LogEntry, election: &DurableState) -> (r: bool)
    ensures
        r == own_token_passed(entry@, election@),
{
    match &entry.local_input {
        LocalInput::Leadership { rank, .. } => has_own_token(entry) && *rank < election.rank,
        _ => false,
    }
}

fn changes_lease(entry: &LogEntry, election: &DurableState) -> (r: bool)
    ensures
        r == renews_with_a_new_lease(entry@, election@),
{
    entry.transition == TRANSITION_RENEWED && !election.leased_for(
        &entry.configured_lease_duration,
    )
}

fn add_leader(
    w: Sightings,
    rank: u64,
    took_over: bool,
    reacquired: bool,
    new_lease: bool,
    exact: bool,
    after: bool,
) -> (r: Sightings)
    ensures
        r == with_leader(w, rank, took_over, reacquired, new_lease, exact, after),
{
    Sightings {
        saw_expiry: either(either(w.saw_expiry, took_over), reacquired),
        saw_foreign_takeover: either(w.saw_foreign_takeover, took_over),
        last_takeover_rank: newest(took_over, rank, w.last_takeover_rank),
        renewal_with_new_duration_rank: newest(new_lease, rank, w.renewal_with_new_duration_rank),
        saw_exact_expiry: either(w.saw_exact_expiry, exact),
        saw_after_expiry: either(w.saw_after_expiry, after),
        ..w
    }
}

fn either(a: bool, b: bool) -> (r: bool)
    ensures
        r == (a || b),
{
    a || b
}

fn newest(fresh: bool, rank: u64, known: Option<u64>) -> (r: Option<u64>)
    ensures
        r == if fresh {
            Some(rank)
        } else {
            known
        },
{
    if fresh {
        Some(rank)
    } else {
        known
    }
}

fn note_leader(entry: &LogEntry, election: &DurableState, w: Sightings) -> (r: Sightings)
    requires
        election.rank < u64::MAX,
    ensures
        r == leader_sightings(entry@, election@, w),
{
    let current = observes_now(entry, election);
    let (watched, lease) = watch(entry);
    let exact = current && watched.same_as(&lease);
    let after = current && lease.shorter_than(&watched);
    add_leader(
        w,
        election.rank + 1,
        entry.transition == TRANSITION_TOOK_OVER,
        entry.transition == TRANSITION_REACQUIRED,
        changes_lease(entry, election),
        exact,
        after,
    )
}

fn add_follower(
    w: Sightings,
    before_expiry: bool,
    delayed: bool,
    own_token: bool,
    expired: bool,
    passed: bool,
    reset: bool,
) -> (r: Sightings)
    ensures
        r == with_follower(w, before_expiry, delayed, own_token, expired, passed, reset),
{
    Sightings {
        saw_before_expiry: either(w.saw_before_expiry, before_expiry),
        saw_delayed_observation_adoption: either(
            w.saw_delayed_observation_adoption,
            before_expiry && delayed,
        ),
        saw_stale_renew: either(w.saw_stale_renew, own_token),
        saw_after_expiry: either(w.saw_after_expiry, expired),
        saw_stale_renew_after_advance: either(w.saw_stale_renew_after_advance, passed),
        saw_follower_duration_reset: either(w.saw_follower_duration_reset, reset),
        ..w
    }
}

fn note_follower(entry: &LogEntry, election: &DurableState, delayed: bool, w: Sightings) -> (r:
    Sightings)
    ensures
        r == follower_sightings(entry@, election@, delayed, w),
{
    let (watched, lease) = watch(entry);
    let before_expiry = observes_now(entry, election) && watched.shorter_than(&lease);
    let watching = match &entry.local_input {
        LocalInput::Observation { .. } => true,
        _ => false,
    };
    let reset = match w.renewal_with_new_duration_rank {
        Some(changed) => changed == election.rank && !watching,
        None => false,
    };
    add_follower(
        w,
        before_expiry,
        delayed,
        has_own_token(entry),
        token_expired(entry, election),
        token_passed(entry, election),
        reset,
    )
}

fn acquire(entry: &LogEntry, election: &DurableState) -> (r: DurableState)
    requires
        election.rank < u64::MAX,
    ensures
        r@ == acquired_state(entry@, election@),
{
    DurableState {
        rank: election.rank + 1,
        owner: Some(entry.actor.clone()),
        lease_duration: Some(entry.configured_lease_duration),
    }
}

fn has_evidence(entry: &LogEntry, oracle: &Oracle, expected: &DurableState) -> (r: bool)
    requires
        oracle.election.rank < u64::MAX,
        expected@ == acquired_state(entry@, oracle.election@),
    ensures
        r == shows_evidence(entry@, oracle@),
{
    let payload = protected_payload(entry.actor.as_str(), entry.op_num);
    entry.current.same_as(expected) && entry.requested_write_rank == oracle.election.rank + 1
        && entry.observed_write_rank == oracle.protected_rank && same_optional_value(
        &entry.observed_value,
        &oracle.protected_value,
    ) && entry.protected_write_committed && same_bytes(
        entry.payload.as_slice(),
        payload.as_slice(),
    )
}

fn lead(entry: &LogEntry, oracle: &mut Oracle) -> (r: Result<(), String>)
    ensures
        match r {
            Ok(_) => after_leading(entry@, old(oracle)@) == Ok::<OracleView, Seq<char>>(
                final(oracle)@,
            ),
            Err(text) => after_leading(entry@, old(oracle)@) == Err::<OracleView, Seq<char>>(text@)
                && final(oracle)@ == old(oracle)@,
        },
{
    if oracle.election.rank == u64::MAX {
        return Err("revision overflow".to_owned());
    }
    let expected = acquire(entry, &oracle.election);
    if !has_evidence(entry, oracle, &expected) {
        return Err(
            "leader poll ".to_owned().concat(operation_words(entry).as_str()).concat(
                " has invalid durable or fenced-write evidence",
            ),
        );
    }
    let seen = note_leader(entry, &oracle.election, oracle.witnesses.seen);
    oracle.protected_rank = oracle.election.rank + 1;
    oracle.election = expected;
    oracle.protected_value = Some(copy_bytes(entry.payload.as_slice()));
    oracle.witnesses.seen = seen;
    Ok(())
}

fn follow(entry: &LogEntry, oracle: &mut Oracle, delayed: bool) -> (r: Result<(), String>)
    ensures
        match r {
            Ok(_) => after_following(entry@, old(oracle)@, delayed) == Ok::<OracleView, Seq<char>>(
                final(oracle)@,
            ),
            Err(text) => after_following(entry@, old(oracle)@, delayed) == Err::<
                OracleView,
                Seq<char>,
            >(text@) && final(oracle)@ == old(oracle)@,
        },
{
    if !entry.current.same_as(&oracle.election) || has_protected_effect(entry) {
        return Err(
            "follower poll ".to_owned().concat(operation_words(entry).as_str()).concat(
                " changed state",
            ),
        );
    }
    let seen = note_follower(entry, &oracle.election, delayed, oracle.witnesses.seen);
    oracle.witnesses.seen = seen;
    Ok(())
}

/// Where a poll that does not hold together leaves the oracle: where it was, unless
/// only its bid in the race is at fault, which is found out last.
pub open spec fn upset_by_poll(entry: EntryView, s: OracleView, delayed: bool) -> OracleView {
    match poll_verdict(entry, s.election) {
        Err(_) => s,
        Ok(leader) => match if leader {
            after_leading(entry, s)
        } else {
            after_following(entry, s, delayed)
        } {
            Err(_) => s,
            Ok(moved) => with_upset(entry, moved),
        },
    }
}

/// An oracle with the race that a bid at fault leaves.
pub open spec fn with_upset(entry: EntryView, s: OracleView) -> OracleView {
    OracleView {
        witnesses: WitnessView {
            race: upset_by_bid(entry, s.witnesses.race),
            ..s.witnesses
        },
        ..s
    }
}

fn bid(entry: &LogEntry, oracle: &mut Oracle) -> (r: Result<(), String>)
    ensures
        match r {
            Ok(_) => with_bid(entry@, old(oracle)@) == Ok::<OracleView, Seq<char>>(final(oracle)@),
            Err(text) => with_bid(entry@, old(oracle)@) == Err::<OracleView, Seq<char>>(text@)
                && final(oracle)@ == with_upset(entry@, old(oracle)@),
        },
{
    record_race_takeover(entry, &mut oracle.witnesses.race)
}

/// Replays a poll.
pub fn replay_poll(entry: &LogEntry, oracle: &mut Oracle, delayed_observation: bool) -> (r: Result<
    (),
    String,
>)
    ensures
        match r {
            Ok(_) => after_poll(entry@, old(oracle)@, delayed_observation) == Ok::<
                OracleView,
                Seq<char>,
            >(final(oracle)@),
            Err(text) => after_poll(entry@, old(oracle)@, delayed_observation) == Err::<
                OracleView,
                Seq<char>,
            >(text@) && final(oracle)@ == upset_by_poll(
                entry@,
                old(oracle)@,
                delayed_observation,
            ),
        },
{
    let leader = match validate_reported_poll(entry, &oracle.election) {
        Ok(leader) => leader,
        Err(text) => {
            return Err(text);
        },
    };
    let moved = if leader {
        lead(entry, oracle)
    } else {
        follow(entry, oracle, delayed_observation)
    };
    match moved {
        Ok(_) => bid(entry, oracle),
        Err(text) => Err(text),
    }
}

// ---------------------------------------------------------------------------
// Resignations
// ---------------------------------------------------------------------------

/// Whether a resignation's token is exactly what stands.
pub open spec fn token_stands(entry: EntryView, election: DurableView) -> bool {
    entry.local_input matches LocalView::Leadership { participant, rank, lease_duration, .. }
        && stands(election, participant, rank, lease_duration)
}

/// What a resignation that released nothing adds to the witnesses.
pub open spec fn stale_resign_sightings(entry: EntryView, w: Sightings) -> Sightings {
    match entry.local_input {
        LocalView::Leadership { rank, lease_duration, renewed_at, .. } => Sightings {
            saw_stale_resign: true,
            saw_delayed_stale_resign: w.saw_delayed_stale_resign || elapsed(
                renewed_at,
                entry.attempt_started_at,
            ) > lease_duration,
            saw_stale_resign_after_takeover: w.saw_stale_resign_after_takeover || (
            w.last_takeover_rank matches Some(takeover) && rank < takeover),
            ..w
        },
        _ => w,
    }
}

/// Where a resignation leaves the oracle, or what is wrong with it. A token that
/// stands releases the election and keeps its rank and lease; any other changes
/// nothing.
pub open spec fn after_resign(entry: EntryView, s: OracleView) -> Result<OracleView, Seq<char>> {
    let exact = token_stands(entry, s.election);
    let expected = if exact {
        DurableView { owner: None, ..s.election }
    } else {
        s.election
    };
    if !(entry.local_input is Leadership) {
        Err("resign "@ + operation_text(entry) + " lacks leadership token"@)
    } else if entry.transition != TRANSITION_NONE || entry.result != exact || entry.current
        != expected || touched_register(entry) {
        Err("resign "@ + operation_text(entry) + " has invalid result"@)
    } else {
        Ok(
            OracleView {
                election: expected,
                witnesses: WitnessView {
                    seen: if exact {
                        Sightings { saw_exact_resign: true, ..s.witnesses.seen }
                    } else {
                        stale_resign_sightings(entry, s.witnesses.seen)
                    },
                    ..s.witnesses
                },
                ..s
            },
        )
    }
}

/// Replays a resignation.
pub fn replay_resign(entry: &LogEntry, oracle: &mut Oracle) -> (r: Result<(), String>)
    ensures
        match r {
            Ok(_) => after_resign(entry@, old(oracle)@) == Ok::<OracleView, Seq<char>>(
                final(oracle)@,
            ),
            Err(text) => after_resign(entry@, old(oracle)@) == Err::<OracleView, Seq<char>>(text@)
                && final(oracle)@ == old(oracle)@,
        },
{
    let (participant, rank, lease_duration, renewed_at) = match &entry.local_input {
        LocalInput::Leadership { participant, rank, lease_duration, renewed_at } => (
            participant,
            *rank,
            *lease_duration,
            *renewed_at,
        ),
        _ => {
            return Err(
                "resign ".to_owned().concat(operation_words(entry).as_str()).concat(
                    " lacks leadership token",
                ),
            );
        },
    };
    let exact = still_stands(&oracle.election, participant.as_str(), rank, &lease_duration);
    let expected = if exact {
        DurableState {
            rank: oracle.election.rank,
            owner: None,
            lease_duration: oracle.election.lease_duration,
        }
    } else {
        oracle.election.clone()
    };
    if entry.transition != TRANSITION_NONE || entry.result != exact || !entry.current.same_as(
        &expected,
    ) || has_protected_effect(entry) {
        return Err(
            "resign ".to_owned().concat(operation_words(entry).as_str()).concat(
                " has invalid result",
            ),
        );
    }
    let w = oracle.witnesses.seen;
    let after_takeover = match w.last_takeover_rank {
        Some(takeover) => rank < takeover,
        None => false,
    };
    let delayed = lease_duration.shorter_than(&entry.attempt_started_at.saturating_sub(renewed_at));
    oracle.witnesses.seen =
    if exact {
        Sightings { saw_exact_resign: true, ..w }
    } else {
        Sightings {
            saw_stale_resign: true,
            saw_delayed_stale_resign: w.saw_delayed_stale_resign || delayed,
            saw_stale_resign_after_takeover: w.saw_stale_resign_after_takeover || after_takeover,
            ..w
        }
    };
    oracle.election = expected;
    Ok(())
}

// ---------------------------------------------------------------------------
// Observers and stale writes
// ---------------------------------------------------------------------------

/// Whether an entry claims to have left the election alone: it brought nothing,
/// reported no transition, and found and left the same state.
pub open spec fn left_alone(entry: EntryView, election: DurableView) -> bool {
    entry.current == election && entry.local_input is Unknown && entry.transition
        == TRANSITION_NONE
}

fn leaves_alone(entry: &LogEntry, election: &DurableState) -> (r: bool)
    ensures
        r == left_alone(entry@, election@),
{
    let unknown = match &entry.local_input {
        LocalInput::Unknown => true,
        _ => false,
    };
    entry.current.same_as(election) && unknown && entry.transition == TRANSITION_NONE
}

/// Where an observation leaves the oracle: nowhere else.
pub open spec fn after_observe(entry: EntryView, s: OracleView) -> Result<OracleView, Seq<char>> {
    if !left_alone(entry, s.election) || !entry.result || touched_register(entry) {
        Err("observer "@ + operation_text(entry) + " changed state"@)
    } else {
        Ok(s)
    }
}

/// Replays an observation.
pub fn replay_observe(entry: &LogEntry, oracle: &Oracle) -> (r: Result<(), String>)
    ensures
        match r {
            Ok(_) => after_observe(entry@, oracle@) == Ok::<OracleView, Seq<char>>(oracle@),
            Err(text) => after_observe(entry@, oracle@) == Err::<OracleView, Seq<char>>(text@),
        },
{
    if !leaves_alone(entry, &oracle.election) || !entry.result || has_protected_effect(entry) {
        return Err(
            "observer ".to_owned().concat(operation_words(entry).as_str()).concat(
                " changed state",
            ),
        );
    }
    Ok(())
}

/// Whether a stale write was rejected: it asked for a rank already passed, read
/// the protected value as it stands, and did not commit.
pub open spec fn was_rejected(entry: EntryView, s: OracleView) -> bool {
    &&& left_alone(entry, s.election)
    &&& !entry.result
    &&& entry.requested_write_rank < s.election.rank
    &&& entry.observed_write_rank == s.protected_rank
    &&& entry.observed_value == s.protected_value
    &&& !entry.protected_write_committed
    &&& entry.payload == lease_types::payload_of("stale"@, entry.actor, entry.op_num)
}

fn is_rejected(entry: &LogEntry, oracle: &Oracle) -> (r: bool)
    ensures
        r == was_rejected(entry@, oracle@),
{
    let payload = stale_payload(entry.actor.as_str(), entry.op_num);
    leaves_alone(entry, &oracle.election) && !entry.result && entry.requested_write_rank
        < oracle.election.rank && entry.observed_write_rank == oracle.protected_rank
        && same_optional_value(&entry.observed_value, &oracle.protected_value)
        && !entry.protected_write_committed && same_bytes(
        entry.payload.as_slice(),
        payload.as_slice(),
    )
}

/// What a rejected stale write adds to the sightings.
pub open spec fn stale_write_sightings(entry: EntryView, w: Sightings) -> Sightings {
    Sightings {
        saw_stale_write: true,
        saw_zero_rank_stale_write: w.saw_zero_rank_stale_write || entry.requested_write_rank == 0,
        saw_post_advance_stale_write: w.saw_post_advance_stale_write || entry.requested_write_rank
            != 0,
        ..w
    }
}

/// Where a stale write leaves the oracle, or what is wrong with it.
pub open spec fn after_stale(entry: EntryView, s: OracleView) -> Result<OracleView, Seq<char>> {
    if !was_rejected(entry, s) {
        Err("stale write "@ + operation_text(entry) + " was not rejected"@)
    } else {
        match after_stale_write(entry, s.witnesses.race) {
            Err(text) => Err(text),
            Ok(race) => Ok(
                OracleView {
                    witnesses: WitnessView {
                        seen: stale_write_sightings(entry, s.witnesses.seen),
                        race,
                    },
                    ..s
                },
            ),
        }
    }
}

/// Where a stale write that does not hold together leaves the oracle: where it was,
/// unless only its part in the race is at fault, which is found out last.
pub open spec fn upset_by_stale(entry: EntryView, s: OracleView) -> OracleView {
    if was_rejected(entry, s) {
        OracleView {
            witnesses: WitnessView {
                seen: stale_write_sightings(entry, s.witnesses.seen),
                ..s.witnesses
            },
            ..s
        }
    } else {
        s
    }
}

/// Replays a stale write.
pub fn replay_stale_write(entry: &LogEntry, oracle: &mut Oracle) -> (r: Result<(), String>)
    ensures
        match r {
            Ok(_) => after_stale(entry@, old(oracle)@) == Ok::<OracleView, Seq<char>>(
                final(oracle)@,
            ),
            Err(text) => after_stale(entry@, old(oracle)@) == Err::<OracleView, Seq<char>>(text@)
                && final(oracle)@ == upset_by_stale(entry@, old(oracle)@),
        },
{
    if !is_rejected(entry, oracle) {
        return Err(
            "stale write ".to_owned().concat(operation_words(entry).as_str()).concat(
                " was not rejected",
            ),
        );
    }
    oracle.witnesses.seen = note_stale_write(entry, oracle.witnesses.seen);
    record_race_stale_write(entry, &mut oracle.witnesses.race)
}

fn note_stale_write(entry: &LogEntry, w: Sightings) -> (r: Sightings)
    ensures
        r == stale_write_sightings(entry@, w),
{
    let zero = entry.requested_write_rank == 0;
    Sightings {
        saw_stale_write: true,
        saw_zero_rank_stale_write: either(w.saw_zero_rank_stale_write, zero),
        saw_post_advance_stale_write: either(w.saw_post_advance_stale_write, !zero),
        ..w
    }
}

// ---------------------------------------------------------------------------
// The whole log
// ---------------------------------------------------------------------------

/// A durable state, spelled out.
pub open spec fn state_text(state: DurableView) -> Seq<char> {
    "DurableState { rank: "@ + text::nat_text(state.rank as nat) + ", owner: "@ + (
    match state.owner {
        Some(owner) => "Some("@ + text::quoted_text(owner) + ")"@,
        None => "None"@,
    }) + ", lease_duration: "@ + (match state.lease_duration {
        Some(lease) => "Some("@ + duration::duration_text(lease) + ")"@,
        None => "None"@,
    }) + " }"@
}

fn state_words(state: &DurableState) -> (r: String)
    ensures
        r@ == state_text(state@),
{
    let owner = match &state.owner {
        Some(owner) => "Some(".to_owned().concat(quoted(owner.as_str()).as_str()).concat(")"),
        None => "None".to_owned(),
    };
    let lease = match &state.lease_duration {
        Some(lease) => "Some(".to_owned().concat(lease.words().as_str()).concat(")"),
        None => "None".to_owned(),
    };
    "DurableState { rank: ".to_owned().concat(number_text(state.rank).as_str()).concat(
        ", owner: ",
    ).concat(owner.as_str()).concat(", lease_duration: ").concat(lease.as_str()).concat(" }")
}

/// Whether entry `i` committed strictly after the one before it.
pub open spec fn in_order(entries: Seq<EntryView>, i: int) -> bool {
    stamps::is_filled_in(entries[i].versionstamp) && (i > 0 ==> stamps::stamp_value(
        entries[i - 1].versionstamp,
    ) < stamps::stamp_value(entries[i].versionstamp))
}

/// Whether two entries are the same logical operation.
pub open spec fn same_operation(a: EntryView, b: EntryView) -> bool {
    a.actor == b.actor && a.incarnation == b.incarnation && a.op_num == b.op_num
}

/// Whether entry `i` repeats an earlier logical operation.
pub open spec fn repeats(entries: Seq<EntryView>, i: int) -> bool {
    exists|j: int| 0 <= j < i && same_operation(#[trigger] entries[j], entries[i])
}

/// Where an operation leaves the oracle, by its kind.
pub open spec fn after_operation(entry: EntryView, s: OracleView, delayed: bool) -> Result<
    OracleView,
    Seq<char>,
> {
    if entry.kind == OP_POLL {
        after_poll(entry, s, delayed)
    } else if entry.kind == OP_RESIGN {
        after_resign(entry, s)
    } else if entry.kind == OP_OBSERVE {
        after_observe(entry, s)
    } else if entry.kind == OP_STALE_WRITE {
        after_stale(entry, s)
    } else {
        Err("unknown operation kind "@ + text::int_text(entry.kind as int))
    }
}

/// Where entry `i` leaves the oracle, or the first thing wrong with it.
pub open spec fn after_entry(entries: Seq<EntryView>, i: int, s: OracleView) -> Result<
    OracleView,
    Seq<char>,
> {
    let entry = entries[i];
    if !in_order(entries, i) {
        Err("operation log is not strictly commit ordered"@)
    } else if entry.actor.len() == 0 || repeats(entries, i) {
        Err(
            "invalid logical operation ("@ + entry.actor + ", "@ + text::nat_text(
                entry.op_num as nat,
            ) + ")"@,
        )
    } else if entry.prior != s.election {
        Err(
            "operation "@ + operation_text(entry) + " prior state "@ + state_text(entry.prior)
                + " differs from replay "@ + state_text(s.election),
        )
    } else if entry.configured_lease_duration == 0 {
        Err("operation "@ + operation_text(entry) + " configured zero lease"@)
    } else {
        match local_verdict(entry, expected_at(entries, i)) {
            Err(text) => Err(text),
            Ok(delayed) => match after_operation(entry, s, delayed) {
                Err(text) => Err(text),
                Ok(moved) => match expectation_after(entry, moved.election) {
                    Err(text) => Err(text),
                    Ok(_) => Ok(moved),
                },
            },
        }
    }
}

/// Where the first `n` entries leave the oracle, or the first thing wrong with
/// them.
pub open spec fn after_entries(entries: Seq<EntryView>, n: int) -> Result<OracleView, Seq<char>>
    decreases n,
{
    if n <= 0 {
        Ok(oracle_start())
    } else {
        match after_entries(entries, n - 1) {
            Err(text) => Err(text),
            Ok(s) => after_entry(entries, n - 1, s),
        }
    }
}

/// Which paths a run took, and which it missed.
#[derive(Debug)]
pub struct CoverageReport {
    /// How many forced witnesses were observed.
    pub forced_observed: usize,
    /// The forced witnesses that were not.
    pub forced_missing: Vec<&'static str>,
    /// How many probabilistic witnesses were observed.
    pub probabilistic_observed: usize,
    /// The probabilistic witnesses that were not.
    pub probabilistic_missing: Vec<&'static str>,
    /// Whether the coordinated race ran to the end.
    pub saw_coordinated_race: bool,
    /// How many contended in the coordinated race.
    pub coordinated_race_contenders: usize,
}

/// What a list of names says.
pub open spec fn names(list: Seq<&'static str>) -> Seq<Seq<char>> {
    Seq::new(list.len(), |i: int| list[i]@)
}

/// `name`, where it was missed.
pub open spec fn missed(seen: bool, name: Seq<char>) -> Seq<Seq<char>> {
    if seen {
        Seq::empty()
    } else {
        seq![name]
    }
}

/// The forced witnesses a run missed.
pub open spec fn forced_missing(w: Sightings) -> Seq<Seq<char>> {
    missed(w.saw_expiry, "expiry"@) + missed(w.saw_foreign_takeover, "foreign_takeover"@) + missed(
        w.saw_before_expiry,
        "before_expiry"@,
    ) + missed(w.saw_after_expiry, "after_expiry"@) + missed(w.saw_stale_renew, "stale_renew"@)
        + missed(w.saw_stale_write, "stale_write"@) + missed(
        w.saw_delayed_observation_adoption,
        "delayed_observation_adoption"@,
    ) + missed(w.saw_exact_resign, "exact_resign"@) + missed(
        w.saw_follower_duration_reset,
        "follower_duration_reset"@,
    )
}

/// The probabilistic witnesses a run missed.
pub open spec fn probabilistic_missing(w: Sightings) -> Seq<Seq<char>> {
    missed(w.saw_exact_expiry, "exact_expiry"@) + missed(
        w.saw_stale_renew_after_advance,
        "stale_renew_after_advance"@,
    ) + missed(w.saw_stale_resign, "stale_resign"@) + missed(
        w.saw_delayed_stale_resign,
        "delayed_stale_resign"@,
    ) + missed(w.saw_stale_resign_after_takeover, "stale_resign_after_takeover"@) + missed(
        w.saw_post_advance_stale_write,
        "post_advance_stale_write"@,
    ) + missed(w.saw_zero_rank_stale_write, "zero_rank_stale_write"@)
}

/// Whether the coordinated race ran to the end: at least two contended, one won,
/// and every contender's stale write was rejected.
pub open spec fn race_ran(race: RaceView) -> bool {
    race.contenders.len() >= 2 && race.winner is Some && race.stale_writers == race.contenders
}

impl CoverageReport {
    /// Whether this is the report of these witnesses.
    pub open spec fn reports(self, w: WitnessView) -> bool {
        &&& names(self.forced_missing@) == forced_missing(w.seen)
        &&& self.forced_observed == FORCED_WITNESS_COUNT - forced_missing(w.seen).len()
        &&& names(self.probabilistic_missing@) == probabilistic_missing(w.seen)
        &&& self.probabilistic_observed == PROBABILISTIC_WITNESS_COUNT - probabilistic_missing(
            w.seen,
        ).len()
        &&& self.saw_coordinated_race == race_ran(w.race)
        &&& self.coordinated_race_contenders == w.race.contenders.len()
    }
}

fn note_missed(list: &mut Vec<&'static str>, seen: bool, name: &'static str)
    ensures
        names(final(list)@) == names(old(list)@) + missed(seen, name@),
{
    if !seen {
        list.push(name);
    }
    assert(names(list@) =~= names(old(list)@) + missed(seen, name@));
}

fn list_forced_missing(w: &Sightings) -> (r: Vec<&'static str>)
    ensures
        names(r@) == forced_missing(*w),
        r@.len() <= FORCED_WITNESS_COUNT,
{
    let mut r: Vec<&'static str> = Vec::new();
    assert(names(r@) + missed(w.saw_expiry, "expiry"@) =~= missed(w.saw_expiry, "expiry"@));
    note_missed(&mut r, w.saw_expiry, "expiry");
    note_missed(&mut r, w.saw_foreign_takeover, "foreign_takeover");
    note_missed(&mut r, w.saw_before_expiry, "before_expiry");
    note_missed(&mut r, w.saw_after_expiry, "after_expiry");
    note_missed(&mut r, w.saw_stale_renew, "stale_renew");
    note_missed(&mut r, w.saw_stale_write, "stale_write");
    note_missed(&mut r, w.saw_delayed_observation_adoption, "delayed_observation_adoption");
    note_missed(&mut r, w.saw_exact_resign, "exact_resign");
    note_missed(&mut r, w.saw_follower_duration_reset, "follower_duration_reset");
    assert(names(r@).len() == r@.len());
    r
}

fn list_probabilistic_missing(w: &Sightings) -> (r: Vec<&'static str>)
    ensures
        names(r@) == probabilistic_missing(*w),
        r@.len() <= PROBABILISTIC_WITNESS_COUNT,
{
    let mut r: Vec<&'static str> = Vec::new();
    assert(names(r@) + missed(w.saw_exact_expiry, "exact_expiry"@) =~= missed(
        w.saw_exact_expiry,
        "exact_expiry"@,
    ));
    note_missed(&mut r, w.saw_exact_expiry, "exact_expiry");
    note_missed(&mut r, w.saw_stale_renew_after_advance, "stale_renew_after_advance");
    note_missed(&mut r, w.saw_stale_resign, "stale_resign");
    note_missed(&mut r, w.saw_delayed_stale_resign, "delayed_stale_resign");
    note_missed(&mut r, w.saw_stale_resign_after_takeover, "stale_resign_after_takeover");
    note_missed(&mut r, w.saw_post_advance_stale_write, "post_advance_stale_write");
    note_missed(&mut r, w.saw_zero_rank_stale_write, "zero_rank_stale_write");
    assert(names(r@).len() == r@.len());
    r
}

/// The report of what a run witnessed.
pub fn coverage(witnesses: &ReplayWitnesses) -> (r: CoverageReport)
    ensures
        r.reports(witnesses@),
{
    let forced_missing = list_forced_missing(&witnesses.seen);
    let probabilistic_missing = list_probabilistic_missing(&witnesses.seen);
    let race = &witnesses.race;
    let contenders: usize = race.contenders.len();
    assert(names(forced_missing@).len() == forced_missing@.len());
    assert(names(probabilistic_missing@).len() == probabilistic_missing@.len());
    CoverageReport {
        forced_observed: FORCED_WITNESS_COUNT - forced_missing.len(),
        forced_missing,
        probabilistic_observed: PROBABILISTIC_WITNESS_COUNT - probabilistic_missing.len(),
        probabilistic_missing,
        saw_coordinated_race: contenders >= 2 && race.winner.is_some()
            && race.stale_writers.same_as(&race.contenders),
        coordinated_race_contenders: contenders,
    }
}

/// What replaying a log against the final snapshot gives: the witnesses of a run
/// that broke no rule, or the first rule it broke.
pub open spec fn judged(entries: Seq<EntryView>, snapshot: SnapshotView) -> Result<
    WitnessView,
    Seq<char>,
> {
    match after_entries(entries, entries.len() as int) {
        Err(text) => Err(text),
        Ok(s) => if snapshot.election != s.election || snapshot.protected_rank != s.protected_rank
            || snapshot.protected_value != s.protected_value {
            Err("final public election or ranked-register state differs from replay"@)
        } else if s.protected_value is None {
            Err("no fenced leader write committed"@)
        } else {
            Ok(s.witnesses)
        },
    }
}

fn is_in_order(entries: &[LogEntry], i: usize) -> (r: bool)
    requires
        i < entries@.len(),
    ensures
        r == in_order(lease_types::entry_views(entries@), i as int),
{
    let ghost views = lease_types::entry_views(entries@);
    assert(views[i as int] == entries@[i as int]@);
    if !is_complete(&entries[i].versionstamp) {
        return false;
    }
    if i == 0 {
        return true;
    }
    assert(views[i - 1] == entries@[i - 1]@);
    stamp_number(entries[i - 1].versionstamp.as_slice()) < stamp_number(
        entries[i].versionstamp.as_slice(),
    )
}

fn is_repeated(entries: &[LogEntry], i: usize) -> (r: bool)
    requires
        i < entries@.len(),
    ensures
        r == repeats(lease_types::entry_views(entries@), i as int),
{
    let ghost views = lease_types::entry_views(entries@);
    let entry = &entries[i];
    assert(views[i as int] == entry@);
    let mut j: usize = 0;
    while j < i
        invariant
            j <= i < entries@.len(),
            views == lease_types::entry_views(entries@),
            views[i as int] == entry@,
            forall|k: int| 0 <= k < j ==> !same_operation(#[trigger] views[k], entry@),
        decreases i - j,
    {
        let earlier = &entries[j];
        assert(views[j as int] == earlier@);
        if same_text(earlier.actor.as_str(), entry.actor.as_str()) && earlier.incarnation
            == entry.incarnation && earlier.op_num == entry.op_num {
            assert(same_operation(views[j as int], views[i as int]));
            return true;
        }
        j = j + 1;
    }
    false
}

fn replay_operation(entry: &LogEntry, oracle: &mut Oracle, delayed: bool) -> (r: Result<(), String>)
    ensures
        match r {
            Ok(_) => after_operation(entry@, old(oracle)@, delayed) == Ok::<OracleView, Seq<char>>(
                final(oracle)@,
            ),
            Err(text) => after_operation(entry@, old(oracle)@, delayed) == Err::<
                OracleView,
                Seq<char>,
            >(text@),
        },
{
    if entry.kind == OP_POLL {
        replay_poll(entry, oracle, delayed)
    } else if entry.kind == OP_RESIGN {
        replay_resign(entry, oracle)
    } else if entry.kind == OP_OBSERVE {
        replay_observe(entry, oracle)
    } else if entry.kind == OP_STALE_WRITE {
        replay_stale_write(entry, oracle)
    } else {
        Err("unknown operation kind ".to_owned().concat(signed_text(entry.kind).as_str()))
    }
}

fn replay_entry(entries: &[LogEntry], i: usize, oracle: &mut Oracle) -> (r: Result<(), String>)
    requires
        i < entries@.len(),
    ensures
        ({
            let outcome = after_entry(
                lease_types::entry_views(entries@),
                i as int,
                old(oracle)@,
            );
            match r {
                Ok(_) => outcome == Ok::<OracleView, Seq<char>>(final(oracle)@),
                Err(text) => outcome == Err::<OracleView, Seq<char>>(text@),
            }
        }),
{
    let entry = &entries[i];
    assert(lease_types::entry_views(entries@)[i as int] == entry@);
    if !is_in_order(entries, i) {
        return Err("operation log is not strictly commit ordered".to_owned());
    }
    if entry.actor.as_str().unicode_len() == 0 || is_repeated(entries, i) {
        return Err(
            "invalid logical operation (".to_owned().concat(entry.actor.as_str()).concat(
                ", ",
            ).concat(number_text(entry.op_num).as_str()).concat(")"),
        );
    }
    if !entry.prior.same_as(&oracle.election) {
        return Err(
            "operation ".to_owned().concat(operation_words(entry).as_str()).concat(
                " prior state ",
            ).concat(state_words(&entry.prior).as_str()).concat(" differs from replay ").concat(
                state_words(&oracle.election).as_str(),
            ),
        );
    }
    if entry.configured_lease_duration.is_zero() {
        return Err(
            "operation ".to_owned().concat(operation_words(entry).as_str()).concat(
                " configured zero lease",
            ),
        );
    }
    let expected = settled_expectation(entries, i);
    let delayed = match validate_local_input(entry, &expected) {
        Ok(delayed) => delayed,
        Err(text) => {
            return Err(text);
        },
    };
    match replay_operation(entry, oracle, delayed) {
        Ok(_) => {},
        Err(text) => {
            return Err(text);
        },
    }
    match advance_local_state(entry, &oracle.election) {
        Ok(_) => Ok(()),
        Err(text) => Err(text),
    }
}

/// Replays a whole log against the final snapshot.
pub fn replay(entries: &[LogEntry], snapshot: &Snapshot) -> (r: Result<CoverageReport, String>)
    ensures
        match judged(lease_types::entry_views(entries@), snapshot@) {
            Ok(witnesses) => r is Ok && r->Ok_0.reports(witnesses),
            Err(text) => r is Err && r->Err_0@ == text,
        },
{
    let ghost views = lease_types::entry_views(entries@);
    let mut oracle = Oracle {
        election: DurableState::default(),
        protected_rank: 0,
        protected_value: None,
        witnesses: ReplayWitnesses::default(),
    };
    let mut i: usize = 0;
    while i < entries.len()
        invariant
            i <= entries@.len(),
            views == lease_types::entry_views(entries@),
            after_entries(views, i as int) == Ok::<OracleView, Seq<char>>(oracle@),
        decreases entries@.len() - i,
    {
        match replay_entry(entries, i, &mut oracle) {
            Ok(_) => {},
            Err(text) => {
                proof {
                    failure_stays(views, i as int + 1, views.len() as int);
                }
                return Err(text);
            },
        }
        i = i + 1;
    }
    if !snapshot.election.same_as(&oracle.election) || snapshot.protected_rank
        != oracle.protected_rank || !same_optional_value(
        &snapshot.protected_value,
        &oracle.protected_value,
    ) {
        return Err(
            "final public election or ranked-register state differs from replay".to_owned(),
        );
    }
    if oracle.protected_value.is_none() {
        return Err("no fenced leader write committed".to_owned());
    }
    Ok(coverage(&oracle.witnesses))
}

proof fn failure_stays(entries: Seq<EntryView>, i: int, n: int)
    requires
        0 <= i <= n <= entries.len(),
        after_entries(entries, i) is Err,
    ensures
        after_entries(entries, n) == after_entries(entries, i),
    decreases n - i,
{
    if i < n {
        failure_stays(entries, i, n - 1);
    }
}

// ---------------------------------------------------------------------------
// What an accepted log has
// ---------------------------------------------------------------------------

/// Whether an election and its register can stand together: rank zero is an
/// election nobody ever won, any other rank carries a lease, and the register
/// was written last at no higher rank, if it was written at all.
pub open spec fn coherent(s: SnapshotView) -> bool {
    &&& if s.election.rank == 0 {
        s.election.owner is None && s.election.lease_duration is None
    } else {
        s.election.lease_duration matches Some(lease) && lease != 0
    }
    &&& s.protected_rank <= s.election.rank
    &&& (s.protected_rank == 0) == (s.protected_value is None)
}

/// Whether a snapshot read in one transaction is coherent.
pub fn is_coherent(snapshot: &Snapshot) -> (r: bool)
    ensures
        r == coherent(snapshot@),
{
    let election = &snapshot.election;
    let valid_election = if election.rank == 0 {
        election.owner.is_none() && election.lease_duration.is_none()
    } else {
        match &election.lease_duration {
            Some(lease) => !lease.is_zero(),
            None => false,
        }
    };
    valid_election && snapshot.protected_rank <= election.rank && (snapshot.protected_rank == 0)
        == snapshot.protected_value.is_none()
}

/// Whether an entry is a poll that led.
pub open spec fn leads(entry: EntryView) -> bool {
    entry.kind == OP_POLL && entry.result
}

/// An accepted entry found the election as the oracle had it and left it as the
/// entry says. Only a poll that led moved the rank, by one, and only such a poll
/// wrote the register; nothing but the witnesses is moved by an observation or a
/// stale write.
pub proof fn an_accepted_entry_says_what_it_did(entries: Seq<EntryView>, i: int, s: OracleView)
    requires
        0 <= i < entries.len(),
        after_entry(entries, i, s) is Ok,
    ensures
        ({
            let t = after_entry(entries, i, s)->Ok_0;
            &&& entries[i].prior == s.election
            &&& entries[i].current == t.election
            &&& t.election.rank == s.election.rank + (if leads(entries[i]) {
                1int
            } else {
                0
            })
            &&& leads(entries[i]) ==> t.protected_rank == t.election.rank && t.protected_value
                == Some(entries[i].payload) && t.election.owner == Some(entries[i].actor)
            &&& !leads(entries[i]) ==> t.protected_rank == s.protected_rank && t.protected_value
                == s.protected_value
            &&& entries[i].kind == OP_OBSERVE || entries[i].kind == OP_STALE_WRITE ==> t.election
                == s.election
        }),
{
}

/// Every prefix of an accepted log is accepted.
pub proof fn a_prefix_is_accepted(entries: Seq<EntryView>, i: int, n: int)
    requires
        0 <= i <= n <= entries.len(),
        after_entries(entries, n) is Ok,
    ensures
        after_entries(entries, i) is Ok,
{
    if after_entries(entries, i) is Err {
        failure_stays(entries, i, n);
    }
}

/// In an accepted log every entry found what the one before it left.
pub proof fn an_accepted_log_is_a_chain(entries: Seq<EntryView>, i: int)
    requires
        0 <= i < entries.len(),
        after_entries(entries, entries.len() as int) is Ok,
    ensures
        i == 0 ==> entries[i].prior == lease_types::untouched(),
        i > 0 ==> entries[i].prior == entries[i - 1].current,
{
    a_prefix_is_accepted(entries, i + 1, entries.len() as int);
    a_prefix_is_accepted(entries, i, entries.len() as int);
    an_accepted_entry_says_what_it_did(entries, i, after_entries(entries, i)->Ok_0);
    if i > 0 {
        a_prefix_is_accepted(entries, i - 1, entries.len() as int);
        an_accepted_entry_says_what_it_did(entries, i - 1, after_entries(entries, i - 1)->Ok_0);
    }
}

/// Between entries the register was last written at the rank that stands, and the
/// election and the register are coherent.
pub proof fn the_register_follows_the_election(entries: Seq<EntryView>, n: int)
    requires
        0 <= n <= entries.len(),
        after_entries(entries, n) is Ok,
    ensures
        ({
            let s = after_entries(entries, n)->Ok_0;
            &&& s.protected_rank == s.election.rank
            &&& coherent(
                SnapshotView {
                    election: s.election,
                    protected_rank: s.protected_rank,
                    protected_value: s.protected_value,
                },
            )
        }),
    decreases n,
{
    if n > 0 {
        a_prefix_is_accepted(entries, n - 1, n);
        the_register_follows_the_election(entries, n - 1);
    }
}

proof fn rank_grows(entries: Seq<EntryView>, i: int, j: int)
    requires
        0 <= i <= j <= entries.len(),
        after_entries(entries, j) is Ok,
    ensures
        after_entries(entries, i) is Ok,
        after_entries(entries, i)->Ok_0.election.rank <= after_entries(
            entries,
            j,
        )->Ok_0.election.rank,
    decreases j - i,
{
    a_prefix_is_accepted(entries, i, j);
    if i < j {
        a_prefix_is_accepted(entries, j - 1, j);
        rank_grows(entries, i, j - 1);
        an_accepted_entry_says_what_it_did(entries, j - 1, after_entries(entries, j - 1)->Ok_0);
    }
}

/// In an accepted log no rank is led twice: of two polls that led, the later one
/// led at a higher rank.
pub proof fn a_rank_is_led_once(entries: Seq<EntryView>, i: int, j: int)
    requires
        0 <= i < j < entries.len(),
        after_entries(entries, entries.len() as int) is Ok,
        leads(entries[i]),
        leads(entries[j]),
    ensures
        entries[i].current.rank < entries[j].current.rank,
{
    a_prefix_is_accepted(entries, i, entries.len() as int);
    a_prefix_is_accepted(entries, i + 1, entries.len() as int);
    a_prefix_is_accepted(entries, j, entries.len() as int);
    a_prefix_is_accepted(entries, j + 1, entries.len() as int);
    an_accepted_entry_says_what_it_did(entries, i, after_entries(entries, i)->Ok_0);
    an_accepted_entry_says_what_it_did(entries, j, after_entries(entries, j)->Ok_0);
    rank_grows(entries, i + 1, j);
}

/// In an accepted log every logical operation stands once.
pub proof fn an_operation_stands_once(entries: Seq<EntryView>, i: int, j: int)
    requires
        0 <= i < j < entries.len(),
        after_entries(entries, entries.len() as int) is Ok,
    ensures
        !same_operation(entries[i], entries[j]),
{
    a_prefix_is_accepted(entries, j + 1, entries.len() as int);
}

/// In an accepted log the winner of the coordinated race contended in it.
pub proof fn the_race_winner_contended(entries: Seq<EntryView>, n: int)
    requires
        0 <= n <= entries.len(),
        after_entries(entries, n) is Ok,
    ensures
        after_entries(entries, n)->Ok_0.witnesses.race.winner matches Some(winner)
            ==> after_entries(entries, n)->Ok_0.witnesses.race.contenders.contains(winner),
    decreases n,
{
    if n > 0 {
        a_prefix_is_accepted(entries, n - 1, n);
        the_race_winner_contended(entries, n - 1);
    }
}

} // verus!
