//! What it means that the oracle accepts the log of a polled, leased election.
//!
//! Each law speaks of the plain fields of entries and states: who asked, what stood, how
//! much time had passed.

use crate::duration;
use crate::lease_oracle;
use crate::lease_oracle::{
    CoverageReport, ExpectationView, OracleView, RaceView, Sightings, WitnessView,
};
use crate::lease_types;
use crate::lease_types::{
    DurableView, EntryView, LocalView, SnapshotView, OP_OBSERVE, OP_POLL, OP_RESIGN,
    OP_STALE_WRITE, TRANSITION_ACQUIRED, TRANSITION_FOLLOWED, TRANSITION_NONE,
    TRANSITION_REACQUIRED, TRANSITION_RENEWED, TRANSITION_TOOK_OVER,
};
use crate::stamps;
use vstd::prelude::*;
use vstd::string::*;

verus! {

// ---------------------------------------------------------------------------
// Polls
// ---------------------------------------------------------------------------

/// A poll that is accepted as not leading had no way to lead: the election has an owner,
/// the caller held no unexpired token of its own that still stands, and it had not watched
/// what stands for a whole lease.
pub proof fn an_accepted_follower_could_not_lead(entry: EntryView, election: DurableView)
    requires
        lease_oracle::poll_verdict(entry, election) == Ok::<bool, Seq<char>>(false),
    ensures
        !entry.result,
        entry.transition == TRANSITION_FOLLOWED,
        election.owner is Some,
        entry.local_input matches LocalView::Leadership {
            participant,
            rank,
            lease_duration,
            renewed_at,
        } ==> participant == entry.actor && election.owner == Some(entry.actor) && election.rank
            == rank && election.lease_duration == Some(lease_duration) && lease_duration > 0
            ==> entry.attempt_started_at >= renewed_at + lease_duration,
        entry.local_input matches LocalView::Observation {
            owner,
            rank,
            lease_duration,
            observed_at,
        } ==> election.owner == Some(owner) && election.rank == rank && election.lease_duration
            == Some(lease_duration) ==> lease_duration > 0 && entry.attempt_started_at
            < observed_at + lease_duration,
{
}

/// A poll that is accepted as leading found nobody, or renewed a token of its own that
/// stands and has not run out, or had watched what stands for a whole lease; and which of
/// these it was is what it reports.
pub proof fn an_accepted_leader_had_a_way(entry: EntryView, election: DurableView)
    requires
        lease_oracle::poll_verdict(entry, election) == Ok::<bool, Seq<char>>(true),
    ensures
        entry.result,
        entry.transition == TRANSITION_ACQUIRED || entry.transition == TRANSITION_RENEWED
            || entry.transition == TRANSITION_TOOK_OVER || entry.transition
            == TRANSITION_REACQUIRED,
        entry.transition == TRANSITION_ACQUIRED <==> election.owner is None,
        entry.transition == TRANSITION_RENEWED ==> {
            &&& entry.local_input matches LocalView::Leadership {
                participant,
                rank,
                lease_duration,
                renewed_at,
            }
            &&& participant == entry.actor
            &&& election.owner == Some(entry.actor)
            &&& election.rank == rank
            &&& election.lease_duration == Some(lease_duration)
            &&& entry.attempt_started_at < renewed_at + lease_duration
        },
        entry.transition == TRANSITION_TOOK_OVER || entry.transition == TRANSITION_REACQUIRED ==> {
            &&& entry.local_input matches LocalView::Observation {
                owner,
                rank,
                lease_duration,
                observed_at,
            }
            &&& election.owner == Some(owner)
            &&& election.rank == rank
            &&& election.lease_duration == Some(lease_duration)
            &&& lease_duration == 0 || entry.attempt_started_at >= observed_at + lease_duration
            &&& entry.transition == TRANSITION_REACQUIRED <==> owner == entry.actor
        },
{
}

/// Nothing that the rules allow is turned down: whoever polls an election that nobody
/// holds leads, whoever brings an unexpired token of its own that stands renews, whoever
/// has watched what stands for a whole lease takes it, and everybody else follows.
pub proof fn an_honest_poll_is_accepted(entry: EntryView, election: DurableView)
    ensures
        entry.transition == TRANSITION_ACQUIRED && entry.result && election.owner is None
            ==> lease_oracle::poll_verdict(entry, election) == Ok::<bool, Seq<char>>(true),
        entry.transition == TRANSITION_RENEWED && entry.result && election.owner == Some(
            entry.actor,
        ) && (entry.local_input matches LocalView::Leadership {
            participant,
            rank,
            lease_duration,
            renewed_at,
        } && participant == entry.actor && election.rank == rank && election.lease_duration == Some(
            lease_duration,
        ) && lease_duration > 0 && entry.attempt_started_at < renewed_at + lease_duration)
            ==> lease_oracle::poll_verdict(entry, election) == Ok::<bool, Seq<char>>(true),
        entry.result && (entry.local_input matches LocalView::Observation {
            owner,
            rank,
            lease_duration,
            observed_at,
        } && election.owner == Some(owner) && election.rank == rank && election.lease_duration
            == Some(lease_duration) && entry.attempt_started_at >= observed_at + lease_duration
            && entry.transition == if owner == entry.actor {
            TRANSITION_REACQUIRED
        } else {
            TRANSITION_TOOK_OVER
        }) ==> lease_oracle::poll_verdict(entry, election) == Ok::<bool, Seq<char>>(true),
        entry.transition == TRANSITION_FOLLOWED && !entry.result && election.owner is Some && (
        match entry.local_input {
            LocalView::Unknown => true,
            LocalView::Leadership { participant, rank, lease_duration, renewed_at } => participant
                != entry.actor || election.owner != Some(entry.actor) || election.rank != rank
                || election.lease_duration != Some(lease_duration) || entry.attempt_started_at
                >= renewed_at + lease_duration,
            LocalView::Observation { owner, rank, lease_duration, observed_at } => election.owner
                != Some(owner) || election.rank != rank || election.lease_duration != Some(
                lease_duration,
            ) || lease_duration > 0 && entry.attempt_started_at < observed_at + lease_duration,
        }) ==> lease_oracle::poll_verdict(entry, election) == Ok::<bool, Seq<char>>(false),
{
}

/// At one election and one moment a caller either leads or follows, never whichever it
/// likes: two reports of the same poll that differ are not both accepted.
pub proof fn a_poll_has_one_outcome(a: EntryView, b: EntryView, election: DurableView)
    requires
        a.actor == b.actor,
        a.local_input == b.local_input,
        a.attempt_started_at == b.attempt_started_at,
        lease_oracle::poll_verdict(a, election) is Ok,
        lease_oracle::poll_verdict(b, election) is Ok,
    ensures
        a.result == b.result,
        a.transition == b.transition,
{
}

// ---------------------------------------------------------------------------
// What an operation shows and leaves
// ---------------------------------------------------------------------------

/// A poll that led raised the rank by one, under its own name and the lease it was
/// configured with, and wrote the register at the new rank: having read what was there,
/// and with its own payload.
pub proof fn a_leader_leaves_its_mark(entry: EntryView, s: OracleView, delayed: bool)
    requires
        entry.kind == OP_POLL,
        entry.result,
        lease_oracle::after_operation(entry, s, delayed) is Ok,
    ensures
        ({
            let t = lease_oracle::after_operation(entry, s, delayed)->Ok_0;
            &&& t.election.rank == s.election.rank + 1
            &&& t.election.owner == Some(entry.actor)
            &&& t.election.lease_duration == Some(entry.configured_lease_duration)
            &&& entry.current == t.election
            &&& t.protected_rank == s.election.rank + 1
            &&& t.protected_value == Some(entry.payload)
            &&& entry.requested_write_rank == s.election.rank + 1
            &&& entry.observed_write_rank == s.protected_rank
            &&& entry.observed_value == s.protected_value
            &&& entry.protected_write_committed
            &&& entry.payload == lease_types::payload_of("leader"@, entry.actor, entry.op_num)
        }),
{
}

/// A poll that followed changed neither the election nor the register, and did not touch
/// the register.
pub proof fn a_follower_leaves_no_mark(entry: EntryView, s: OracleView, delayed: bool)
    requires
        entry.kind == OP_POLL,
        !entry.result,
        lease_oracle::after_operation(entry, s, delayed) is Ok,
    ensures
        ({
            let t = lease_oracle::after_operation(entry, s, delayed)->Ok_0;
            &&& t.election == s.election
            &&& entry.current == s.election
            &&& t.protected_rank == s.protected_rank
            &&& t.protected_value == s.protected_value
        }),
        entry.requested_write_rank == 0,
        entry.observed_write_rank == 0,
        entry.observed_value is None,
        !entry.protected_write_committed,
        entry.payload.len() == 0,
{
}

/// A resignation is accepted exactly where it brings a token, releases the election if
/// and only if that token is what stands, keeps rank and lease, and leaves the register
/// alone.
pub proof fn a_resignation_releases_exactly_what_stands(
    entry: EntryView,
    s: OracleView,
    delayed: bool,
)
    requires
        entry.kind == OP_RESIGN,
    ensures
        lease_oracle::after_operation(entry, s, delayed) is Ok <==> {
            &&& entry.local_input matches LocalView::Leadership {
                participant,
                rank,
                lease_duration,
                ..
            }
            &&& entry.transition == TRANSITION_NONE
            &&& entry.result <==> s.election.owner == Some(participant) && s.election.rank == rank
                && s.election.lease_duration == Some(lease_duration)
            &&& entry.current.rank == s.election.rank
            &&& entry.current.lease_duration == s.election.lease_duration
            &&& entry.current.owner == if entry.result {
                None
            } else {
                s.election.owner
            }
            &&& entry.requested_write_rank == 0
            &&& entry.observed_write_rank == 0
            &&& entry.observed_value is None
            &&& !entry.protected_write_committed
            &&& entry.payload.len() == 0
        },
        lease_oracle::after_operation(entry, s, delayed) is Ok ==> {
            let t = lease_oracle::after_operation(entry, s, delayed)->Ok_0;
            &&& t.election == entry.current
            &&& t.protected_rank == s.protected_rank
            &&& t.protected_value == s.protected_value
            &&& t.witnesses.race == s.witnesses.race
        },
{
}

/// An observation is accepted exactly where it succeeded and changed nothing; and then
/// nothing changes, the witnesses not either.
pub proof fn an_observation_changes_nothing(entry: EntryView, s: OracleView, delayed: bool)
    requires
        entry.kind == OP_OBSERVE,
    ensures
        lease_oracle::after_operation(entry, s, delayed) is Ok <==> {
            &&& entry.current == s.election
            &&& entry.local_input is Unknown
            &&& entry.transition == TRANSITION_NONE
            &&& entry.result
            &&& entry.requested_write_rank == 0
            &&& entry.observed_write_rank == 0
            &&& entry.observed_value is None
            &&& !entry.protected_write_committed
            &&& entry.payload.len() == 0
        },
        lease_oracle::after_operation(entry, s, delayed) is Ok ==> lease_oracle::after_operation(
            entry,
            s,
            delayed,
        )->Ok_0 == s,
{
}

/// A stale write of somebody outside the race is accepted exactly where it was turned
/// down: at a rank below the one that stands, having read what the register holds, with
/// nothing committed.
pub proof fn a_stale_write_is_turned_down(entry: EntryView, s: OracleView, delayed: bool)
    requires
        entry.kind == OP_STALE_WRITE,
    ensures
        lease_oracle::after_operation(entry, s, delayed) is Ok ==> {
            &&& entry.current == s.election
            &&& entry.local_input is Unknown
            &&& entry.transition == TRANSITION_NONE
            &&& !entry.result
            &&& entry.requested_write_rank < s.election.rank
            &&& entry.observed_write_rank == s.protected_rank
            &&& entry.observed_value == s.protected_value
            &&& !entry.protected_write_committed
            &&& entry.payload == lease_types::payload_of("stale"@, entry.actor, entry.op_num)
        },
        entry.current == s.election && entry.local_input is Unknown && entry.transition
            == TRANSITION_NONE && !entry.result && entry.requested_write_rank < s.election.rank
            && entry.observed_write_rank == s.protected_rank && entry.observed_value
            == s.protected_value && !entry.protected_write_committed && entry.payload
            == lease_types::payload_of("stale"@, entry.actor, entry.op_num) && !in_the_race(
            entry.actor,
        ) ==> lease_oracle::after_operation(entry, s, delayed) is Ok,
        lease_oracle::after_operation(entry, s, delayed) is Ok ==> {
            let t = lease_oracle::after_operation(entry, s, delayed)->Ok_0;
            &&& t.election == s.election
            &&& t.protected_rank == s.protected_rank
            &&& t.protected_value == s.protected_value
        },
{
    reveal_strlit("race\0");
    in_the_race_by_prefix(entry.actor);
}

/// Only the four operations there are can be accepted.
pub proof fn an_unknown_operation_is_turned_down(entry: EntryView, s: OracleView, delayed: bool)
    requires
        lease_oracle::after_operation(entry, s, delayed) is Ok,
    ensures
        entry.kind == OP_POLL || entry.kind == OP_RESIGN || entry.kind == OP_OBSERVE || entry.kind
            == OP_STALE_WRITE,
{
}

/// A poll whose report is allowed and whose evidence is complete is accepted, outside the
/// coordinated race.
pub proof fn complete_evidence_is_accepted(entry: EntryView, s: OracleView, delayed: bool)
    requires
        entry.kind == OP_POLL,
        lease_oracle::poll_verdict(entry, s.election) == Ok::<bool, Seq<char>>(entry.result),
        !in_the_race(entry.actor),
        entry.result ==> {
            &&& s.election.rank < u64::MAX
            &&& entry.current.rank == s.election.rank + 1
            &&& entry.current.owner == Some(entry.actor)
            &&& entry.current.lease_duration == Some(entry.configured_lease_duration)
            &&& entry.requested_write_rank == s.election.rank + 1
            &&& entry.observed_write_rank == s.protected_rank
            &&& entry.observed_value == s.protected_value
            &&& entry.protected_write_committed
            &&& entry.payload == lease_types::payload_of("leader"@, entry.actor, entry.op_num)
        },
        !entry.result ==> {
            &&& entry.current == s.election
            &&& entry.requested_write_rank == 0
            &&& entry.observed_write_rank == 0
            &&& entry.observed_value is None
            &&& !entry.protected_write_committed
            &&& entry.payload.len() == 0
        },
    ensures
        lease_oracle::after_operation(entry, s, delayed) is Ok,
{
    reveal_strlit("race\0");
    in_the_race_by_prefix(entry.actor);
}

// ---------------------------------------------------------------------------
// Local state
// ---------------------------------------------------------------------------

/// Whether `j` is the last operation before `i` that left its client a local state: a
/// tracked poll or resignation of the same actor and incarnation.
pub open spec fn last_operation(entries: Seq<EntryView>, i: int, j: int) -> bool {
    &&& 0 <= j < i
    &&& entries[j].tracks_local_state
    &&& entries[j].kind == OP_POLL || entries[j].kind == OP_RESIGN
    &&& entries[j].actor == entries[i].actor
    &&& entries[j].incarnation == entries[i].incarnation
    &&& forall|k: int|
        j < k < i ==> !((#[trigger] entries[k]).tracks_local_state && (entries[k].kind == OP_POLL
            || entries[k].kind == OP_RESIGN) && entries[k].actor == entries[i].actor
            && entries[k].incarnation == entries[i].incarnation)
}

proof fn the_last_is_found(entries: Seq<EntryView>, actor: Seq<char>, incarnation: u64, n: int)
    requires
        0 <= n <= entries.len(),
    ensures
        ({
            let p = lease_oracle::last_settled(entries, actor, incarnation, n);
            &&& -1 <= p < n
            &&& p >= 0 ==> lease_oracle::settles(entries[p], actor, incarnation)
            &&& forall|k: int|
                p < k < n ==> !lease_oracle::settles(#[trigger] entries[k], actor, incarnation)
        }),
    decreases n,
{
    if n > 0 {
        the_last_is_found(entries, actor, incarnation, n - 1);
    }
}

/// A client that tracks its local state and has done nothing yet knows nothing.
pub proof fn a_new_client_knows_nothing(entries: Seq<EntryView>, i: int, s: OracleView)
    requires
        0 <= i < entries.len(),
        lease_oracle::after_entry(entries, i, s) is Ok,
        entries[i].tracks_local_state,
        forall|k: int| 0 <= k < i ==> !last_operation(entries, i, k),
    ensures
        entries[i].local_input is Unknown,
{
    let p = lease_oracle::last_settled(entries, entries[i].actor, entries[i].incarnation, i);
    the_last_is_found(entries, entries[i].actor, entries[i].incarnation, i);
    if p >= 0 {
        assert(last_operation(entries, i, p)) by {
            assert forall|k: int| p < k < i implies !((
            #[trigger] entries[k]).tracks_local_state && (entries[k].kind == OP_POLL
                || entries[k].kind == OP_RESIGN) && entries[k].actor == entries[i].actor
                && entries[k].incarnation == entries[i].incarnation) by {
                assert(!lease_oracle::settles(
                    entries[k],
                    entries[i].actor,
                    entries[i].incarnation,
                ));
            }
        }
    }
}

proof fn the_last_is_the_one(entries: Seq<EntryView>, i: int, j: int)
    requires
        0 <= i < entries.len(),
        last_operation(entries, i, j),
    ensures
        lease_oracle::last_settled(entries, entries[i].actor, entries[i].incarnation, i) == j,
{
    let p = lease_oracle::last_settled(entries, entries[i].actor, entries[i].incarnation, i);
    the_last_is_found(entries, entries[i].actor, entries[i].incarnation, i);
    assert(lease_oracle::settles(entries[j], entries[i].actor, entries[i].incarnation));
    if p > j {
        assert(lease_oracle::settles(entries[p], entries[i].actor, entries[i].incarnation));
        assert(entries[p].tracks_local_state);
    }
}

/// In an accepted log a client that tracks its local state brings what its last operation
/// left it. A poll that led left a token, made out at the start of that attempt; a
/// resignation left nothing where it released, and the token where it did not.
pub proof fn a_client_brings_the_token_it_was_left(
    entries: Seq<EntryView>,
    i: int,
    j: int,
)
    requires
        0 <= i < entries.len(),
        lease_oracle::after_entries(entries, entries.len() as int) is Ok,
        entries[i].tracks_local_state,
        last_operation(entries, i, j),
    ensures
        entries[j].kind == OP_POLL && entries[j].result ==> entries[i].local_input
            == (LocalView::Leadership {
            participant: entries[j].actor,
            rank: entries[j].current.rank,
            lease_duration: entries[j].current.lease_duration->Some_0,
            renewed_at: entries[j].attempt_started_at,
        }),
        entries[j].kind == OP_RESIGN && entries[j].result ==> entries[i].local_input is Unknown,
        entries[j].kind == OP_RESIGN && !entries[j].result ==> entries[i].local_input
            == entries[j].local_input,
{
    lease_oracle::a_prefix_is_accepted(entries, i + 1, entries.len() as int);
    lease_oracle::a_prefix_is_accepted(entries, i, entries.len() as int);
    lease_oracle::a_prefix_is_accepted(entries, j + 1, entries.len() as int);
    lease_oracle::a_prefix_is_accepted(entries, j, entries.len() as int);
    lease_oracle::an_accepted_entry_says_what_it_did(
        entries,
        j,
        lease_oracle::after_entries(entries, j)->Ok_0,
    );
    the_last_is_the_one(entries, i, j);
}

/// In an accepted log a client that followed goes on with the observation it brought,
/// where that is still what stands; otherwise it brings a new one: of what stood, taken
/// after that attempt began and no later than the next one, and not before the delay it
/// planned, but for a nanosecond.
pub proof fn a_follower_adopts_what_stood(entries: Seq<EntryView>, i: int, j: int)
    requires
        0 <= i < entries.len(),
        lease_oracle::after_entries(entries, entries.len() as int) is Ok,
        entries[i].tracks_local_state,
        last_operation(entries, i, j),
        entries[j].kind == OP_POLL,
        !entries[j].result,
    ensures
        ({
            let stood = entries[j].current;
            let kept = entries[j].local_input matches LocalView::Observation {
                owner,
                rank,
                lease_duration,
                ..
            } && stood.owner == Some(owner) && stood.rank == rank && stood.lease_duration == Some(
                lease_duration,
            );
            &&& kept ==> entries[i].local_input == entries[j].local_input
                && entries[j].planned_adoption_delay is None
            &&& !kept ==> {
                &&& entries[i].local_input matches LocalView::Observation {
                    owner,
                    rank,
                    lease_duration,
                    observed_at,
                }
                &&& stood.owner == Some(owner)
                &&& stood.rank == rank
                &&& stood.lease_duration == Some(lease_duration)
                &&& entries[j].attempt_started_at < observed_at <= entries[i].attempt_started_at
                &&& entries[j].planned_adoption_delay matches Some(delay)
                    ==> entries[j].attempt_started_at + delay <= duration::longest() ==> observed_at
                    + 1 >= entries[j].attempt_started_at + delay
            }
        }),
{
    lease_oracle::a_prefix_is_accepted(entries, i + 1, entries.len() as int);
    lease_oracle::a_prefix_is_accepted(entries, i, entries.len() as int);
    lease_oracle::a_prefix_is_accepted(entries, j + 1, entries.len() as int);
    lease_oracle::a_prefix_is_accepted(entries, j, entries.len() as int);
    lease_oracle::an_accepted_entry_says_what_it_did(
        entries,
        j,
        lease_oracle::after_entries(entries, j)->Ok_0,
    );
    the_last_is_the_one(entries, i, j);
}

/// What a client brings is accepted exactly where it is what was expected: nothing where
/// nothing was, the very state where one was fixed, and otherwise an observation of what
/// stood, taken after `not_before`, not before the delay but for a nanosecond, and no
/// later than the attempt. It counts as adopted late where the delay exceeds the lease.
pub proof fn what_is_brought_is_what_was_expected(
    entry: EntryView,
    expected: Option<ExpectationView>,
)
    requires
        entry.tracks_local_state,
    ensures
        expected is None ==> (lease_oracle::local_verdict(entry, expected) is Ok
            <==> entry.local_input is Unknown),
        expected matches Some(ExpectationView::Exact(local)) ==> (lease_oracle::local_verdict(
            entry,
            expected,
        ) is Ok <==> entry.local_input == local),
        expected matches Some(
            ExpectationView::AdoptedObservation {
                owner,
                rank,
                lease_duration,
                not_before,
                planned_adoption_delay,
            },
        ) ==> {
            let delay = match planned_adoption_delay {
                Some(delay) => delay,
                None => 0,
            };
            let verdict = lease_oracle::local_verdict(entry, expected);
            &&& not_before + delay <= duration::longest() ==> (verdict is Ok <==> {
                &&& entry.local_input matches LocalView::Observation {
                    owner: seen,
                    rank: at,
                    lease_duration: lease,
                    observed_at,
                }
                &&& seen == owner
                &&& at == rank
                &&& lease == lease_duration
                &&& not_before < observed_at <= entry.attempt_started_at
                &&& observed_at + 1 >= not_before + delay
            })
            &&& verdict is Ok ==> (verdict->Ok_0 <==> delay > lease_duration)
        },
{
}

/// An entry that does not track its local state may bring anything.
pub proof fn an_untracked_entry_may_bring_anything(
    entry: EntryView,
    expected: Option<ExpectationView>,
)
    requires
        !entry.tracks_local_state,
    ensures
        lease_oracle::local_verdict(entry, expected) == Ok::<bool, Seq<char>>(false),
{
}

/// A leader plans no adoption, and an operation that leaves no local state expects none.
pub proof fn a_leader_plans_no_adoption(entries: Seq<EntryView>, i: int, s: OracleView)
    requires
        0 <= i < entries.len(),
        lease_oracle::after_entry(entries, i, s) is Ok,
        entries[i].tracks_local_state,
        entries[i].kind == OP_POLL,
        entries[i].result,
    ensures
        entries[i].planned_adoption_delay is None,
{
}

// ---------------------------------------------------------------------------
// The log as a whole
// ---------------------------------------------------------------------------

/// In an accepted log every versionstamp is filled in and larger than every one before it,
/// every entry names its actor and a lease, and no actor's incarnation uses a number twice.
pub proof fn an_accepted_log_is_well_kept(entries: Seq<EntryView>, i: int, j: int)
    requires
        0 <= i < j < entries.len(),
        lease_oracle::after_entries(entries, entries.len() as int) is Ok,
    ensures
        stamps::stamp_value(entries[i].versionstamp) < stamps::stamp_value(
            entries[j].versionstamp,
        ),
        exists|k: int| 0 <= k < 10 && entries[j].versionstamp[k] != 0xff,
        entries[j].actor.len() > 0,
        entries[j].configured_lease_duration > 0,
        entries[i].actor == entries[j].actor && entries[i].incarnation == entries[j].incarnation
            ==> entries[i].op_num != entries[j].op_num,
    decreases j - i,
{
    lease_oracle::a_prefix_is_accepted(entries, j + 1, entries.len() as int);
    lease_oracle::a_prefix_is_accepted(entries, j, entries.len() as int);
    assert(lease_oracle::in_order(entries, j));
    if i < j - 1 {
        an_accepted_log_is_well_kept(entries, i, j - 1);
    }
    if lease_oracle::same_operation(entries[i], entries[j]) {
        assert(lease_oracle::repeats(entries, j));
    }
}

/// The first entry of an accepted log has its stamp, its actor and its lease as well.
pub proof fn an_accepted_log_begins_well(entries: Seq<EntryView>)
    requires
        entries.len() > 0,
        lease_oracle::after_entries(entries, entries.len() as int) is Ok,
    ensures
        exists|k: int| 0 <= k < 10 && entries[0].versionstamp[k] != 0xff,
        entries[0].actor.len() > 0,
        entries[0].configured_lease_duration > 0,
        entries[0].prior.rank == 0,
        entries[0].prior.owner is None,
        entries[0].prior.lease_duration is None,
{
    lease_oracle::a_prefix_is_accepted(entries, 1, entries.len() as int);
    lease_oracle::a_prefix_is_accepted(entries, 0, entries.len() as int);
    reveal_with_fuel(lease_oracle::after_entries, 2);
}

/// An entry of the right order that repeats nothing, found what stands, has a lease,
/// brings what is expected and is allowed as an operation, is accepted.
pub proof fn a_proper_entry_is_accepted(entries: Seq<EntryView>, i: int, s: OracleView)
    requires
        0 <= i < entries.len(),
        exists|k: int| 0 <= k < 10 && entries[i].versionstamp[k] != 0xff,
        i > 0 ==> stamps::stamp_value(entries[i - 1].versionstamp) < stamps::stamp_value(
            entries[i].versionstamp,
        ),
        entries[i].actor.len() > 0,
        forall|k: int|
            0 <= k < i ==> !((#[trigger] entries[k]).actor == entries[i].actor
                && entries[k].incarnation == entries[i].incarnation && entries[k].op_num
                == entries[i].op_num),
        entries[i].prior == s.election,
        entries[i].configured_lease_duration > 0,
        !entries[i].tracks_local_state,
        lease_oracle::after_operation(entries[i], s, false) is Ok,
    ensures
        lease_oracle::after_entry(entries, i, s) == lease_oracle::after_operation(
            entries[i],
            s,
            false,
        ),
{
    assert(!lease_oracle::repeats(entries, i));
}

/// A log is accepted against a snapshot exactly where replaying it ends in what the
/// snapshot holds, and somebody wrote the register.
pub proof fn a_log_is_judged_by_where_it_ends(entries: Seq<EntryView>, snapshot: SnapshotView)
    ensures
        lease_oracle::judged(entries, snapshot) is Ok <==> {
            &&& lease_oracle::after_entries(entries, entries.len() as int) matches Ok(s)
            &&& snapshot.election == s.election
            &&& snapshot.protected_rank == s.protected_rank
            &&& snapshot.protected_value == s.protected_value
            &&& s.protected_value is Some
        },
        lease_oracle::judged(entries, snapshot) matches Ok(witnesses) ==> witnesses
            == lease_oracle::after_entries(entries, entries.len() as int)->Ok_0.witnesses,
{
}

/// Somebody led in every log that is accepted.
pub proof fn somebody_led(entries: Seq<EntryView>, snapshot: SnapshotView)
    requires
        lease_oracle::judged(entries, snapshot) is Ok,
    ensures
        exists|i: int|
            0 <= i < entries.len() && (#[trigger] entries[i]).kind == OP_POLL && entries[i].result,
{
    nobody_leads_nothing(entries, entries.len() as int);
}

proof fn nobody_leads_nothing(entries: Seq<EntryView>, n: int)
    requires
        0 <= n <= entries.len(),
        lease_oracle::after_entries(entries, n) is Ok,
    ensures
        lease_oracle::after_entries(entries, n)->Ok_0.protected_value is Some ==> exists|i: int|
            0 <= i < n && (#[trigger] entries[i]).kind == OP_POLL && entries[i].result,
    decreases n,
{
    if n > 0 {
        lease_oracle::a_prefix_is_accepted(entries, n - 1, n);
        nobody_leads_nothing(entries, n - 1);
        lease_oracle::an_accepted_entry_says_what_it_did(
            entries,
            n - 1,
            lease_oracle::after_entries(entries, n - 1)->Ok_0,
        );
    }
}

/// A snapshot is coherent exactly where an election that nobody ever won has neither owner
/// nor lease, any other has a lease that lasts, and the register holds a value exactly
/// where it was written, at no higher rank than the election's.
pub proof fn a_coherent_snapshot_fits_together(s: SnapshotView)
    ensures
        lease_oracle::coherent(s) ==> s.protected_rank <= s.election.rank,
        lease_oracle::coherent(s) && s.election.rank == 0 ==> s.election.owner is None
            && s.election.lease_duration is None && s.protected_value is None,
        lease_oracle::coherent(s) && s.election.rank > 0 ==> s.election.lease_duration is Some
            && s.election.lease_duration->Some_0 > 0,
        lease_oracle::coherent(s) ==> (s.protected_value is Some <==> s.protected_rank > 0),
        s.election.rank == 0 && s.election.owner is None && s.election.lease_duration is None
            && s.protected_rank == 0 && s.protected_value is None ==> lease_oracle::coherent(s),
        s.election.rank > 0 && s.election.lease_duration is Some
            && s.election.lease_duration->Some_0 > 0 && s.protected_rank <= s.election.rank && (
        s.protected_value is Some <==> s.protected_rank > 0) ==> lease_oracle::coherent(s),
{
}

// ---------------------------------------------------------------------------
// The coordinated race
// ---------------------------------------------------------------------------

/// Whether a participant races: its name starts with the word and a zero.
pub open spec fn in_the_race(actor: Seq<char>) -> bool {
    actor.len() >= 5 && actor[0] == 'r' && actor[1] == 'a' && actor[2] == 'c' && actor[3] == 'e'
        && actor[4] == '\0'
}

/// Racers are known by the first five characters of their names.
pub proof fn in_the_race_by_prefix(actor: Seq<char>)
    ensures
        lease_oracle::races(actor) <==> in_the_race(actor),
{
    reveal_strlit("race\0");
    let word = lease_oracle::RACE_PARTICIPANT_PREFIX@;
    if in_the_race(actor) {
        assert(actor.take(5) =~= word);
    }
    if lease_oracle::races(actor) {
        assert(actor.take(5)[0] == word[0]);
        assert(actor.take(5)[1] == word[1]);
        assert(actor.take(5)[2] == word[2]);
        assert(actor.take(5)[3] == word[3]);
        assert(actor.take(5)[4] == word[4]);
    }
}

/// Whether a poll is a bid in the race: a racer that has watched an election for a whole
/// lease.
pub open spec fn bids(entry: EntryView) -> bool {
    &&& in_the_race(entry.actor)
    &&& entry.local_input matches LocalView::Observation { lease_duration, observed_at, .. }
    &&& lease_duration == 0 || entry.attempt_started_at >= observed_at + lease_duration
}

/// A poll that is no bid leaves the race as it was.
pub proof fn only_a_bid_moves_the_race(entry: EntryView, race: RaceView)
    requires
        !bids(entry),
    ensures
        lease_oracle::after_bid(entry, race) == Ok::<RaceView, Seq<char>>(race),
{
    in_the_race_by_prefix(entry.actor);
}

/// A bid is accepted exactly where the bidder had not bid before, all bidders watched the
/// same predecessor, and it either won where nobody had, or followed. It then stands among
/// the contenders, and nobody else does who did not before.
pub proof fn a_bid_counts_once(entry: EntryView, race: RaceView)
    requires
        bids(entry),
    ensures
        ({
            let watched = match entry.local_input {
                LocalView::Observation { owner, rank, lease_duration, .. } => (
                    owner,
                    rank,
                    lease_duration,
                ),
                _ => arbitrary(),
            };
            let won = entry.transition == TRANSITION_TOOK_OVER && entry.result;
            let followed = entry.transition == TRANSITION_FOLLOWED && !entry.result;
            let after = lease_oracle::after_bid(entry, race);
            &&& after is Ok <==> {
                &&& race.predecessor is None || race.predecessor == Some(watched)
                &&& !race.contenders.contains(entry.actor)
                &&& (won && race.winner is None) || followed
            }
            &&& after is Ok ==> {
                let r = after->Ok_0;
                &&& r.predecessor == Some(watched)
                &&& r.winner == if won {
                    Some(entry.actor)
                } else {
                    race.winner
                }
                &&& r.stale_writers == race.stale_writers
                &&& r.contenders.contains(entry.actor)
                &&& forall|name: Seq<char>| #[trigger]
                    r.contenders.contains(name) <==> race.contenders.contains(name) || name
                        == entry.actor
            }
        }),
{
    in_the_race_by_prefix(entry.actor);
}

/// A racer's stale write counts exactly where it was made at the rank that the contenders
/// had watched, and is the racer's first. It changes nothing else about the race.
pub proof fn a_racers_stale_write_counts_once(entry: EntryView, race: RaceView)
    requires
        in_the_race(entry.actor),
    ensures
        lease_oracle::after_stale_write(entry, race) is Ok <==> {
            &&& race.predecessor matches Some(p)
            &&& entry.requested_write_rank == p.1
            &&& !race.stale_writers.contains(entry.actor)
        },
        lease_oracle::after_stale_write(entry, race) matches Ok(r) ==> {
            &&& r.predecessor == race.predecessor
            &&& r.contenders == race.contenders
            &&& r.winner == race.winner
            &&& r.stale_writers.contains(entry.actor)
            &&& forall|name: Seq<char>| #[trigger]
                r.stale_writers.contains(name) <==> race.stale_writers.contains(name) || name
                    == entry.actor
        },
{
    in_the_race_by_prefix(entry.actor);
}

/// The stale write of somebody outside the race leaves the race as it was.
pub proof fn an_outsider_writes_outside_the_race(entry: EntryView, race: RaceView)
    requires
        !in_the_race(entry.actor),
    ensures
        lease_oracle::after_stale_write(entry, race) == Ok::<RaceView, Seq<char>>(race),
{
    in_the_race_by_prefix(entry.actor);
}

/// The race is reported as run exactly where two or more contended, one won, and exactly
/// the contenders had a stale write turned down.
pub proof fn a_race_takes_contenders_a_winner_and_stale_writes(
    report: CoverageReport,
    w: WitnessView,
)
    requires
        report.reports(w),
    ensures
        report.saw_coordinated_race <==> {
            &&& w.race.contenders.len() >= 2
            &&& w.race.winner is Some
            &&& forall|name: Seq<char>| #[trigger]
                w.race.contenders.contains(name) <==> w.race.stale_writers.contains(name)
        },
        report.coordinated_race_contenders == w.race.contenders.len(),
{
    if forall|name: Seq<char>| #[trigger]
        w.race.contenders.contains(name) <==> w.race.stale_writers.contains(name) {
        assert(w.race.stale_writers =~= w.race.contenders);
    }
}

// ---------------------------------------------------------------------------
// Witnesses
// ---------------------------------------------------------------------------

/// What a poll that led is a witness of: a takeover of an expiry, and of a foreign one
/// where another had held; the rank of the last takeover and of the last renewal under a
/// new lease; and whether what was taken had been watched for exactly a lease or longer.
/// Everything else stays as it was.
pub proof fn what_a_leader_witnesses(entry: EntryView, s: OracleView, delayed: bool)
    requires
        entry.kind == OP_POLL,
        entry.result,
        lease_oracle::after_operation(entry, s, delayed) is Ok,
    ensures
        ({
            let before = s.witnesses.seen;
            let after = lease_oracle::after_operation(entry, s, delayed)->Ok_0.witnesses.seen;
            let rank = s.election.rank + 1;
            let took = entry.transition == TRANSITION_TOOK_OVER;
            let retook = entry.transition == TRANSITION_REACQUIRED;
            let changed = entry.transition == TRANSITION_RENEWED && s.election.lease_duration
                != Some(entry.configured_lease_duration);
            &&& after.saw_expiry <==> before.saw_expiry || took || retook
            &&& after.saw_foreign_takeover <==> before.saw_foreign_takeover || took
            &&& took ==> after.last_takeover_rank == Some(rank as u64)
            &&& !took ==> after.last_takeover_rank == before.last_takeover_rank
            &&& changed ==> after.renewal_with_new_duration_rank == Some(rank as u64)
            &&& !changed ==> after.renewal_with_new_duration_rank
                == before.renewal_with_new_duration_rank
            &&& took || retook ==> (entry.local_input matches LocalView::Observation {
                lease_duration,
                observed_at,
                ..
            } && {
                let late = entry.attempt_started_at >= observed_at && entry.attempt_started_at
                    - observed_at > lease_duration;
                let exact = if entry.attempt_started_at >= observed_at {
                    entry.attempt_started_at - observed_at == lease_duration
                } else {
                    lease_duration == 0
                };
                &&& after.saw_exact_expiry <==> before.saw_exact_expiry || exact
                &&& after.saw_after_expiry <==> before.saw_after_expiry || late
            })
            &&& !(took || retook) ==> after.saw_exact_expiry == before.saw_exact_expiry
                && after.saw_after_expiry == before.saw_after_expiry
            &&& after.saw_before_expiry == before.saw_before_expiry
            &&& after.saw_stale_renew == before.saw_stale_renew
            &&& after.saw_stale_renew_after_advance == before.saw_stale_renew_after_advance
            &&& after.saw_stale_resign == before.saw_stale_resign
            &&& after.saw_delayed_stale_resign == before.saw_delayed_stale_resign
            &&& after.saw_stale_resign_after_takeover == before.saw_stale_resign_after_takeover
            &&& after.saw_exact_resign == before.saw_exact_resign
            &&& after.saw_stale_write == before.saw_stale_write
            &&& after.saw_zero_rank_stale_write == before.saw_zero_rank_stale_write
            &&& after.saw_post_advance_stale_write == before.saw_post_advance_stale_write
            &&& after.saw_follower_duration_reset == before.saw_follower_duration_reset
            &&& after.saw_delayed_observation_adoption
                == before.saw_delayed_observation_adoption
        }),
{
}

/// What a poll that followed is a witness of: an observation of what stands that is still
/// within its lease, and whether it was adopted late; a token of the caller's own that did
/// not renew, because it ran out or because its rank was passed; and a follower without an
/// observation at the rank where the lease changed. Everything else stays as it was.
pub proof fn what_a_follower_witnesses(entry: EntryView, s: OracleView, delayed: bool)
    requires
        entry.kind == OP_POLL,
        !entry.result,
        lease_oracle::after_operation(entry, s, delayed) is Ok,
    ensures
        ({
            let before = s.witnesses.seen;
            let after = lease_oracle::after_operation(entry, s, delayed)->Ok_0.witnesses.seen;
            let watching = entry.local_input matches LocalView::Observation {
                owner,
                rank,
                lease_duration,
                ..
            } && s.election.owner == Some(owner) && s.election.rank == rank
                && s.election.lease_duration == Some(lease_duration);
            let own = entry.local_input matches LocalView::Leadership { participant, .. }
                && participant == entry.actor;
            let ran_out = own && (entry.local_input matches LocalView::Leadership {
                rank,
                lease_duration,
                renewed_at,
                ..
            } && s.election.owner == Some(entry.actor) && s.election.rank == rank
                && s.election.lease_duration == Some(lease_duration) && (lease_duration == 0
                || entry.attempt_started_at >= renewed_at + lease_duration));
            let passed = own && (entry.local_input matches LocalView::Leadership { rank, .. } && rank
                < s.election.rank);
            &&& after.saw_before_expiry <==> before.saw_before_expiry || watching
            &&& after.saw_delayed_observation_adoption
                <==> before.saw_delayed_observation_adoption || (watching && delayed)
            &&& after.saw_stale_renew <==> before.saw_stale_renew || own
            &&& after.saw_after_expiry <==> before.saw_after_expiry || ran_out
            &&& after.saw_stale_renew_after_advance <==> before.saw_stale_renew_after_advance
                || passed
            &&& after.saw_follower_duration_reset <==> before.saw_follower_duration_reset || (
            before.renewal_with_new_duration_rank == Some(s.election.rank)
                && !(entry.local_input is Observation))
            &&& after.saw_expiry == before.saw_expiry
            &&& after.saw_foreign_takeover == before.saw_foreign_takeover
            &&& after.last_takeover_rank == before.last_takeover_rank
            &&& after.saw_exact_expiry == before.saw_exact_expiry
            &&& after.saw_stale_resign == before.saw_stale_resign
            &&& after.saw_delayed_stale_resign == before.saw_delayed_stale_resign
            &&& after.saw_stale_resign_after_takeover == before.saw_stale_resign_after_takeover
            &&& after.saw_exact_resign == before.saw_exact_resign
            &&& after.saw_stale_write == before.saw_stale_write
            &&& after.saw_zero_rank_stale_write == before.saw_zero_rank_stale_write
            &&& after.saw_post_advance_stale_write == before.saw_post_advance_stale_write
            &&& after.renewal_with_new_duration_rank == before.renewal_with_new_duration_rank
        }),
{
}

/// What a resignation is a witness of: a release, or a stale token; and of a stale one,
/// whether it had run out and whether a takeover had passed its rank. Everything else
/// stays as it was.
pub proof fn what_a_resignation_witnesses(entry: EntryView, s: OracleView, delayed: bool)
    requires
        entry.kind == OP_RESIGN,
        lease_oracle::after_operation(entry, s, delayed) is Ok,
    ensures
        ({
            let before = s.witnesses.seen;
            let after = lease_oracle::after_operation(entry, s, delayed)->Ok_0.witnesses.seen;
            let late = entry.local_input matches LocalView::Leadership {
                lease_duration,
                renewed_at,
                ..
            } && entry.attempt_started_at > renewed_at + lease_duration;
            let overtaken = entry.local_input matches LocalView::Leadership { rank, .. }
                && before.last_takeover_rank matches Some(takeover) && rank < takeover;
            &&& after.saw_exact_resign <==> before.saw_exact_resign || entry.result
            &&& after.saw_stale_resign <==> before.saw_stale_resign || !entry.result
            &&& after.saw_delayed_stale_resign <==> before.saw_delayed_stale_resign || (
            !entry.result && late)
            &&& after.saw_stale_resign_after_takeover
                <==> before.saw_stale_resign_after_takeover || (!entry.result && overtaken)
            &&& after.saw_expiry == before.saw_expiry
            &&& after.saw_foreign_takeover == before.saw_foreign_takeover
            &&& after.last_takeover_rank == before.last_takeover_rank
            &&& after.saw_before_expiry == before.saw_before_expiry
            &&& after.saw_exact_expiry == before.saw_exact_expiry
            &&& after.saw_after_expiry == before.saw_after_expiry
            &&& after.saw_stale_renew == before.saw_stale_renew
            &&& after.saw_stale_renew_after_advance == before.saw_stale_renew_after_advance
            &&& after.saw_stale_write == before.saw_stale_write
            &&& after.saw_zero_rank_stale_write == before.saw_zero_rank_stale_write
            &&& after.saw_post_advance_stale_write == before.saw_post_advance_stale_write
            &&& after.renewal_with_new_duration_rank == before.renewal_with_new_duration_rank
            &&& after.saw_follower_duration_reset == before.saw_follower_duration_reset
            &&& after.saw_delayed_observation_adoption
                == before.saw_delayed_observation_adoption
        }),
{
}

/// What a stale write is a witness of: that one was turned down, and whether it was made
/// at rank zero or above. Everything else stays as it was.
pub proof fn what_a_stale_write_witnesses(entry: EntryView, s: OracleView, delayed: bool)
    requires
        entry.kind == OP_STALE_WRITE,
        lease_oracle::after_operation(entry, s, delayed) is Ok,
    ensures
        ({
            let before = s.witnesses.seen;
            let after = lease_oracle::after_operation(entry, s, delayed)->Ok_0.witnesses.seen;
            &&& after.saw_stale_write
            &&& after.saw_zero_rank_stale_write <==> before.saw_zero_rank_stale_write
                || entry.requested_write_rank == 0
            &&& after.saw_post_advance_stale_write <==> before.saw_post_advance_stale_write
                || entry.requested_write_rank > 0
            &&& after == Sightings {
                saw_stale_write: after.saw_stale_write,
                saw_zero_rank_stale_write: after.saw_zero_rank_stale_write,
                saw_post_advance_stale_write: after.saw_post_advance_stale_write,
                ..before
            }
        }),
{
}

/// Nothing is witnessed before the first entry, and nobody has raced.
pub proof fn nothing_is_witnessed_at_first(entries: Seq<EntryView>)
    ensures
        ({
            let s = lease_oracle::after_entries(entries, 0)->Ok_0;
            let w = s.witnesses.seen;
            &&& lease_oracle::after_entries(entries, 0) is Ok
            &&& s.election.rank == 0
            &&& s.election.owner is None
            &&& s.election.lease_duration is None
            &&& s.protected_rank == 0
            &&& s.protected_value is None
            &&& s.witnesses.race.predecessor is None
            &&& s.witnesses.race.winner is None
            &&& forall|name: Seq<char>|
                !s.witnesses.race.contenders.contains(name)
                    && !s.witnesses.race.stale_writers.contains(name)
            &&& !w.saw_expiry && !w.saw_foreign_takeover && !w.saw_before_expiry
                && !w.saw_exact_expiry && !w.saw_after_expiry && !w.saw_stale_renew
                && !w.saw_stale_renew_after_advance && !w.saw_stale_resign
                && !w.saw_delayed_stale_resign && !w.saw_stale_resign_after_takeover
                && !w.saw_exact_resign && !w.saw_stale_write && !w.saw_zero_rank_stale_write
                && !w.saw_post_advance_stale_write && !w.saw_follower_duration_reset
                && !w.saw_delayed_observation_adoption
            &&& w.last_takeover_rank is None
            &&& w.renewal_with_new_duration_rank is None
        }),
{
}

spec fn unseen(seen: bool) -> nat {
    if seen {
        0
    } else {
        1
    }
}

/// A report leaves out exactly what was not witnessed: nothing is missing where every
/// forced path was taken, the count of those taken is the number of their witnesses, and
/// the same holds of the paths that chance decides.
pub proof fn a_report_misses_exactly_what_was_not_seen(report: CoverageReport, w: WitnessView)
    requires
        report.reports(w),
    ensures
        report.forced_missing@.len() == 0 <==> w.seen.saw_expiry && w.seen.saw_foreign_takeover
            && w.seen.saw_before_expiry && w.seen.saw_after_expiry && w.seen.saw_stale_renew
            && w.seen.saw_stale_write && w.seen.saw_delayed_observation_adoption
            && w.seen.saw_exact_resign && w.seen.saw_follower_duration_reset,
        report.probabilistic_missing@.len() == 0 <==> w.seen.saw_exact_expiry
            && w.seen.saw_stale_renew_after_advance && w.seen.saw_stale_resign
            && w.seen.saw_delayed_stale_resign && w.seen.saw_stale_resign_after_takeover
            && w.seen.saw_post_advance_stale_write && w.seen.saw_zero_rank_stale_write,
        report.forced_observed + report.forced_missing@.len() == 9,
        report.probabilistic_observed + report.probabilistic_missing@.len() == 7,
{
    let s = w.seen;
    assert(lease_oracle::names(report.forced_missing@).len() == report.forced_missing@.len());
    assert(lease_oracle::names(report.probabilistic_missing@).len()
        == report.probabilistic_missing@.len());
    assert(lease_oracle::forced_missing(s).len() == unseen(s.saw_expiry) + unseen(
        s.saw_foreign_takeover,
    ) + unseen(s.saw_before_expiry) + unseen(s.saw_after_expiry) + unseen(s.saw_stale_renew)
        + unseen(s.saw_stale_write) + unseen(s.saw_delayed_observation_adoption) + unseen(
        s.saw_exact_resign,
    ) + unseen(s.saw_follower_duration_reset));
    assert(lease_oracle::probabilistic_missing(s).len() == unseen(s.saw_exact_expiry) + unseen(
        s.saw_stale_renew_after_advance,
    ) + unseen(s.saw_stale_resign) + unseen(s.saw_delayed_stale_resign) + unseen(
        s.saw_stale_resign_after_takeover,
    ) + unseen(s.saw_post_advance_stale_write) + unseen(s.saw_zero_rank_stale_write));
}

} // verus!
