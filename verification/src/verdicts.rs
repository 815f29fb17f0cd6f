//! What it means that a run passes each check.
//!
//! A check reports everything that breaks it, one finding after another. Each law here
//! turns that around: it says of which runs the check has nothing to report.

use crate::duration;
use crate::elector_invariants;
use crate::elector_invariants::{ElectorThresholds, EventView, MergedView, StampedView};
use crate::invariants;
use crate::invariants::ProgressThresholds;
use crate::log_schema::{LogEntry, ObservedIdentity, OpKind};
use crate::replay;
use crate::replay::{RecordView, ReplayView, TransitionKind, TransitionView};
use crate::report;
use vstd::prelude::*;

verus! {

// ---------------------------------------------------------------------------
// Succession
// ---------------------------------------------------------------------------

/// Whether a transition is a proper step from the record it found: it read that
/// record, and moved the ballot and the generation the way its kind demands.
pub open spec fn proper_step(t: TransitionView, found: Option<RecordView>) -> bool {
    &&& t.observed is Some ==> invariants::shown(found) == t.observed
    &&& match t.kind {
        TransitionKind::Claim | TransitionKind::Steal => {
            &&& t.ballot == invariants::ballot_of(found) + 1
            &&& t.generation == invariants::generation_of(found)
        },
        TransitionKind::Renew => {
            &&& found matches Some(held)
            &&& !held.vacant()
            &&& t.ballot == held.ballot
            &&& t.generation == held.generation + 1
            &&& t.token == held.token
            &&& t.leader_id == held.leader_id
        },
        TransitionKind::Resign => {
            &&& found matches Some(held)
            &&& t.ballot == held.ballot
            &&& t.generation == held.generation
        },
    }
}

/// Ballot succession holds exactly of the runs in which every transition is a proper
/// step from the record it found.
pub proof fn succession_passes_exactly_when_every_step_is_proper(replayed: ReplayView)
    ensures
        invariants::succession_findings(replayed).len() == 0 <==> forall|k: int|
            0 <= k < replayed.transitions.len() ==> proper_step(
                #[trigger] replayed.transitions[k],
                invariants::found_by(replayed, replayed.transitions[k]),
            ),
{
    let ts = replayed.transitions;
    let rule = invariants::succession_rule(replayed);
    report::nothing_gathered(ts, ts.len() as int, rule);
    assert forall|k: int| 0 <= k < ts.len() implies ((#[trigger] rule(k, ts[k])).len() == 0
        <==> proper_step(ts[k], invariants::found_by(replayed, ts[k]))) by {}
    if invariants::succession_findings(replayed).len() == 0 {
        assert forall|k: int| 0 <= k < ts.len() implies proper_step(
            #[trigger] ts[k],
            invariants::found_by(replayed, ts[k]),
        ) by {
            assert(rule(k, ts[k]).len() == 0);
        }
    }
}

// ---------------------------------------------------------------------------
// Steals and handovers
// ---------------------------------------------------------------------------

/// Whether some transition left the record at `identity` before entry `index`, and
/// none wrote the record between the last one that did and that entry.
pub open spec fn stood_until(
    transitions: Seq<TransitionView>,
    identity: ObservedIdentity,
    index: usize,
) -> bool {
    exists|p: int|
        {
            &&& 0 <= p < transitions.len()
            &&& replay::produces(#[trigger] transitions[p], identity, index as int)
            &&& forall|k: int|
                p < k < transitions.len() ==> !replay::produces(
                    #[trigger] transitions[k],
                    identity,
                    index as int,
                )
            &&& forall|k: int|
                0 <= k < transitions.len() ==> !(transitions[p].index < (
                #[trigger] transitions[k]).index < index)
        }
}

/// Whether a steal was earned: the taker recorded what it saw and for how long, it
/// watched for the lease that the record advertised, and nobody wrote the record
/// meanwhile.
pub open spec fn earned(
    entries: Seq<LogEntry>,
    replayed: ReplayView,
    t: TransitionView,
    slack: u64,
) -> bool {
    &&& t.observed matches Some(observed)
    &&& invariants::found_by(replayed, t) matches Some(held)
    &&& entries[t.index as int].record.observation_start_nanos matches Some(start)
    &&& replay::floored_difference(
        entries[t.index as int].record.local_nanos as int,
        start as int,
    ) + slack >= held.lease_nanos
    &&& stood_until(replayed.transitions, observed, t.index)
}

proof fn no_interference(transitions: Seq<TransitionView>, after: usize, before: usize, n: int)
    requires
        0 <= n <= transitions.len(),
    ensures
        invariants::interference(transitions, after, before, n).len() == 0 <==> forall|k: int|
            0 <= k < n ==> !(after < (#[trigger] transitions[k]).index < before),
    decreases n,
{
    if n > 0 {
        no_interference(transitions, after, before, n - 1);
    }
}

proof fn uninterrupted(transitions: Seq<TransitionView>, index: usize, observed: ObservedIdentity)
    ensures
        invariants::interruption_findings(transitions, index, observed).len() == 0 <==> stood_until(
            transitions,
            observed,
            index,
        ),
{
    let n = transitions.len() as int;
    let p = replay::producer_position(transitions, observed, index as int, n);
    replay::the_producer_is_the_last_that_fits(transitions, observed, index as int, n);
    if p >= 0 {
        no_interference(transitions, transitions[p].index, index, n);
    }
    if stood_until(transitions, observed, index) {
        let q = choose|q: int|
            {
                &&& 0 <= q < transitions.len()
                &&& replay::produces(#[trigger] transitions[q], observed, index as int)
                &&& forall|k: int|
                    q < k < transitions.len() ==> !replay::produces(
                        #[trigger] transitions[k],
                        observed,
                        index as int,
                    )
                &&& forall|k: int|
                    0 <= k < transitions.len() ==> !(transitions[q].index < (
                    #[trigger] transitions[k]).index < index)
            };
        assert(q == p);
    }
}

/// Steal discipline holds exactly of the runs in which every steal was earned.
pub proof fn discipline_passes_exactly_when_every_steal_was_earned(
    entries: Seq<LogEntry>,
    replayed: ReplayView,
    slack: u64,
)
    ensures
        report::capped(invariants::discipline_findings(entries, replayed, slack)).len() == 0
            <==> forall|k: int|
            0 <= k < replayed.transitions.len() && (#[trigger] replayed.transitions[k]).kind is Steal
                ==> earned(entries, replayed, replayed.transitions[k], slack),
{
    let ts = replayed.transitions;
    let rule = invariants::steal_rule(entries, replayed, slack);
    report::capping_keeps_the_judgement(invariants::discipline_findings(entries, replayed, slack));
    report::nothing_gathered(ts, ts.len() as int, rule);
    assert forall|k: int| 0 <= k < ts.len() implies ((#[trigger] rule(k, ts[k])).len() == 0 <==> (
    ts[k].kind is Steal ==> earned(entries, replayed, ts[k], slack))) by {
        if ts[k].observed is Some {
            uninterrupted(ts, ts[k].index, ts[k].observed->Some_0);
        }
    }
    if invariants::discipline_findings(entries, replayed, slack).len() == 0 {
        assert forall|k: int|
            0 <= k < ts.len() && (#[trigger] ts[k]).kind is Steal implies earned(
            entries,
            replayed,
            ts[k],
            slack,
        ) by {
            assert(rule(k, ts[k]).len() == 0);
        }
    }
}

/// Whether a transition treats vacancy the way it must: only a held term is resigned,
/// at its own ballot and into a vacancy; only an absent or a vacant record is claimed;
/// only a held one is stolen.
pub open spec fn respects_vacancy(replayed: ReplayView, t: TransitionView) -> bool {
    let found = invariants::found_by(replayed, t);
    match t.kind {
        TransitionKind::Resign => {
            &&& found matches Some(held)
            &&& !held.vacant()
            &&& t.ballot == held.ballot
            &&& invariants::next_record(replayed.states_before, t.index as int + 1) matches Some(
                after,
            ) ==> after.ballot == t.ballot ==> after.vacant()
        },
        TransitionKind::Claim => found matches Some(held) ==> held.vacant(),
        TransitionKind::Steal => found matches Some(held) && !held.vacant(),
        TransitionKind::Renew => true,
    }
}

/// Vacant reclaim holds exactly of the runs in which every transition treats vacancy
/// the way it must.
pub proof fn reclaim_passes_exactly_when_vacancy_is_respected(replayed: ReplayView)
    ensures
        invariants::reclaim_findings(replayed).len() == 0 <==> forall|k: int|
            0 <= k < replayed.transitions.len() ==> respects_vacancy(
                replayed,
                #[trigger] replayed.transitions[k],
            ),
{
    let ts = replayed.transitions;
    let rule = invariants::vacancy_rule(replayed);
    report::nothing_gathered(ts, ts.len() as int, rule);
    assert forall|k: int| 0 <= k < ts.len() implies ((#[trigger] rule(k, ts[k])).len() == 0
        <==> respects_vacancy(replayed, ts[k])) by {}
    if invariants::reclaim_findings(replayed).len() == 0 {
        assert forall|k: int| 0 <= k < ts.len() implies respects_vacancy(
            replayed,
            #[trigger] ts[k],
        ) by {
            assert(rule(k, ts[k]).len() == 0);
        }
    }
}

// ---------------------------------------------------------------------------
// Fencing
// ---------------------------------------------------------------------------

/// Whether a write at an entry lies in a term that its own client held at its own
/// ballot, and that nothing had moved past.
pub open spec fn authorised(replayed: ReplayView, index: int, entry: LogEntry) -> bool {
    let holder = replay::covering_position(replayed.terms, index, 0);
    &&& entry.record.ballot >= invariants::ballot_of(replayed.states_before[index])
    &&& holder < replayed.terms.len()
    &&& replayed.terms[holder].ballot == entry.record.ballot
    &&& replayed.terms[holder].client_id == entry.client_id
}

/// Fencing holds exactly of the runs in which every write that landed was authorised by
/// the term it landed in.
pub proof fn fencing_passes_exactly_when_every_write_was_authorised(
    entries: Seq<LogEntry>,
    replayed: ReplayView,
)
    ensures
        invariants::fencing_findings(entries, replayed).len() == 0 <==> forall|i: int|
            0 <= i < entries.len() && invariants::landed_write(#[trigger] entries[i])
                ==> authorised(replayed, i, entries[i]),
{
    let rule = invariants::fencing_rule(replayed);
    report::nothing_gathered(entries, entries.len() as int, rule);
    assert forall|i: int| 0 <= i < entries.len() implies ((#[trigger] rule(i, entries[i])).len()
        == 0 <==> (invariants::landed_write(entries[i]) ==> authorised(
        replayed,
        i,
        entries[i],
    ))) by {
        replay::the_covering_term_is_the_first(replayed.terms, i, 0);
    }
    if invariants::fencing_findings(entries, replayed).len() == 0 {
        assert forall|i: int|
            0 <= i < entries.len() && invariants::landed_write(
                #[trigger] entries[i],
            ) implies authorised(replayed, i, entries[i]) by {
            assert(rule(i, entries[i]).len() == 0);
        }
    }
}

/// In a run that keeps fencing, whatever term covers a write that landed is the
/// writer's own: nobody else held the record at that point of the log.
pub proof fn a_landed_write_is_covered_by_nobody_else(
    entries: Seq<LogEntry>,
    ids: spec_fn(i32) -> Seq<char>,
    i: int,
    k: int,
)
    requires
        entries.len() <= usize::MAX,
        invariants::fencing_findings(entries, replay::replay_of(entries, ids)).len() == 0,
        0 <= i < entries.len(),
        invariants::landed_write(entries[i]),
        0 <= k < replay::replay_of(entries, ids).terms.len(),
        replay::replay_of(entries, ids).terms[k].covers(i),
    ensures
        replay::replay_of(entries, ids).terms[k].ballot == entries[i].record.ballot,
        replay::replay_of(entries, ids).terms[k].client_id == entries[i].client_id,
{
    let replayed = replay::replay_of(entries, ids);
    fencing_passes_exactly_when_every_write_was_authorised(entries, replayed);
    assert(authorised(replayed, i, entries[i]));
    replay::the_covering_term_is_the_first(replayed.terms, i, 0);
    let p = replay::covering_position(replayed.terms, i, 0);
    replay::at_most_one_term_covers(entries, ids, entries.len() as int, p, k, i);
}

/// Whether `client_id` tried an operation at `ballot` after an entry, and was refused
/// the first time.
pub open spec fn refused_after(
    entries: Seq<LogEntry>,
    index: int,
    client_id: i32,
    ballot: u64,
    op: OpKind,
) -> bool {
    exists|j: int|
        {
            &&& index < j < entries.len()
            &&& invariants::acts(#[trigger] entries[j], client_id, ballot, op)
            &&& !(entries[j].record.outcome is Applied)
            &&& forall|k: int|
                index < k < j ==> !invariants::acts(#[trigger] entries[k], client_id, ballot, op)
        }
}

proof fn first_outcome_is_the_first(
    entries: Seq<LogEntry>,
    client_id: i32,
    ballot: u64,
    op: OpKind,
    from: int,
)
    requires
        0 <= from <= entries.len(),
    ensures
        invariants::first_outcome(entries, client_id, ballot, op, from) matches Some(outcome) ==> (
        exists|j: int|
            {
                &&& from <= j < entries.len()
                &&& invariants::acts(#[trigger] entries[j], client_id, ballot, op)
                &&& entries[j].record.outcome == outcome
                &&& forall|k: int|
                    from <= k < j ==> !invariants::acts(
                        #[trigger] entries[k],
                        client_id,
                        ballot,
                        op,
                    )
            }),
        invariants::first_outcome(entries, client_id, ballot, op, from) is None ==> forall|k: int|
            from <= k < entries.len() ==> !invariants::acts(
                #[trigger] entries[k],
                client_id,
                ballot,
                op,
            ),
    decreases entries.len() - from,
{
    if from < entries.len() {
        if invariants::acts(entries[from], client_id, ballot, op) {
        } else {
            first_outcome_is_the_first(entries, client_id, ballot, op, from + 1);
            let found = invariants::first_outcome(entries, client_id, ballot, op, from + 1);
            if let Some(outcome) = found {
                let j = choose|j: int|
                    {
                        &&& from + 1 <= j < entries.len()
                        &&& invariants::acts(#[trigger] entries[j], client_id, ballot, op)
                        &&& entries[j].record.outcome == outcome
                        &&& forall|k: int|
                            from + 1 <= k < j ==> !invariants::acts(
                                #[trigger] entries[k],
                                client_id,
                                ballot,
                                op,
                            )
                    };
                assert forall|k: int| from <= k < j implies !invariants::acts(
                    #[trigger] entries[k],
                    client_id,
                    ballot,
                    op,
                ) by {}
                assert(invariants::acts(entries[j], client_id, ballot, op));
            }
        }
    }
}

proof fn owed_means_refused(
    entries: Seq<LogEntry>,
    index: int,
    client_id: i32,
    ballot: u64,
    what: Seq<char>,
    op: OpKind,
)
    requires
        0 <= index < entries.len(),
    ensures
        invariants::owed_findings(
            index,
            client_id,
            ballot,
            what,
            invariants::first_outcome(entries, client_id, ballot, op, index + 1),
        ).len() == 0 <==> refused_after(entries, index, client_id, ballot, op),
{
    first_outcome_is_the_first(entries, client_id, ballot, op, index + 1);
    let found = invariants::first_outcome(entries, client_id, ballot, op, index + 1);
    if found matches Some(outcome) {
        let j = choose|j: int|
            {
                &&& index + 1 <= j < entries.len()
                &&& invariants::acts(#[trigger] entries[j], client_id, ballot, op)
                &&& entries[j].record.outcome == found->Some_0
                &&& forall|k: int|
                    index + 1 <= k < j ==> !invariants::acts(
                        #[trigger] entries[k],
                        client_id,
                        ballot,
                        op,
                    )
            };
        assert(invariants::acts(entries[j], client_id, ballot, op));
    }
}

/// A paused leader was fenced exactly in the runs in which every one that passed its
/// barrier tried a write and a renewal at its stale ballot, and was refused both.
pub proof fn sleeper_passes_exactly_when_both_stale_operations_were_refused(entries: Seq<LogEntry>)
    ensures
        invariants::sleeper_findings(entries).len() == 0 <==> forall|i: int|
            0 <= i < entries.len() && (#[trigger] entries[i]).record.op is SleeperWoke ==> {
                &&& refused_after(
                    entries,
                    i,
                    entries[i].client_id,
                    entries[i].record.ballot,
                    OpKind::FencedWrite,
                )
                &&& refused_after(
                    entries,
                    i,
                    entries[i].client_id,
                    entries[i].record.ballot,
                    OpKind::Renew,
                )
            },
{
    let rule = invariants::sleeper_rule(entries);
    report::nothing_gathered(entries, entries.len() as int, rule);
    assert forall|i: int| 0 <= i < entries.len() implies ((#[trigger] rule(i, entries[i])).len()
        == 0 <==> (entries[i].record.op is SleeperWoke ==> {
        &&& refused_after(
            entries,
            i,
            entries[i].client_id,
            entries[i].record.ballot,
            OpKind::FencedWrite,
        )
        &&& refused_after(
            entries,
            i,
            entries[i].client_id,
            entries[i].record.ballot,
            OpKind::Renew,
        )
    })) by {
        let client = entries[i].client_id;
        let ballot = entries[i].record.ballot;
        owed_means_refused(entries, i, client, ballot, "fenced write"@, OpKind::FencedWrite);
        owed_means_refused(entries, i, client, ballot, "renewal"@, OpKind::Renew);
    }
    if invariants::sleeper_findings(entries).len() == 0 {
        assert forall|i: int|
            0 <= i < entries.len() && (#[trigger] entries[i]).record.op is SleeperWoke implies {
            &&& refused_after(
                entries,
                i,
                entries[i].client_id,
                entries[i].record.ballot,
                OpKind::FencedWrite,
            )
            &&& refused_after(
                entries,
                i,
                entries[i].client_id,
                entries[i].record.ballot,
                OpKind::Renew,
            )
        } by {
            assert(rule(i, entries[i]).len() == 0);
        }
    }
}

// ---------------------------------------------------------------------------
// Recovery
// ---------------------------------------------------------------------------

/// Whether no token accounts for two applied claims of one client.
pub open spec fn tokens_are_spent_once(transitions: Seq<TransitionView>) -> bool {
    forall|j: int, k: int|
        0 <= j < k < transitions.len() && replay::acquires((#[trigger] transitions[j]).kind)
            && replay::acquires((#[trigger] transitions[k]).kind) && transitions[j].client_id
            == transitions[k].client_id ==> transitions[j].token != transitions[k].token
}

/// Whether an entry's account of its attempt holds together: a retired attempt wrote
/// nothing, adopted nothing and won nothing; an adoption wrote nothing and succeeded.
pub open spec fn resolved_one_way(entry: LogEntry) -> bool {
    let record = entry.record;
    if record.superseded {
        !record.leader_record_written && !record.recovery_noop && !(record.outcome is Applied)
    } else {
        record.recovery_noop ==> !record.leader_record_written && record.outcome is Applied
    }
}

/// Whether no attempt that is not itself retired holds a term under a token that its
/// client retired before.
pub open spec fn retired_for_good(entries: Seq<LogEntry>) -> bool {
    forall|j: int, i: int|
        0 <= j < i < entries.len() && invariants::retires(
            #[trigger] entries[j],
            entries[i].client_id,
            entries[i].record.token@,
        ) && !(#[trigger] entries[i]).record.superseded ==> !invariants::acquired(
            entries[i].record,
        )
}

proof fn first_under_is_the_first(
    transitions: Seq<TransitionView>,
    client_id: i32,
    token: Seq<u8>,
    n: int,
)
    requires
        0 <= n <= transitions.len(),
    ensures
        ({
            let p = invariants::first_under(transitions, client_id, token, n);
            &&& -1 <= p < n
            &&& p >= 0 ==> invariants::claims_under(transitions[p], client_id, token)
            &&& p < 0 ==> forall|k: int|
                0 <= k < n ==> !invariants::claims_under(
                    #[trigger] transitions[k],
                    client_id,
                    token,
                )
        }),
    decreases n,
{
    if n > 0 {
        first_under_is_the_first(transitions, client_id, token, n - 1);
    }
}

proof fn retired_at_is_the_first(entries: Seq<LogEntry>, client_id: i32, token: Seq<u8>, n: int)
    requires
        0 <= n <= entries.len(),
    ensures
        ({
            let p = invariants::retired_at(entries, client_id, token, n);
            &&& -1 <= p < n
            &&& p >= 0 ==> invariants::retires(entries[p], client_id, token)
            &&& p < 0 ==> forall|k: int|
                0 <= k < n ==> !invariants::retires(#[trigger] entries[k], client_id, token)
        }),
    decreases n,
{
    if n > 0 {
        retired_at_is_the_first(entries, client_id, token, n - 1);
    }
}

proof fn tokens_pass_exactly_when_spent_once(replayed: ReplayView)
    ensures
        report::gathered(
            replayed.transitions,
            replayed.transitions.len() as int,
            invariants::token_rule(replayed),
        ).len() == 0 <==> tokens_are_spent_once(replayed.transitions),
{
    let ts = replayed.transitions;
    let rule = invariants::token_rule(replayed);
    report::nothing_gathered(ts, ts.len() as int, rule);
    if report::gathered(ts, ts.len() as int, rule).len() == 0 {
        assert forall|j: int, k: int|
            0 <= j < k < ts.len() && replay::acquires((#[trigger] ts[j]).kind) && replay::acquires(
                (#[trigger] ts[k]).kind,
            ) && ts[j].client_id == ts[k].client_id implies ts[j].token != ts[k].token by {
            assert(rule(k, ts[k]).len() == 0);
            first_under_is_the_first(ts, ts[k].client_id, ts[k].token, k);
            if ts[j].token == ts[k].token {
                assert(invariants::claims_under(ts[j], ts[k].client_id, ts[k].token));
            }
        }
    }
    if tokens_are_spent_once(ts) {
        assert forall|k: int| 0 <= k < ts.len() implies (#[trigger] rule(k, ts[k])).len() == 0 by {
            first_under_is_the_first(ts, ts[k].client_id, ts[k].token, k);
        }
    }
}

proof fn attempts_pass_exactly_when_resolved(entries: Seq<LogEntry>)
    ensures
        report::gathered(
            entries,
            entries.len() as int,
            invariants::attempt_rule(entries),
        ).len() == 0 <==> retired_for_good(entries) && forall|i: int|
            0 <= i < entries.len() ==> resolved_one_way(#[trigger] entries[i]),
{
    let rule = invariants::attempt_rule(entries);
    report::nothing_gathered(entries, entries.len() as int, rule);
    assert forall|i: int| 0 <= i < entries.len() implies ((#[trigger] rule(i, entries[i])).len()
        == 0 <==> (resolved_one_way(entries[i]) && (!entries[i].record.superseded
        && invariants::acquired(entries[i].record) ==> invariants::retired_at(
        entries,
        entries[i].client_id,
        entries[i].record.token@,
        i,
    ) < 0))) by {}
    if report::gathered(entries, entries.len() as int, rule).len() == 0 {
        assert forall|i: int| 0 <= i < entries.len() implies resolved_one_way(
            #[trigger] entries[i],
        ) by {
            assert(rule(i, entries[i]).len() == 0);
        }
        assert forall|j: int, i: int|
            0 <= j < i < entries.len() && invariants::retires(
                #[trigger] entries[j],
                entries[i].client_id,
                entries[i].record.token@,
            ) && !(#[trigger] entries[i]).record.superseded implies !invariants::acquired(
            entries[i].record,
        ) by {
            assert(rule(i, entries[i]).len() == 0);
            retired_at_is_the_first(
                entries,
                entries[i].client_id,
                entries[i].record.token@,
                i,
            );
        }
    }
    if retired_for_good(entries) && forall|i: int|
        0 <= i < entries.len() ==> resolved_one_way(#[trigger] entries[i]) {
        assert forall|i: int| 0 <= i < entries.len() implies (#[trigger] rule(
            i,
            entries[i],
        )).len() == 0 by {
            assert(resolved_one_way(entries[i]));
            retired_at_is_the_first(
                entries,
                entries[i].client_id,
                entries[i].record.token@,
                i,
            );
        }
    }
}

/// Recovery duplicates nothing exactly in the runs in which no client claimed twice
/// under one token, every attempt was resolved one way, and a retired token stayed
/// retired.
pub proof fn recovery_passes_exactly_when_every_attempt_is_spent_once(
    entries: Seq<LogEntry>,
    replayed: ReplayView,
)
    ensures
        invariants::recovery_findings(entries, replayed).len() == 0 <==> {
            &&& tokens_are_spent_once(replayed.transitions)
            &&& retired_for_good(entries)
            &&& forall|i: int| 0 <= i < entries.len() ==> resolved_one_way(#[trigger] entries[i])
        },
{
    tokens_pass_exactly_when_spent_once(replayed);
    attempts_pass_exactly_when_resolved(entries);
}

/// Recovery was exercised exactly in the runs that were asked for none, and in those
/// that threw a reply away wherever a term was won and resolved as many as demanded.
pub proof fn exercise_passes_exactly_when_recoveries_were_resolved(
    entries: Seq<LogEntry>,
    replayed: ReplayView,
    thresholds: ProgressThresholds,
)
    ensures
        invariants::exercise_findings(entries, replayed, thresholds).len() == 0 <==> {
            let markers = invariants::marker_count(entries, entries.len() as int);
            ||| thresholds.min_recoveries == 0
            ||| markers == 0 && invariants::acquisition_count(
                replayed.transitions,
                replayed.transitions.len() as int,
            ) == 0
            ||| markers > 0 && invariants::resolution_count(entries, entries.len() as int)
                >= thresholds.min_recoveries
        },
{
}

/// A run made progress exactly where it won as many terms, saw as many identities and,
/// if any belief outlived its renewal deadline, renewed as often as was demanded.
pub proof fn progress_passes_exactly_when_the_thresholds_are_met(
    entries: Seq<LogEntry>,
    replayed: ReplayView,
    thresholds: ProgressThresholds,
)
    ensures
        invariants::progress_findings(entries, replayed, thresholds).len() == 0 <==> {
            let n = replayed.transitions.len() as int;
            &&& invariants::acquisition_count(replayed.transitions, n)
                >= thresholds.min_acquisitions
            &&& invariants::sighted(entries, entries.len() as int).len()
                >= thresholds.min_observed_identities
            &&& (exists|i: int|
                0 <= i < replayed.beliefs.len() && invariants::outlived(
                    #[trigger] replayed.beliefs[i],
                    duration::low_bits(thresholds.renew_interval@),
                )) ==> invariants::renewal_count(replayed.transitions, n)
                >= thresholds.min_renewals
        },
{
    opportunities_are_beliefs(
        replayed.beliefs,
        duration::low_bits(thresholds.renew_interval@),
        replayed.beliefs.len() as int,
    );
}

proof fn opportunities_are_beliefs(beliefs: Seq<replay::Belief>, renew_interval: u64, n: int)
    requires
        0 <= n <= beliefs.len(),
    ensures
        invariants::opportunity_count(beliefs, renew_interval, n) > 0 <==> exists|i: int|
            0 <= i < n && invariants::outlived(#[trigger] beliefs[i], renew_interval),
    decreases n,
{
    if n > 0 {
        opportunities_are_beliefs(beliefs, renew_interval, n - 1);
        if invariants::outlived(beliefs[n - 1], renew_interval) {
            assert(0 <= n - 1 < n);
        }
    }
}

// ---------------------------------------------------------------------------
// The elector's election
// ---------------------------------------------------------------------------

/// Whether a history describes a succession of terms from its first entry on: every
/// acquisition takes the next ballot, which nobody took before, and a term is resigned
/// once, at its own ballot.
pub open spec fn succeeds(history: Seq<StampedView>, i: int) -> bool {
    let entry = history[i];
    if elector_invariants::takes_term(entry.kind) {
        &&& i > 0 ==> entry.ballot == history[i - 1].ballot + 1
        &&& forall|k: int|
            0 <= k < i && elector_invariants::takes_term((#[trigger] history[k]).kind)
                ==> history[k].ballot != entry.ballot
    } else {
        i > 0 ==> entry.ballot == history[i - 1].ballot && !(history[i - 1].kind is Resign)
    }
}

proof fn first_taken_is_the_first(history: Seq<StampedView>, ballot: u64, n: int)
    requires
        0 <= n <= history.len(),
    ensures
        ({
            let p = elector_invariants::first_taken(history, ballot, n);
            &&& -1 <= p < n
            &&& p >= 0 ==> elector_invariants::takes_term(history[p].kind) && history[p].ballot
                == ballot
            &&& p < 0 ==> forall|k: int|
                0 <= k < n && elector_invariants::takes_term((#[trigger] history[k]).kind)
                    ==> history[k].ballot != ballot
        }),
    decreases n,
{
    if n > 0 {
        first_taken_is_the_first(history, ballot, n - 1);
    }
}

/// A history passes exactly where it describes a succession of terms.
pub proof fn terms_pass_exactly_when_they_succeed_each_other(history: Seq<StampedView>)
    ensures
        elector_invariants::terms_findings(history).len() == 0 <==> forall|i: int|
            0 <= i < history.len() ==> #[trigger] succeeds(history, i),
{
    let rule = elector_invariants::trail_rule(history);
    report::nothing_gathered(history, history.len() as int, rule);
    assert forall|i: int| 0 <= i < history.len() implies ((#[trigger] rule(i, history[i])).len()
        == 0 <==> succeeds(history, i)) by {
        first_taken_is_the_first(history, history[i].ballot, i);
    }
    if elector_invariants::terms_findings(history).len() == 0 {
        assert forall|i: int| 0 <= i < history.len() implies #[trigger] succeeds(history, i) by {
            assert(rule(i, history[i]).len() == 0);
        }
    }
    if forall|i: int| 0 <= i < history.len() ==> #[trigger] succeeds(history, i) {
        assert forall|i: int| 0 <= i < history.len() implies (#[trigger] rule(
            i,
            history[i],
        )).len() == 0 by {
            assert(succeeds(history, i));
        }
    }
}

/// Whether an event, if it is a write that landed after some transition, landed in a
/// term that its own client held at its own ballot.
pub open spec fn landed_in_its_term(
    merged: Seq<MergedView>,
    ids: spec_fn(i32) -> Seq<char>,
    i: int,
) -> bool {
    match (merged[i].event, elector_invariants::last_transition(merged, i)) {
        (
            EventView::FencedWrite { client_id, ballot, applied: true },
            Some(EventView::Transition { kind, ballot: held, leader_id }),
        ) => !(kind is Resign) && held == ballot && leader_id == ids(client_id),
        _ => true,
    }
}

/// The elector's fencing holds exactly of the runs in which every write landed in its
/// own term.
pub proof fn elector_fencing_passes_exactly_when_writes_land_in_their_terms(
    merged: Seq<MergedView>,
    ids: spec_fn(i32) -> Seq<char>,
)
    ensures
        elector_invariants::elector_fencing_findings(merged, ids).len() == 0 <==> forall|i: int|
            0 <= i < merged.len() ==> #[trigger] landed_in_its_term(merged, ids, i),
{
    let rule = elector_invariants::landing_rule(merged, ids);
    report::nothing_gathered(merged, merged.len() as int, rule);
    assert forall|i: int| 0 <= i < merged.len() implies ((#[trigger] rule(i, merged[i])).len() == 0
        <==> landed_in_its_term(merged, ids, i)) by {}
    if elector_invariants::elector_fencing_findings(merged, ids).len() == 0 {
        assert forall|i: int| 0 <= i < merged.len() implies #[trigger] landed_in_its_term(
            merged,
            ids,
            i,
        ) by {
            assert(rule(i, merged[i]).len() == 0);
        }
    }
    if forall|i: int| 0 <= i < merged.len() ==> #[trigger] landed_in_its_term(merged, ids, i) {
        assert forall|i: int| 0 <= i < merged.len() implies (#[trigger] rule(i, merged[i])).len()
            == 0 by {
            assert(landed_in_its_term(merged, ids, i));
        }
    }
}

/// Whether an event, if it is the begin of a belief, was granted, and if it is the end
/// of one, ended what was open before its horizon.
pub open spec fn believed_honestly(
    merged: Seq<MergedView>,
    ids: spec_fn(i32) -> Seq<char>,
    i: int,
) -> bool {
    match merged[i].event {
        EventView::BeliefBegin { client_id, ballot, .. } => (
        elector_invariants::judgeable_from(merged) matches Some(first) ==> ballot >= first
            ==> exists|k: int|
            0 <= k < i && grants(#[trigger] merged[k], ballot, ids(client_id))),
        EventView::BeliefEnd { client_id, ballot, local_nanos } => (
        elector_invariants::open_horizon(merged, client_id, ballot, i) matches Some(horizon)
            && local_nanos < horizon),
        _ => true,
    }
}

/// Whether an event is an acquisition of `ballot` by `holder`.
pub open spec fn grants(event: MergedView, ballot: u64, holder: Seq<char>) -> bool {
    event.event matches EventView::Transition { kind, ballot: taken, leader_id }
        && elector_invariants::takes_term(kind) && taken == ballot && leader_id == holder
}

proof fn granted_means_some_event_grants(
    merged: Seq<MergedView>,
    ballot: u64,
    holder: Seq<char>,
    n: int,
)
    requires
        0 <= n <= merged.len(),
    ensures
        elector_invariants::granted(merged, ballot, holder, n) <==> exists|k: int|
            0 <= k < n && grants(#[trigger] merged[k], ballot, holder),
    decreases n,
{
    if n > 0 {
        granted_means_some_event_grants(merged, ballot, holder, n - 1);
        if grants(merged[n - 1], ballot, holder) {
            assert(0 <= n - 1 < n);
        }
    }
}

/// Beliefs are honest exactly in the runs in which every event of a belief is.
pub proof fn honesty_passes_exactly_when_every_belief_was_granted(
    merged: Seq<MergedView>,
    ids: spec_fn(i32) -> Seq<char>,
)
    ensures
        elector_invariants::elector_honesty_findings(merged, ids).len() == 0 <==> forall|i: int|
            0 <= i < merged.len() ==> #[trigger] believed_honestly(merged, ids, i),
{
    let rule = elector_invariants::honesty_rule(merged, ids);
    report::nothing_gathered(merged, merged.len() as int, rule);
    assert forall|i: int| 0 <= i < merged.len() implies ((#[trigger] rule(i, merged[i])).len() == 0
        <==> believed_honestly(merged, ids, i)) by {
        if let EventView::BeliefBegin { client_id, ballot, .. } = merged[i].event {
            granted_means_some_event_grants(merged, ballot, ids(client_id), i);
        }
    }
    if elector_invariants::elector_honesty_findings(merged, ids).len() == 0 {
        assert forall|i: int| 0 <= i < merged.len() implies #[trigger] believed_honestly(
            merged,
            ids,
            i,
        ) by {
            assert(rule(i, merged[i]).len() == 0);
        }
    }
    if forall|i: int| 0 <= i < merged.len() ==> #[trigger] believed_honestly(merged, ids, i) {
        assert forall|i: int| 0 <= i < merged.len() implies (#[trigger] rule(i, merged[i])).len()
            == 0 by {
            assert(believed_honestly(merged, ids, i));
        }
    }
}

/// The electors made progress exactly where they won as many terms and landed as many
/// writes as was demanded.
pub proof fn elector_progress_passes_exactly_when_the_thresholds_are_met(
    history: Seq<StampedView>,
    log: Seq<LogEntry>,
    thresholds: ElectorThresholds,
)
    ensures
        elector_invariants::elector_progress_findings(history, log, thresholds).len() == 0 <==> {
            &&& elector_invariants::terms_won(history, history.len() as int)
                >= thresholds.min_acquisitions
            &&& elector_invariants::writes_landed(log, log.len() as int)
                >= thresholds.min_fenced_writes
        },
{
}

} // verus!
