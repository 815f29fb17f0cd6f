//! What it means that a replayed run passes each invariant, in plain numbers.
//!
//! The laws of [`verdicts`](crate::verdicts) say it in the words of the checks. These say
//! it of the fields themselves: ballots, generations, tokens and instants.

use crate::duration;
use crate::invariants;
use crate::invariants::{HistoryKind, HistoryView, ProgressThresholds};
use crate::log_schema::{LogEntry, LogRecord, ObservedIdentity, OpKind};
use crate::replay;
use crate::replay::{Belief, RecordView, ReplayView, TransitionKind, TransitionView};
use crate::report;
use crate::verdicts;
use vstd::prelude::*;

verus! {

// ---------------------------------------------------------------------------
// Counting
// ---------------------------------------------------------------------------

/// The places below `n` at which something holds.
pub open spec fn places(holds: spec_fn(int) -> bool, n: int) -> Set<int> {
    Set::new(|k: int| 0 <= k < n && holds(k))
}

/// One more place counts once if something holds there, and not at all otherwise.
pub proof fn places_grow_by_one(holds: spec_fn(int) -> bool, n: int)
    requires
        n > 0,
    ensures
        places(holds, n).finite(),
        places(holds, n - 1).finite(),
        places(holds, n).len() == places(holds, n - 1).len() + if holds(n - 1) {
            1nat
        } else {
            0
        },
{
    places_are_finite(holds, n - 1);
    if holds(n - 1) {
        assert(places(holds, n) =~= places(holds, n - 1).insert(n - 1));
    } else {
        assert(places(holds, n) =~= places(holds, n - 1));
    }
}

/// There are no places below zero, and finitely many below any number.
pub proof fn places_are_finite(holds: spec_fn(int) -> bool, n: int)
    ensures
        places(holds, n).finite(),
        n <= 0 ==> places(holds, n).len() == 0,
    decreases n,
{
    if n <= 0 {
        assert(places(holds, n) =~= Set::<int>::empty());
    } else {
        places_are_finite(holds, n - 1);
        if holds(n - 1) {
            assert(places(holds, n) =~= places(holds, n - 1).insert(n - 1));
        } else {
            assert(places(holds, n) =~= places(holds, n - 1));
        }
    }
}

// ---------------------------------------------------------------------------
// Belief overlap
// ---------------------------------------------------------------------------

/// When a belief is over, on true time: where it was ended, then; otherwise after what lay
/// between its begin and its horizon on the client's own clock.
pub open spec fn over_at(b: Belief) -> int {
    match b.end_sim_nanos {
        Some(end) => end as int,
        None => {
            let ahead = if b.horizon_nanos > b.begin_local_nanos {
                b.horizon_nanos - b.begin_local_nanos
            } else {
                0
            };
            if b.begin_sim_nanos + ahead > u64::MAX {
                u64::MAX as int
            } else {
                b.begin_sim_nanos + ahead
            }
        },
    }
}

/// No two clients believed at once exactly where, of every two beliefs, the one that began
/// earlier was over no later than the tolerance after the other began, whether or not
/// either of them was ever ended.
pub proof fn beliefs_pass_exactly_when_each_is_over_before_the_next(
    beliefs: Seq<Belief>,
    epsilon: u64,
)
    ensures
        report::capped(invariants::overlap_findings(beliefs, epsilon)).len() == 0 <==> forall|
            i: int,
            j: int,
        |
            0 <= i < j < beliefs.len() ==> {
                let a = #[trigger] beliefs[i];
                let b = #[trigger] beliefs[j];
                &&& a.begin_sim_nanos <= b.begin_sim_nanos ==> over_at(a) <= b.begin_sim_nanos
                    + epsilon
                &&& b.begin_sim_nanos < a.begin_sim_nanos ==> over_at(b) <= a.begin_sim_nanos
                    + epsilon
            },
{
    invariants::no_overlap_passes_exactly_when_beliefs_are_apart(beliefs, epsilon);
    assert forall|i: int, j: int| 0 <= i < j < beliefs.len() implies (invariants::overlap(
        #[trigger] beliefs[i],
        #[trigger] beliefs[j],
    ) <= epsilon <==> {
        let a = beliefs[i];
        let b = beliefs[j];
        &&& a.begin_sim_nanos <= b.begin_sim_nanos ==> over_at(a) <= b.begin_sim_nanos + epsilon
        &&& b.begin_sim_nanos < a.begin_sim_nanos ==> over_at(b) <= a.begin_sim_nanos + epsilon
    }) by {}
    if report::capped(invariants::overlap_findings(beliefs, epsilon)).len() == 0 {
        assert forall|i: int, j: int| 0 <= i < j < beliefs.len() implies {
            let a = #[trigger] beliefs[i];
            let b = #[trigger] beliefs[j];
            &&& a.begin_sim_nanos <= b.begin_sim_nanos ==> over_at(a) <= b.begin_sim_nanos
                + epsilon
            &&& b.begin_sim_nanos < a.begin_sim_nanos ==> over_at(b) <= a.begin_sim_nanos
                + epsilon
        } by {
            assert(invariants::overlap(beliefs[i], beliefs[j]) <= epsilon);
        }
    }
}

/// Whether two beliefs overlap does not depend on which of them is named first.
pub proof fn overlap_has_no_sides(a: Belief, b: Belief, epsilon: u64)
    requires
        a.begin_sim_nanos != b.begin_sim_nanos,
    ensures
        invariants::pair_findings(a, b, epsilon).len() == invariants::pair_findings(
            b,
            a,
            epsilon,
        ).len(),
{
}

/// Two beliefs that overlap are reported once, by the entries that began them, in commit
/// order.
pub proof fn an_overlap_names_both_begins(a: Belief, b: Belief, epsilon: u64)
    requires
        a.begin_index < b.begin_index,
    ensures
        ({
            let found = invariants::pair_findings(a, b, epsilon);
            let turned = invariants::pair_findings(b, a, epsilon);
            &&& found.len() <= 1
            &&& turned.len() <= 1
            &&& found.len() == 1 ==> found[0].indices == seq![a.begin_index, b.begin_index]
            &&& turned.len() == 1 ==> turned[0].indices == seq![a.begin_index, b.begin_index]
        }),
{
}

/// A replayed log passes only if of every two beliefs that were begun, the one with the
/// earlier begin was ended, or had run out, within the tolerance of the other's begin.
pub proof fn a_log_that_passes_has_no_two_believers(
    entries: Seq<LogEntry>,
    epsilon: u64,
    i: int,
    j: int,
)
    requires
        entries.len() <= usize::MAX,
        0 <= i < replay::beliefs_of(entries, entries.len() as int).len(),
        0 <= j < replay::beliefs_of(entries, entries.len() as int).len(),
        i != j,
        report::capped(
            invariants::overlap_findings(
                replay::beliefs_of(entries, entries.len() as int),
                epsilon,
            ),
        ).len() == 0,
        replay::beliefs_of(entries, entries.len() as int)[i].begin_sim_nanos
            < replay::beliefs_of(entries, entries.len() as int)[j].begin_sim_nanos,
        replay::beliefs_of(entries, entries.len() as int)[i].end_index is Some,
    ensures
        ({
            let a = replay::beliefs_of(entries, entries.len() as int)[i];
            let b = replay::beliefs_of(entries, entries.len() as int)[j];
            entries[a.end_index->Some_0 as int].record.sim_nanos
                <= entries[b.begin_index as int].record.sim_nanos + epsilon
        }),
{
    let beliefs = replay::beliefs_of(entries, entries.len() as int);
    beliefs_pass_exactly_when_each_is_over_before_the_next(beliefs, epsilon);
    crate::replay_laws::a_belief_is_what_its_entries_say(entries, entries.len() as int, i);
    crate::replay_laws::a_belief_is_what_its_entries_say(entries, entries.len() as int, j);
    let a = beliefs[i];
    let b = beliefs[j];
    if i < j {
        assert(over_at(a) <= b.begin_sim_nanos + epsilon);
    } else {
        assert(over_at(a) <= b.begin_sim_nanos + epsilon);
    }
}

// ---------------------------------------------------------------------------
// Succession and claims
// ---------------------------------------------------------------------------

/// Whether a token is the one of a vacant record.
pub open spec fn blank(token: Seq<u8>) -> bool {
    token == Seq::new(16, |i: int| 0u8)
}

/// Whether a transition is a proper step from what stood before it.
pub open spec fn steps_properly(t: TransitionView, before: Option<RecordView>) -> bool {
    &&& t.observed matches Some(read) ==> (before matches Some(held) && read.ballot == held.ballot
        && read.generation == held.generation && read.vacant == blank(held.token))
    &&& (t.kind is Claim || t.kind is Steal) && before is None ==> t.ballot == 1 && t.generation
        == 0
    &&& (t.kind is Claim || t.kind is Steal) ==> (before matches Some(held) ==> t.ballot
        == held.ballot + 1 && t.generation == held.generation)
    &&& t.kind is Renew ==> (before matches Some(held) && !blank(held.token) && t.ballot
        == held.ballot && t.generation == held.generation + 1 && t.token == held.token
        && t.leader_id == held.leader_id)
    &&& t.kind is Resign ==> (before matches Some(held) && t.ballot == held.ballot && t.generation
        == held.generation)
}

/// Ballot succession holds exactly where every transition read what stood, an acquisition
/// took the next ballot at the same generation, a renewal by the holder kept the ballot and
/// added one generation, and a resign kept both.
pub proof fn succession_is_one_step_at_a_time(replayed: ReplayView)
    ensures
        invariants::succession_findings(replayed).len() == 0 <==> forall|k: int|
            0 <= k < replayed.transitions.len() ==> steps_properly(
                #[trigger] replayed.transitions[k],
                replayed.states_before[replayed.transitions[k].index as int],
            ),
{
    verdicts::succession_passes_exactly_when_every_step_is_proper(replayed);
    let ts = replayed.transitions;
    assert forall|k: int| 0 <= k < ts.len() implies (verdicts::proper_step(
        #[trigger] ts[k],
        invariants::found_by(replayed, ts[k]),
    ) <==> steps_properly(ts[k], replayed.states_before[ts[k].index as int])) by {
        if let Some(held) = replayed.states_before[ts[k].index as int] {
            assert(held.vacant() <==> blank(held.token));
        }
    }
    if invariants::succession_findings(replayed).len() == 0 {
        assert forall|k: int| 0 <= k < ts.len() implies steps_properly(
            #[trigger] ts[k],
            replayed.states_before[ts[k].index as int],
        ) by {
            assert(verdicts::proper_step(ts[k], invariants::found_by(replayed, ts[k])));
        }
    }
}

/// Every finding about a step names the entry of that step.
pub proof fn a_step_is_reported_where_it_happened(t: TransitionView, before: Option<RecordView>)
    ensures
        forall|k: int|
            0 <= k < invariants::step_findings(t, before).len() ==> (
            #[trigger] invariants::step_findings(t, before)[k]).indices == seq![t.index],
{
}

/// One claim per ballot holds exactly where no two claims or steals took the same ballot.
pub proof fn a_ballot_is_taken_once(replayed: ReplayView)
    ensures
        invariants::one_claim_findings(replayed).len() == 0 <==> forall|j: int, k: int|
            0 <= j < k < replayed.transitions.len() && ((
            #[trigger] replayed.transitions[j]).kind is Claim || replayed.transitions[j].kind
                is Steal) && ((#[trigger] replayed.transitions[k]).kind is Claim
                || replayed.transitions[k].kind is Steal) ==> replayed.transitions[j].ballot
                != replayed.transitions[k].ballot,
{
    invariants::one_claim_passes_exactly_when_ballots_are_distinct(replayed);
}

/// The two paths agree exactly where no entry contradicts itself and what the log leads to
/// is the record that the database holds, field by field, or there is none on either side.
pub proof fn the_paths_agree_field_by_field(replayed: ReplayView, snapshot: Option<RecordView>)
    ensures
        invariants::dual_path_findings(replayed, snapshot).len() == 0 <==> {
            &&& replayed.anomalies.len() == 0
            &&& replayed.final_state is None <==> snapshot is None
            &&& replayed.final_state is Some && snapshot is Some ==> {
                let wanted = replayed.final_state->Some_0;
                let held = snapshot->Some_0;
                &&& wanted.ballot == held.ballot
                &&& wanted.generation == held.generation
                &&& wanted.leader_id == held.leader_id
                &&& wanted.token == held.token
                &&& wanted.lease_nanos == held.lease_nanos
            }
        },
{
    invariants::dual_path_passes_exactly_when_the_paths_agree(replayed, snapshot);
    if replayed.final_state is Some && snapshot is Some {
        let wanted = replayed.final_state->Some_0;
        let held = snapshot->Some_0;
        if wanted.ballot == held.ballot && wanted.generation == held.generation
            && wanted.leader_id == held.leader_id && wanted.token == held.token
            && wanted.lease_nanos == held.lease_nanos {
            assert(wanted == held);
        }
    }
}

// ---------------------------------------------------------------------------
// Steals and handovers
// ---------------------------------------------------------------------------

/// Whether a transition left the record at an identity: it wrote that ballot and that
/// generation, and it is a resign exactly where the identity is vacant.
pub open spec fn left_at(t: TransitionView, identity: ObservedIdentity) -> bool {
    t.ballot == identity.ballot && t.generation == identity.generation && (identity.vacant
        <==> t.kind is Resign)
}

/// Steal discipline holds only of runs in which every steal found a record and had, by its
/// own clock, watched it for the lease it advertised, less the slack; and in which the
/// identity that the steal had read was the last thing written before it.
pub proof fn a_steal_is_earned_by_watching(
    entries: Seq<LogEntry>,
    replayed: ReplayView,
    slack: u64,
    k: int,
)
    requires
        report::capped(invariants::discipline_findings(entries, replayed, slack)).len() == 0,
        0 <= k < replayed.transitions.len(),
        replayed.transitions[k].kind is Steal,
    ensures
        ({
            let t = replayed.transitions[k];
            let record = entries[t.index as int].record;
            &&& t.observed is Some
            &&& replayed.states_before[t.index as int] is Some
            &&& record.observation_start_nanos matches Some(start) && {
                let lease = replayed.states_before[t.index as int]->Some_0.lease_nanos;
                lease <= slack || record.local_nanos - start + slack >= lease
            }
            &&& exists|p: int|
                0 <= p < replayed.transitions.len() && left_at(
                    #[trigger] replayed.transitions[p],
                    t.observed->Some_0,
                ) && replayed.transitions[p].index < t.index && forall|m: int|
                    0 <= m < replayed.transitions.len() ==> !(replayed.transitions[p].index < (
                    #[trigger] replayed.transitions[m]).index < t.index)
        }),
{
    verdicts::discipline_passes_exactly_when_every_steal_was_earned(entries, replayed, slack);
    let ts = replayed.transitions;
    let t = ts[k];
    assert(verdicts::earned(entries, replayed, t, slack));
    let observed = t.observed->Some_0;
    let p = choose|p: int|
        {
            &&& 0 <= p < ts.len()
            &&& replay::produces(#[trigger] ts[p], observed, t.index as int)
            &&& forall|m: int|
                p < m < ts.len() ==> !replay::produces(#[trigger] ts[m], observed, t.index as int)
            &&& forall|m: int|
                0 <= m < ts.len() ==> !(ts[p].index < (#[trigger] ts[m]).index < t.index)
        };
    assert(left_at(ts[p], observed));
}

/// A steal that read something, found a record, watched it for a whole lease, and was the
/// first write since the one that left what it read, is not found fault with.
pub proof fn an_earned_steal_is_not_reported(
    entries: Seq<LogEntry>,
    replayed: ReplayView,
    slack: u64,
    t: TransitionView,
    p: int,
)
    requires
        t.kind is Steal,
        t.observed is Some,
        replayed.states_before[t.index as int] is Some,
        entries[t.index as int].record.observation_start_nanos is Some,
        entries[t.index as int].record.local_nanos
            >= entries[t.index as int].record.observation_start_nanos->Some_0
            + replayed.states_before[t.index as int]->Some_0.lease_nanos,
        0 <= p < replayed.transitions.len(),
        left_at(replayed.transitions[p], t.observed->Some_0),
        replayed.transitions[p].index < t.index,
        forall|m: int|
            0 <= m < replayed.transitions.len() ==> !(replayed.transitions[p].index < (
            #[trigger] replayed.transitions[m]).index < t.index),
        forall|m: int|
            p < m < replayed.transitions.len() ==> (#[trigger] replayed.transitions[m]).index
                >= t.index,
    ensures
        invariants::steal_findings(entries, replayed, t, slack).len() == 0,
{
    let ts = replayed.transitions;
    let n = ts.len() as int;
    crate::replay_laws::the_producer_wrote_the_identity(
        ts,
        t.observed->Some_0,
        t.index as int,
        p,
    );
    nothing_lies_between(ts, ts[p].index, t.index, n);
}

proof fn nothing_lies_between(ts: Seq<TransitionView>, after: usize, before: usize, n: int)
    requires
        0 <= n <= ts.len(),
        forall|m: int| 0 <= m < n ==> !(after < (#[trigger] ts[m]).index < before),
    ensures
        invariants::interference(ts, after, before, n).len() == 0,
    decreases n,
{
    if n > 0 {
        nothing_lies_between(ts, after, before, n - 1);
    }
}

/// The writes that interfered with a window are exactly those whose entries lie strictly
/// inside it.
pub proof fn interference_lies_inside_the_window(
    ts: Seq<TransitionView>,
    after: usize,
    before: usize,
    n: int,
    index: usize,
)
    requires
        0 <= n <= ts.len(),
    ensures
        invariants::interference(ts, after, before, n).contains(index) <==> after < index < before
            && exists|m: int| 0 <= m < n && (#[trigger] ts[m]).index == index,
    decreases n,
{
    let found = invariants::interference(ts, after, before, n);
    if n > 0 {
        interference_lies_inside_the_window(ts, after, before, n - 1, index);
        let earlier = invariants::interference(ts, after, before, n - 1);
        if earlier.contains(index) {
            let w = choose|w: int| 0 <= w < earlier.len() && earlier[w] == index;
            assert(found[w] == index);
        }
        if ts[n - 1].index == index && after < index < before {
            assert(found[found.len() - 1] == index);
        }
        if found.contains(index) && !earlier.contains(index) {
            let w = choose|w: int| 0 <= w < found.len() && found[w] == index;
            if w < earlier.len() {
                assert(earlier[w] == index);
            }
            assert(ts[n - 1].index == index);
        }
    }
}

/// Whether a transition treats vacancy the way it must, in the plain fields of what stood
/// before it and what came after.
pub open spec fn treats_vacancy_properly(replayed: ReplayView, t: TransitionView) -> bool {
    let before = replayed.states_before[t.index as int];
    &&& t.kind is Claim ==> (before matches Some(held) ==> blank(held.token))
    &&& t.kind is Steal ==> (before matches Some(held) && !blank(held.token))
    &&& t.kind is Resign ==> (before matches Some(held) && !blank(held.token) && t.ballot
        == held.ballot)
    &&& t.kind is Resign ==> forall|m: int|
        t.index < m < replayed.states_before.len() && (#[trigger] replayed.states_before[m])
            is Some && (forall|l: int| t.index < l < m ==> (#[trigger] replayed.states_before[l])
            is None) ==> replayed.states_before[m]->Some_0.ballot == t.ballot ==> blank(
            replayed.states_before[m]->Some_0.token,
        )
}

proof fn the_next_record_is_the_next(states: Seq<Option<RecordView>>, from: int)
    requires
        0 <= from <= states.len(),
    ensures
        invariants::next_record(states, from) is None ==> forall|m: int|
            from <= m < states.len() ==> (#[trigger] states[m]) is None,
        invariants::next_record(states, from) is Some ==> exists|m: int|
            from <= m < states.len() && (#[trigger] states[m]) == invariants::next_record(
                states,
                from,
            ) && forall|l: int| from <= l < m ==> (#[trigger] states[l]) is None,
    decreases states.len() - from,
{
    if from < states.len() && states[from] is None {
        the_next_record_is_the_next(states, from + 1);
        if invariants::next_record(states, from + 1) is Some {
            let m = choose|m: int|
                from + 1 <= m < states.len() && (#[trigger] states[m])
                    == invariants::next_record(states, from + 1) && forall|l: int|
                    from + 1 <= l < m ==> (#[trigger] states[l]) is None;
            assert forall|l: int| from <= l < m implies (#[trigger] states[l]) is None by {}
            assert(states[m] == invariants::next_record(states, from));
        }
    } else if from < states.len() {
        assert(states[from] == invariants::next_record(states, from));
    }
}

/// Vacant reclaim holds exactly where only an absent or vacant record is claimed, only a
/// held one is stolen, and only a held one is resigned: at its own ballot, and into a
/// vacancy.
pub proof fn vacancy_is_claimed_and_holders_are_stolen_from(replayed: ReplayView)
    requires
        forall|k: int|
            0 <= k < replayed.transitions.len() ==> (#[trigger] replayed.transitions[k]).index
                < replayed.states_before.len(),
    ensures
        invariants::reclaim_findings(replayed).len() == 0 <==> forall|k: int|
            0 <= k < replayed.transitions.len() ==> treats_vacancy_properly(
                replayed,
                #[trigger] replayed.transitions[k],
            ),
{
    verdicts::reclaim_passes_exactly_when_vacancy_is_respected(replayed);
    let ts = replayed.transitions;
    let states = replayed.states_before;
    assert forall|k: int| 0 <= k < ts.len() implies (verdicts::respects_vacancy(
        replayed,
        #[trigger] ts[k],
    ) <==> treats_vacancy_properly(replayed, ts[k])) by {
        let t = ts[k];
        if let Some(held) = states[t.index as int] {
            assert(held.vacant() <==> blank(held.token));
        }
        the_next_record_is_the_next(states, t.index as int + 1);
        let next = invariants::next_record(states, t.index as int + 1);
        if next is Some {
            let m = choose|m: int|
                t.index as int + 1 <= m < states.len() && (#[trigger] states[m]) == next
                    && forall|l: int|
                    t.index as int + 1 <= l < m ==> (#[trigger] states[l]) is None;
            assert(next->Some_0.vacant() <==> blank(next->Some_0.token));
            assert(states[m] == next);
            if verdicts::respects_vacancy(replayed, t) && t.kind is Resign {
                assert forall|j: int|
                    t.index < j < states.len() && (#[trigger] states[j]) is Some && (forall|l: int|
                        t.index < l < j ==> (#[trigger] states[l])
                            is None) implies states[j]->Some_0.ballot == t.ballot ==> blank(
                    states[j]->Some_0.token,
                ) by {
                    if j < m {
                        assert(states[j] is None);
                    } else if m < j {
                        assert(states[m] is None);
                    }
                }
            }
            if treats_vacancy_properly(replayed, t) && t.kind is Resign {
                assert(forall|l: int| t.index < l < m ==> (#[trigger] states[l]) is None);
            }
        }
    }
    if invariants::reclaim_findings(replayed).len() == 0 {
        assert forall|k: int| 0 <= k < ts.len() implies treats_vacancy_properly(
            replayed,
            #[trigger] ts[k],
        ) by {
            assert(verdicts::respects_vacancy(replayed, ts[k]));
        }
    }
}

// ---------------------------------------------------------------------------
// Fencing
// ---------------------------------------------------------------------------

/// Fencing holds exactly where every fenced write that was applied was made at no lower
/// ballot than the record's, and the first term that runs over its entry is of its own
/// client and at its own ballot.
pub proof fn a_landed_write_lies_in_a_term_of_its_own(
    entries: Seq<LogEntry>,
    replayed: ReplayView,
)
    ensures
        invariants::fencing_findings(entries, replayed).len() == 0 <==> forall|i: int|
            0 <= i < entries.len() && (#[trigger] entries[i]).record.op == OpKind::FencedWrite
                && entries[i].record.outcome is Applied ==> {
                &&& replayed.states_before[i] matches Some(held) ==> held.ballot
                    <= entries[i].record.ballot
                &&& exists|p: int|
                    0 <= p < replayed.terms.len() && {
                        let term = #[trigger] replayed.terms[p];
                        &&& term.start <= i
                        &&& term.end matches Some(end) ==> i < end
                        &&& term.ballot == entries[i].record.ballot
                        &&& term.client_id == entries[i].client_id
                        &&& forall|q: int|
                            0 <= q < p ==> (#[trigger] replayed.terms[q]).start > i || (
                            replayed.terms[q].end matches Some(end) && end <= i)
                    }
            },
{
    verdicts::fencing_passes_exactly_when_every_write_was_authorised(entries, replayed);
    let terms = replayed.terms;
    assert forall|i: int|
        0 <= i < entries.len() && invariants::landed_write(#[trigger] entries[i]) implies (
    verdicts::authorised(replayed, i, entries[i]) <==> {
        &&& replayed.states_before[i] matches Some(held) ==> held.ballot
            <= entries[i].record.ballot
        &&& exists|p: int|
            0 <= p < terms.len() && {
                let term = #[trigger] terms[p];
                &&& term.start <= i
                &&& term.end matches Some(end) ==> i < end
                &&& term.ballot == entries[i].record.ballot
                &&& term.client_id == entries[i].client_id
                &&& forall|q: int|
                    0 <= q < p ==> (#[trigger] terms[q]).start > i || (
                    terms[q].end matches Some(end) && end <= i)
            }
    }) by {
        replay::the_covering_term_is_the_first(terms, i, 0);
        let h = replay::covering_position(terms, i, 0);
        assert forall|q: int| 0 <= q < h implies (#[trigger] terms[q]).start > i || (
        terms[q].end matches Some(end) && end <= i) by {
            assert(!terms[q].covers(i));
        }
        if exists|p: int|
            0 <= p < terms.len() && {
                let term = #[trigger] terms[p];
                &&& term.start <= i
                &&& term.end matches Some(end) ==> i < end
                &&& term.ballot == entries[i].record.ballot
                &&& term.client_id == entries[i].client_id
                &&& forall|q: int|
                    0 <= q < p ==> (#[trigger] terms[q]).start > i || (
                    terms[q].end matches Some(end) && end <= i)
            } {
            let p = choose|p: int|
                0 <= p < terms.len() && {
                    let term = #[trigger] terms[p];
                    &&& term.start <= i
                    &&& term.end matches Some(end) ==> i < end
                    &&& term.ballot == entries[i].record.ballot
                    &&& term.client_id == entries[i].client_id
                    &&& forall|q: int|
                        0 <= q < p ==> (#[trigger] terms[q]).start > i || (
                        terms[q].end matches Some(end) && end <= i)
                };
            assert(terms[p].covers(i));
            if h < p {
                assert(terms[h].covers(i));
            }
            assert(h == p);
        }
        if h < terms.len() {
            assert(terms[h].covers(i));
        }
    }
    if invariants::fencing_findings(entries, replayed).len() == 0 {
        assert forall|i: int|
            0 <= i < entries.len() && (#[trigger] entries[i]).record.op == OpKind::FencedWrite
                && entries[i].record.outcome is Applied implies {
            &&& replayed.states_before[i] matches Some(held) ==> held.ballot
                <= entries[i].record.ballot
            &&& exists|p: int|
                0 <= p < terms.len() && {
                    let term = #[trigger] terms[p];
                    &&& term.start <= i
                    &&& term.end matches Some(end) ==> i < end
                    &&& term.ballot == entries[i].record.ballot
                    &&& term.client_id == entries[i].client_id
                    &&& forall|q: int|
                        0 <= q < p ==> (#[trigger] terms[q]).start > i || (
                        terms[q].end matches Some(end) && end <= i)
                }
        } by {
            assert(invariants::landed_write(entries[i]));
            assert(verdicts::authorised(replayed, i, entries[i]));
        }
    } else {
        let i = choose|i: int|
            0 <= i < entries.len() && invariants::landed_write(#[trigger] entries[i])
                && !verdicts::authorised(replayed, i, entries[i]);
        assert(entries[i].record.op == OpKind::FencedWrite && entries[i].record.outcome
            is Applied);
    }
}

/// In a log that keeps fencing, an applied fenced write was made by the client that took
/// the term last before it, at the ballot it took, and nobody had given the term up.
pub proof fn a_landed_write_is_the_holders(
    entries: Seq<LogEntry>,
    ids: spec_fn(i32) -> Seq<char>,
    i: int,
    w: int,
)
    requires
        entries.len() <= usize::MAX,
        invariants::fencing_findings(entries, replay::replay_of(entries, ids)).len() == 0,
        0 <= i <= w < entries.len(),
        crate::replay_laws::took(entries[i]),
        forall|k: int| i < k <= w ==> !crate::replay_laws::ends_a_term(#[trigger] entries[k]),
        entries[w].record.op == OpKind::FencedWrite,
        entries[w].record.outcome is Applied,
    ensures
        entries[w].client_id == entries[i].client_id,
        entries[w].record.ballot == entries[i].record.ballot,
{
    let replayed = replay::replay_of(entries, ids);
    verdicts::fencing_passes_exactly_when_every_write_was_authorised(entries, replayed);
    assert(invariants::landed_write(entries[w]));
    assert(verdicts::authorised(replayed, w, entries[w]));
    crate::replay_laws::an_entry_lies_in_the_term_taken_last(
        entries,
        ids,
        entries.len() as int,
        i,
        w,
    );
}

/// In a log that keeps fencing, no fenced write is applied where the term was given up and
/// not taken since.
pub proof fn no_write_lands_in_a_vacancy(
    entries: Seq<LogEntry>,
    ids: spec_fn(i32) -> Seq<char>,
    from: int,
    w: int,
)
    requires
        entries.len() <= usize::MAX,
        invariants::fencing_findings(entries, replay::replay_of(entries, ids)).len() == 0,
        -1 <= from <= w < entries.len(),
        0 <= w,
        from >= 0 ==> entries[from].record.leader_record_written && entries[from].record.op
            == OpKind::Resign,
        forall|k: int| from < k <= w ==> !crate::replay_laws::took(#[trigger] entries[k]),
    ensures
        !(entries[w].record.op == OpKind::FencedWrite && entries[w].record.outcome is Applied),
{
    let replayed = replay::replay_of(entries, ids);
    verdicts::fencing_passes_exactly_when_every_write_was_authorised(entries, replayed);
    crate::replay_laws::a_term_given_up_is_held_by_nobody(
        entries,
        ids,
        entries.len() as int,
        from,
        w,
    );
    if invariants::landed_write(entries[w]) {
        assert(verdicts::authorised(replayed, w, entries[w]));
    }
}

// ---------------------------------------------------------------------------
// The paused leader
// ---------------------------------------------------------------------------

/// Whether the first thing of a kind that a client logged at a ballot after an entry was
/// refused.
pub open spec fn first_was_refused(
    entries: Seq<LogEntry>,
    index: int,
    op: OpKind,
) -> bool {
    exists|j: int|
        {
            &&& index < j < entries.len()
            &&& (#[trigger] entries[j]).client_id == entries[index].client_id
            &&& entries[j].record.ballot == entries[index].record.ballot
            &&& entries[j].record.op == op
            &&& entries[j].record.outcome is Rejected
            &&& forall|k: int|
                index < k < j ==> !((#[trigger] entries[k]).client_id == entries[index].client_id
                    && entries[k].record.ballot == entries[index].record.ballot
                    && entries[k].record.op == op)
        }
}

proof fn refused_is_refused(entries: Seq<LogEntry>, index: int, op: OpKind)
    requires
        0 <= index < entries.len(),
    ensures
        verdicts::refused_after(
            entries,
            index,
            entries[index].client_id,
            entries[index].record.ballot,
            op,
        ) <==> first_was_refused(entries, index, op),
{
    let client = entries[index].client_id;
    let ballot = entries[index].record.ballot;
    if verdicts::refused_after(entries, index, client, ballot, op) {
        let j = choose|j: int|
            {
                &&& index < j < entries.len()
                &&& invariants::acts(#[trigger] entries[j], client, ballot, op)
                &&& !(entries[j].record.outcome is Applied)
                &&& forall|k: int|
                    index < k < j ==> !invariants::acts(#[trigger] entries[k], client, ballot, op)
            };
        assert forall|k: int| index < k < j implies !((#[trigger] entries[k]).client_id == client
            && entries[k].record.ballot == ballot && entries[k].record.op == op) by {
            assert(!invariants::acts(entries[k], client, ballot, op));
        }
        assert(entries[j].client_id == client);
    }
    if first_was_refused(entries, index, op) {
        let j = choose|j: int|
            {
                &&& index < j < entries.len()
                &&& (#[trigger] entries[j]).client_id == entries[index].client_id
                &&& entries[j].record.ballot == entries[index].record.ballot
                &&& entries[j].record.op == op
                &&& entries[j].record.outcome is Rejected
                &&& forall|k: int|
                    index < k < j ==> !((
                    #[trigger] entries[k]).client_id == entries[index].client_id
                        && entries[k].record.ballot == entries[index].record.ballot
                        && entries[k].record.op == op)
            };
        assert forall|k: int| index < k < j implies !invariants::acts(
            #[trigger] entries[k],
            client,
            ballot,
            op,
        ) by {}
        assert(invariants::acts(entries[j], client, ballot, op));
    }
}

/// A paused leader was fenced exactly where, after every marker, the first fenced write and
/// the first renewal of the same client at the same ballot were there, and were rejected.
pub proof fn a_woken_sleeper_is_refused_twice(entries: Seq<LogEntry>)
    ensures
        invariants::sleeper_findings(entries).len() == 0 <==> forall|i: int|
            0 <= i < entries.len() && (#[trigger] entries[i]).record.op == OpKind::SleeperWoke
                ==> first_was_refused(entries, i, OpKind::FencedWrite) && first_was_refused(
                entries,
                i,
                OpKind::Renew,
            ),
{
    verdicts::sleeper_passes_exactly_when_both_stale_operations_were_refused(entries);
    assert forall|i: int| 0 <= i < entries.len() implies {
        &&& verdicts::refused_after(
            entries,
            i,
            (#[trigger] entries[i]).client_id,
            entries[i].record.ballot,
            OpKind::FencedWrite,
        ) <==> first_was_refused(entries, i, OpKind::FencedWrite)
        &&& verdicts::refused_after(
            entries,
            i,
            entries[i].client_id,
            entries[i].record.ballot,
            OpKind::Renew,
        ) <==> first_was_refused(entries, i, OpKind::Renew)
    } by {
        refused_is_refused(entries, i, OpKind::FencedWrite);
        refused_is_refused(entries, i, OpKind::Renew);
    }
}

// ---------------------------------------------------------------------------
// Recovery
// ---------------------------------------------------------------------------

/// Recovery duplicates nothing exactly where no client took the term twice under one token;
/// a retired attempt wrote nothing, adopted nothing and was rejected; an adoption wrote
/// nothing and succeeded; and no client took or adopted a term under a token it had
/// retired.
pub proof fn a_token_is_spent_once_and_for_good(entries: Seq<LogEntry>, replayed: ReplayView)
    ensures
        invariants::recovery_findings(entries, replayed).len() == 0 <==> {
            &&& forall|j: int, k: int|
                0 <= j < k < replayed.transitions.len() && ((
                #[trigger] replayed.transitions[j]).kind is Claim || replayed.transitions[j].kind
                    is Steal) && ((#[trigger] replayed.transitions[k]).kind is Claim
                    || replayed.transitions[k].kind is Steal) && replayed.transitions[j].client_id
                    == replayed.transitions[k].client_id ==> replayed.transitions[j].token
                    != replayed.transitions[k].token
            &&& forall|i: int|
                0 <= i < entries.len() && (#[trigger] entries[i]).record.superseded
                    ==> !entries[i].record.leader_record_written && !entries[i].record.recovery_noop
                    && entries[i].record.outcome is Rejected
            &&& forall|i: int|
                0 <= i < entries.len() && (#[trigger] entries[i]).record.recovery_noop
                    && !entries[i].record.superseded ==> !entries[i].record.leader_record_written
                    && entries[i].record.outcome is Applied
            &&& forall|j: int, i: int|
                0 <= j < i < entries.len() && (#[trigger] entries[j]).record.superseded && !(
                #[trigger] entries[i]).record.superseded && entries[j].client_id
                    == entries[i].client_id && entries[j].record.token@ == entries[i].record.token@
                    ==> !entries[i].record.recovery_noop && !((entries[i].record.op
                    == OpKind::Claim || entries[i].record.op == OpKind::Steal)
                    && entries[i].record.outcome is Applied)
        },
{
    verdicts::recovery_passes_exactly_when_every_attempt_is_spent_once(entries, replayed);
    assert(verdicts::tokens_are_spent_once(replayed.transitions) <==> forall|j: int, k: int|
        0 <= j < k < replayed.transitions.len() && ((
        #[trigger] replayed.transitions[j]).kind is Claim || replayed.transitions[j].kind is Steal)
            && ((#[trigger] replayed.transitions[k]).kind is Claim || replayed.transitions[k].kind
            is Steal) && replayed.transitions[j].client_id == replayed.transitions[k].client_id
            ==> replayed.transitions[j].token != replayed.transitions[k].token);
    assert(verdicts::retired_for_good(entries) <==> forall|j: int, i: int|
        0 <= j < i < entries.len() && (#[trigger] entries[j]).record.superseded && !(
        #[trigger] entries[i]).record.superseded && entries[j].client_id == entries[i].client_id
            && entries[j].record.token@ == entries[i].record.token@
            ==> !entries[i].record.recovery_noop && !((entries[i].record.op == OpKind::Claim
            || entries[i].record.op == OpKind::Steal) && entries[i].record.outcome is Applied)) by {
        if verdicts::retired_for_good(entries) {
            assert forall|j: int, i: int|
                0 <= j < i < entries.len() && (#[trigger] entries[j]).record.superseded && !(
                #[trigger] entries[i]).record.superseded && entries[j].client_id
                    == entries[i].client_id && entries[j].record.token@
                    == entries[i].record.token@ implies !entries[i].record.recovery_noop && !((
            entries[i].record.op == OpKind::Claim || entries[i].record.op == OpKind::Steal)
                && entries[i].record.outcome is Applied) by {
                assert(invariants::retires(
                    entries[j],
                    entries[i].client_id,
                    entries[i].record.token@,
                ));
            }
        }
    }
}

/// An unknown commit is resolved by adopting its own record, or by retiring a claim or a
/// steal; in no other way.
pub proof fn a_resolution_adopts_or_retires(record: LogRecord)
    ensures
        record.recovery_noop ==> invariants::resolves(record),
        record.superseded && (record.op == OpKind::Claim || record.op == OpKind::Steal)
            ==> invariants::resolves(record),
        !record.recovery_noop && !record.superseded ==> !invariants::resolves(record),
        !record.recovery_noop && record.op != OpKind::Claim && record.op != OpKind::Steal
            ==> !invariants::resolves(record),
{
}

// ---------------------------------------------------------------------------
// Progress
// ---------------------------------------------------------------------------

spec fn takes_at(ts: Seq<TransitionView>) -> spec_fn(int) -> bool {
    |k: int| ts[k].kind is Claim || ts[k].kind is Steal
}

spec fn renews_at(ts: Seq<TransitionView>) -> spec_fn(int) -> bool {
    |k: int| ts[k].kind is Renew
}

spec fn marks_at(entries: Seq<LogEntry>) -> spec_fn(int) -> bool {
    |k: int| entries[k].record.op is InjectedUnknown
}

spec fn resolves_at(entries: Seq<LogEntry>) -> spec_fn(int) -> bool {
    |k: int|
        entries[k].record.recovery_noop || (entries[k].record.superseded && (
        entries[k].record.op is Claim || entries[k].record.op is Steal))
}

proof fn transitions_are_counted(ts: Seq<TransitionView>, n: int)
    requires
        0 <= n <= ts.len(),
    ensures
        invariants::acquisition_count(ts, n) == places(takes_at(ts), n).len(),
        invariants::renewal_count(ts, n) == places(renews_at(ts), n).len(),
    decreases n,
{
    if n > 0 {
        transitions_are_counted(ts, n - 1);
        places_grow_by_one(takes_at(ts), n);
        places_grow_by_one(renews_at(ts), n);
    } else {
        places_are_finite(takes_at(ts), n);
        places_are_finite(renews_at(ts), n);
    }
}

proof fn entries_are_counted(entries: Seq<LogEntry>, n: int)
    requires
        0 <= n <= entries.len(),
    ensures
        invariants::marker_count(entries, n) == places(marks_at(entries), n).len(),
        invariants::resolution_count(entries, n) == places(resolves_at(entries), n).len(),
    decreases n,
{
    if n > 0 {
        entries_are_counted(entries, n - 1);
        places_grow_by_one(marks_at(entries), n);
        places_grow_by_one(resolves_at(entries), n);
    } else {
        places_are_finite(marks_at(entries), n);
        places_are_finite(resolves_at(entries), n);
    }
}

/// The identities that were sighted are those that observations read, no more and no less.
pub proof fn a_sighting_is_an_observation(
    entries: Seq<LogEntry>,
    n: int,
    identity: ObservedIdentity,
)
    requires
        0 <= n <= entries.len(),
    ensures
        invariants::sighted(entries, n).finite(),
        invariants::sighted(entries, n).contains(identity) <==> exists|i: int|
            0 <= i < n && (#[trigger] entries[i]).record.op == OpKind::Observe
                && entries[i].record.observed == Some(identity),
    decreases n,
{
    if n > 0 {
        a_sighting_is_an_observation(entries, n - 1, identity);
        let record = entries[n - 1].record;
        if record.op == OpKind::Observe && record.observed == Some(identity) {
            assert(entries[n - 1].record.op == OpKind::Observe);
        }
        if invariants::sighted(entries, n).contains(identity) && !invariants::sighted(
            entries,
            n - 1,
        ).contains(identity) {
            assert(entries[n - 1].record.op == OpKind::Observe);
        }
    }
}

/// A run made progress exactly where it took the term at as many places as demanded, saw
/// as many identities, and, if some belief lasted longer than the renewal interval, renewed
/// at as many places as demanded.
pub proof fn progress_counts_what_happened(
    entries: Seq<LogEntry>,
    replayed: ReplayView,
    thresholds: ProgressThresholds,
)
    ensures
        invariants::progress_findings(entries, replayed, thresholds).len() == 0 <==> {
            let ts = replayed.transitions;
            let interval = thresholds.renew_interval@ % 0x1_0000_0000_0000_0000;
            &&& places(
                |k: int| ts[k].kind is Claim || ts[k].kind is Steal,
                ts.len() as int,
            ).len() >= thresholds.min_acquisitions
            &&& invariants::sighted(entries, entries.len() as int).len()
                >= thresholds.min_observed_identities
            &&& (exists|i: int|
                0 <= i < replayed.beliefs.len() && over_at(#[trigger] replayed.beliefs[i])
                    > replayed.beliefs[i].begin_sim_nanos + interval) ==> places(
                |k: int| ts[k].kind is Renew,
                ts.len() as int,
            ).len() >= thresholds.min_renewals
        },
{
    verdicts::progress_passes_exactly_when_the_thresholds_are_met(entries, replayed, thresholds);
    let ts = replayed.transitions;
    transitions_are_counted(ts, ts.len() as int);
    assert(places(|k: int| ts[k].kind is Claim || ts[k].kind is Steal, ts.len() as int) =~= places(
        takes_at(ts),
        ts.len() as int,
    ));
    assert(places(|k: int| ts[k].kind is Renew, ts.len() as int) =~= places(
        renews_at(ts),
        ts.len() as int,
    ));
    let interval = thresholds.renew_interval@ % 0x1_0000_0000_0000_0000;
    let low = duration::low_bits(thresholds.renew_interval@);
    assert(low == interval);
    assert forall|i: int| 0 <= i < replayed.beliefs.len() implies (invariants::outlived(
        #[trigger] replayed.beliefs[i],
        low,
    ) <==> over_at(replayed.beliefs[i]) > replayed.beliefs[i].begin_sim_nanos + interval) by {}
    if exists|i: int|
        0 <= i < replayed.beliefs.len() && over_at(#[trigger] replayed.beliefs[i])
            > replayed.beliefs[i].begin_sim_nanos + interval {
        let i = choose|i: int|
            0 <= i < replayed.beliefs.len() && over_at(#[trigger] replayed.beliefs[i])
                > replayed.beliefs[i].begin_sim_nanos + interval;
        assert(invariants::outlived(replayed.beliefs[i], low));
    }
}

/// Recovery was exercised exactly where none was demanded, or no term was taken and no
/// reply thrown away, or replies were and at as many places as demanded an attempt was
/// adopted, or a claim or steal retired.
pub proof fn exercise_counts_what_happened(
    entries: Seq<LogEntry>,
    replayed: ReplayView,
    thresholds: ProgressThresholds,
)
    ensures
        invariants::exercise_findings(entries, replayed, thresholds).len() == 0 <==> {
            let ts = replayed.transitions;
            let thrown_away = exists|i: int|
                0 <= i < entries.len() && (#[trigger] entries[i]).record.op
                    == OpKind::InjectedUnknown;
            ||| thresholds.min_recoveries == 0
            ||| !thrown_away && forall|k: int|
                0 <= k < ts.len() ==> !((#[trigger] ts[k]).kind is Claim || ts[k].kind is Steal)
            ||| thrown_away && places(
                |k: int|
                    entries[k].record.recovery_noop || (entries[k].record.superseded && (
                    entries[k].record.op is Claim || entries[k].record.op is Steal)),
                entries.len() as int,
            ).len() >= thresholds.min_recoveries
        },
{
    let n = entries.len() as int;
    let ts = replayed.transitions;
    verdicts::exercise_passes_exactly_when_recoveries_were_resolved(entries, replayed, thresholds);
    entries_are_counted(entries, n);
    transitions_are_counted(ts, ts.len() as int);
    assert(places(
        |k: int|
            entries[k].record.recovery_noop || (entries[k].record.superseded && (
            entries[k].record.op is Claim || entries[k].record.op is Steal)),
        n,
    ) =~= places(resolves_at(entries), n));
    places_are_finite(marks_at(entries), n);
    places_are_finite(takes_at(ts), ts.len() as int);
    let marks = places(marks_at(entries), n);
    let takes = places(takes_at(ts), ts.len() as int);
    if marks.len() == 0 {
        assert forall|i: int| 0 <= i < n implies (#[trigger] entries[i]).record.op
            != OpKind::InjectedUnknown by {
            if entries[i].record.op == OpKind::InjectedUnknown {
                assert(marks.contains(i));
                assert(marks.len() > 0) by {
                    vstd::set_lib::lemma_set_empty_equivalency_len(marks);
                }
            }
        }
    } else {
        vstd::set_lib::lemma_set_empty_equivalency_len(marks);
        let i = marks.choose();
        assert(marks.contains(i));
        assert(entries[i].record.op == OpKind::InjectedUnknown);
    }
    vstd::set_lib::lemma_set_empty_equivalency_len(takes);
    if takes.len() == 0 {
        assert forall|k: int| 0 <= k < ts.len() implies !((#[trigger] ts[k]).kind is Claim
            || ts[k].kind is Steal) by {
            if ts[k].kind is Claim || ts[k].kind is Steal {
                assert(takes.contains(k));
            }
        }
    } else {
        let k = takes.choose();
        assert(takes.contains(k));
        assert(ts[k].kind is Claim || ts[k].kind is Steal);
    }
}

// ---------------------------------------------------------------------------
// History
// ---------------------------------------------------------------------------

/// Claims, steals and resigns are recorded as what they are, and renewals not at all.
pub proof fn a_transition_is_recorded_as_what_it_is(kind: TransitionKind)
    ensures
        invariants::recorded_as(kind) is None <==> kind is Renew,
        invariants::recorded_as(kind) == Some(HistoryKind::Claim) <==> kind is Claim,
        invariants::recorded_as(kind) == Some(HistoryKind::Steal) <==> kind is Steal,
        invariants::recorded_as(kind) == Some(HistoryKind::Resign) <==> kind is Resign,
{
}

/// What is recorded of the first `n` transitions is what is recorded of the first `n - 1`,
/// and the last one behind it unless it is a renewal.
pub proof fn only_renewals_go_unrecorded(transitions: Seq<TransitionView>, n: int)
    requires
        0 < n <= transitions.len(),
    ensures
        invariants::recorded(transitions, 0).len() == 0,
        invariants::recorded(transitions, n - 1).len() <= invariants::recorded(
            transitions,
            n,
        ).len(),
        forall|k: int|
            0 <= k < invariants::recorded(transitions, n - 1).len() ==> (
            #[trigger] invariants::recorded(transitions, n)[k]) == invariants::recorded(
                transitions,
                n - 1,
            )[k],
        transitions[n - 1].kind is Renew ==> invariants::recorded(transitions, n).len()
            == invariants::recorded(transitions, n - 1).len(),
        !(transitions[n - 1].kind is Renew) ==> invariants::recorded(transitions, n).len()
            == invariants::recorded(transitions, n - 1).len() + 1 && invariants::recorded(
            transitions,
            n,
        ).last() == transitions[n - 1],
{
}

/// A faithful history ends with the last transition that was no renewal: same kind, same
/// ballot, same leader.
pub proof fn a_faithful_history_ends_where_the_log_does(
    replayed: ReplayView,
    history: Seq<HistoryView>,
    k: int,
)
    requires
        invariants::history_findings(replayed, history).len() == 0,
        history.len() > 0,
        0 <= k < replayed.transitions.len(),
        !(replayed.transitions[k].kind is Renew),
        forall|m: int|
            k < m < replayed.transitions.len() ==> (#[trigger] replayed.transitions[m]).kind
                is Renew,
    ensures
        history.last().kind is Claim <==> replayed.transitions[k].kind is Claim,
        history.last().kind is Steal <==> replayed.transitions[k].kind is Steal,
        history.last().kind is Resign <==> replayed.transitions[k].kind is Resign,
        history.last().ballot == replayed.transitions[k].ballot,
        history.last().leader_id == replayed.transitions[k].leader_id,
{
    invariants::history_passes_exactly_on_a_suffix(replayed, history);
    let ts = replayed.transitions;
    the_last_recorded(ts, k, ts.len() as int);
    let expected = invariants::recorded(ts, ts.len() as int);
    let i = history.len() - 1;
    assert(history[i].ballot == expected[expected.len() - history.len() + i].ballot);
}

proof fn the_last_recorded(ts: Seq<TransitionView>, k: int, n: int)
    requires
        0 <= k < n <= ts.len(),
        !(ts[k].kind is Renew),
        forall|m: int| k < m < n ==> (#[trigger] ts[m]).kind is Renew,
    ensures
        invariants::recorded(ts, n).len() > 0,
        invariants::recorded(ts, n).last() == ts[k],
    decreases n,
{
    if k < n - 1 {
        assert(ts[n - 1].kind is Renew);
        the_last_recorded(ts, k, n - 1);
    }
}

} // verus!
