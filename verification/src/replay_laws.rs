//! What a replay has to do with the log it was made of.
//!
//! Each law ties a part of a [`replay`](crate::replay) to the entries that it names, field
//! by field.

use crate::log_schema::{LogEntry, ObservedIdentity, OpKind};
use crate::replay;
use crate::replay::{Belief, RecordView, TermView, TransitionKind, TransitionView};
use vstd::prelude::*;

verus! {

// ---------------------------------------------------------------------------
// Records and transitions
// ---------------------------------------------------------------------------

/// Whether an entry wrote the leader record: it says so, and it is an operation that can.
pub open spec fn wrote(entry: LogEntry) -> bool {
    entry.record.leader_record_written && (entry.record.op == OpKind::Claim || entry.record.op
        == OpKind::Steal || entry.record.op == OpKind::Renew || entry.record.op == OpKind::Resign)
}

/// Whether `i` is the last of the first `n` entries that wrote the leader record.
pub open spec fn last_write(entries: Seq<LogEntry>, i: int, n: int) -> bool {
    &&& 0 <= i < n
    &&& wrote(entries[i])
    &&& forall|k: int| i < k < n ==> !wrote(#[trigger] entries[k])
}

/// A record is vacant exactly where every byte of its token is zero.
pub proof fn a_vacant_record_has_no_token(record: RecordView)
    requires
        record.token.len() == 16,
    ensures
        record.vacant() <==> forall|i: int| 0 <= i < 16 ==> #[trigger] record.token[i] == 0,
        record.identity().ballot == record.ballot,
        record.identity().generation == record.generation,
        record.identity().vacant == record.vacant(),
{
    if forall|i: int| 0 <= i < 16 ==> #[trigger] record.token[i] == 0 {
        assert(record.token =~= replay::zero_token());
    }
    if record.vacant() {
        assert forall|i: int| 0 <= i < 16 implies #[trigger] record.token[i] == 0 by {
            assert(replay::zero_token()[i] == 0);
        }
    }
}

/// Before the first write there is no record.
pub proof fn no_write_leaves_no_record(
    entries: Seq<LogEntry>,
    ids: spec_fn(i32) -> Seq<char>,
    n: int,
)
    requires
        0 <= n <= entries.len(),
        forall|k: int| 0 <= k < n ==> !wrote(#[trigger] entries[k]),
    ensures
        replay::state_after(entries, ids, n) is None,
    decreases n,
{
    if n > 0 {
        assert(!wrote(entries[n - 1]));
        no_write_leaves_no_record(entries, ids, n - 1);
    }
}

/// The record is what the last write says: its ballot and its generation; its writer, its
/// token and its lease where it took or kept the term, and nobody, no token and no lease
/// where it gave the term up.
pub proof fn the_record_is_what_the_last_write_says(
    entries: Seq<LogEntry>,
    ids: spec_fn(i32) -> Seq<char>,
    i: int,
    n: int,
)
    requires
        n <= entries.len(),
        last_write(entries, i, n),
    ensures
        ({
            let record = replay::state_after(entries, ids, n)->Some_0;
            let written = entries[i].record;
            &&& replay::state_after(entries, ids, n) is Some
            &&& record.ballot == written.ballot
            &&& record.generation == written.generation
            &&& written.op == OpKind::Resign ==> record.leader_id.len() == 0 && record.lease_nanos
                == 0 && record.token.len() == 16 && forall|b: int|
                0 <= b < 16 ==> #[trigger] record.token[b] == 0
            &&& written.op != OpKind::Resign ==> record.leader_id == ids(entries[i].client_id)
                && record.lease_nanos == written.lease_nanos && record.token == written.token@
        }),
    decreases n,
{
    if i < n - 1 {
        assert(!wrote(entries[n - 1]));
        the_record_is_what_the_last_write_says(entries, ids, i, n - 1);
    }
}

/// The state that a replay keeps for an entry is the one before it, and its last state is
/// the one after the last entry.
pub proof fn a_replay_keeps_the_state_before_each_entry(
    entries: Seq<LogEntry>,
    ids: spec_fn(i32) -> Seq<char>,
    i: int,
)
    requires
        0 <= i < entries.len(),
    ensures
        ({
            let r = replay::replay_of(entries, ids);
            &&& r.states_before.len() == entries.len()
            &&& r.states_before[0] is None
            &&& !wrote(entries[i]) ==> (if i + 1 < entries.len() {
                r.states_before[i + 1]
            } else {
                r.final_state
            }) == r.states_before[i]
            &&& wrote(entries[i]) ==> (if i + 1 < entries.len() {
                r.states_before[i + 1]
            } else {
                r.final_state
            }) is Some
        }),
{
}

/// A transition says what its entry says: the operation, the client, the ballot, the
/// generation, what was read, and the token, which is all zero for a resign.
pub proof fn a_transition_says_what_its_entry_says(
    entries: Seq<LogEntry>,
    ids: spec_fn(i32) -> Seq<char>,
    n: int,
    k: int,
)
    requires
        0 <= n <= entries.len() <= usize::MAX,
        0 <= k < replay::transitions_of(entries, ids, n).len(),
    ensures
        ({
            let t = replay::transitions_of(entries, ids, n)[k];
            let entry = entries[t.index as int];
            &&& t.index < n
            &&& wrote(entry)
            &&& t.kind == TransitionKind::Claim <==> entry.record.op == OpKind::Claim
            &&& t.kind == TransitionKind::Steal <==> entry.record.op == OpKind::Steal
            &&& t.kind == TransitionKind::Renew <==> entry.record.op == OpKind::Renew
            &&& t.kind == TransitionKind::Resign <==> entry.record.op == OpKind::Resign
            &&& t.client_id == entry.client_id
            &&& t.leader_id == ids(entry.client_id)
            &&& t.ballot == entry.record.ballot
            &&& t.generation == entry.record.generation
            &&& t.observed == entry.record.observed
            &&& entry.record.op != OpKind::Resign ==> t.token == entry.record.token@
            &&& entry.record.op == OpKind::Resign ==> t.token.len() == 16 && forall|b: int|
                0 <= b < 16 ==> #[trigger] t.token[b] == 0
        }),
{
    replay::transitions_are_in_commit_order(entries, ids, n);
}

/// Every write has its transition, and only one.
pub proof fn a_write_is_one_transition(
    entries: Seq<LogEntry>,
    ids: spec_fn(i32) -> Seq<char>,
    n: int,
    i: int,
)
    requires
        0 <= i < n <= entries.len() <= usize::MAX,
        wrote(entries[i]),
    ensures
        exists|k: int|
            0 <= k < replay::transitions_of(entries, ids, n).len() && (
            #[trigger] replay::transitions_of(entries, ids, n)[k]).index == i && forall|m: int|
                0 <= m < replay::transitions_of(entries, ids, n).len() && (
                #[trigger] replay::transitions_of(entries, ids, n)[m]).index == i ==> m == k,
{
    let ts = replay::transitions_of(entries, ids, n);
    replay::every_write_is_a_transition(entries, ids, n, i);
    replay::transitions_are_in_commit_order(entries, ids, n);
    let wanted = replay::transition_at(entries[i], i, ids(entries[i].client_id));
    let k = choose|k: int| 0 <= k < ts.len() && ts[k] == wanted;
    assert(ts[k].index == i);
    assert forall|m: int| 0 <= m < ts.len() && (#[trigger] ts[m]).index == i implies m == k by {
        if m < k {
            assert(ts[m].index < ts[k].index);
        } else if k < m {
            assert(ts[k].index < ts[m].index);
        }
    }
}

/// The transition that produced an identity is the last one before the entry that wrote
/// that ballot and that generation, a resign for a vacant record and none for a held one.
pub proof fn the_producer_wrote_the_identity(
    transitions: Seq<TransitionView>,
    identity: ObservedIdentity,
    before: int,
    k: int,
)
    requires
        0 <= k < transitions.len(),
        transitions[k].index < before,
        transitions[k].ballot == identity.ballot,
        transitions[k].generation == identity.generation,
        identity.vacant <==> transitions[k].kind == TransitionKind::Resign,
        forall|m: int|
            k < m < transitions.len() ==> !((#[trigger] transitions[m]).index < before
                && transitions[m].ballot == identity.ballot && transitions[m].generation
                == identity.generation && (transitions[m].kind == TransitionKind::Resign
                <==> identity.vacant)),
    ensures
        replay::producer_position(transitions, identity, before, transitions.len() as int) == k,
{
    let n = transitions.len() as int;
    replay::the_producer_is_the_last_that_fits(transitions, identity, before, n);
    let p = replay::producer_position(transitions, identity, before, n);
    assert(replay::produces(transitions[k], identity, before));
    if p > k {
        assert(replay::produces(transitions[p], identity, before));
        assert(transitions[p].index < before);
    }
}

/// Where no transition before an entry wrote an identity, none is found.
pub proof fn no_producer_is_made_up(
    transitions: Seq<TransitionView>,
    identity: ObservedIdentity,
    before: int,
)
    requires
        forall|m: int|
            0 <= m < transitions.len() ==> !((#[trigger] transitions[m]).index < before
                && transitions[m].ballot == identity.ballot && transitions[m].generation
                == identity.generation && (transitions[m].kind == TransitionKind::Resign
                <==> identity.vacant)),
    ensures
        replay::producer_position(transitions, identity, before, transitions.len() as int) == -1,
{
    let n = transitions.len() as int;
    replay::the_producer_is_the_last_that_fits(transitions, identity, before, n);
    let p = replay::producer_position(transitions, identity, before, n);
    if p >= 0 {
        assert(replay::produces(transitions[p], identity, before));
        assert(transitions[p].index < before);
    }
}

// ---------------------------------------------------------------------------
// Terms
// ---------------------------------------------------------------------------

/// Whether an entry took the term.
pub open spec fn took(entry: LogEntry) -> bool {
    entry.record.leader_record_written && (entry.record.op == OpKind::Claim || entry.record.op
        == OpKind::Steal)
}

/// Whether an entry ends whatever term is open: it took the term, or gave it up.
pub open spec fn ends_a_term(entry: LogEntry) -> bool {
    took(entry) || (entry.record.leader_record_written && entry.record.op == OpKind::Resign)
}

spec fn term_of_the_log(
    entries: Seq<LogEntry>,
    ids: spec_fn(i32) -> Seq<char>,
    n: int,
    term: TermView,
) -> bool {
    let first = entries[term.start as int];
    let over = match term.end {
        Some(end) => end as int,
        None => n,
    };
    &&& term.start < over <= n
    &&& took(first)
    &&& term.ballot == first.record.ballot
    &&& term.client_id == first.client_id
    &&& term.leader_id == ids(first.client_id)
    &&& term.token == first.record.token@
    &&& term.lease_nanos == first.record.lease_nanos
    &&& term.end matches Some(end) ==> end < n && ends_a_term(entries[end as int])
    &&& forall|k: int| term.start < k < over ==> !ends_a_term(#[trigger] entries[k])
    &&& forall|k: int|
        term.start < k < over && (#[trigger] entries[k]).record.leader_record_written
            && entries[k].record.op == OpKind::Renew ==> term.renewals.contains(k as usize)
    &&& forall|r: int|
        0 <= r < term.renewals.len() ==> {
            let k = #[trigger] term.renewals[r] as int;
            &&& term.start < k < over
            &&& entries[k].record.leader_record_written
            &&& entries[k].record.op == OpKind::Renew
        }
}

proof fn terms_are_of_the_log(entries: Seq<LogEntry>, ids: spec_fn(i32) -> Seq<char>, n: int)
    requires
        0 <= n <= entries.len() <= usize::MAX,
    ensures
        forall|k: int|
            0 <= k < replay::terms_of(entries, ids, n).len() ==> term_of_the_log(
                entries,
                ids,
                n,
                #[trigger] replay::terms_of(entries, ids, n)[k],
            ),
        forall|k: int|
            0 <= k < replay::terms_of(entries, ids, n).len() - 1 ==> (
            #[trigger] replay::terms_of(entries, ids, n)[k]).end is Some,
    decreases n,
{
    if n > 0 {
        terms_are_of_the_log(entries, ids, n - 1);
        let before = replay::terms_of(entries, ids, n - 1);
        let after = replay::terms_of(entries, ids, n);
        let entry = entries[n - 1];
        assert forall|k: int| 0 <= k < after.len() implies term_of_the_log(
            entries,
            ids,
            n,
            #[trigger] after[k],
        ) by {
            if k < before.len() {
                let prior = before[k];
                let term = after[k];
                assert(term_of_the_log(entries, ids, n - 1, prior));
                if k < before.len() - 1 {
                    assert(prior.end is Some);
                }
                assert(term.start == prior.start);
                if term.renewals.len() > prior.renewals.len() {
                    assert(term.renewals == prior.renewals.push((n - 1) as usize));
                    assert(term.renewals[prior.renewals.len() as int] == (n - 1) as usize);
                    assert forall|m: int|
                        term.start < m < n && (#[trigger] entries[m]).record.leader_record_written
                            && entries[m].record.op == OpKind::Renew implies term.renewals.contains(
                        m as usize,
                    ) by {
                        if m < n - 1 {
                            assert(prior.renewals.contains(m as usize));
                            let r = choose|r: int|
                                0 <= r < prior.renewals.len() && prior.renewals[r] == m as usize;
                            assert(term.renewals[r] == m as usize);
                        }
                    }
                    assert forall|r: int| 0 <= r < term.renewals.len() implies {
                        let m = #[trigger] term.renewals[r] as int;
                        &&& term.start < m < n
                        &&& entries[m].record.leader_record_written
                        &&& entries[m].record.op == OpKind::Renew
                    } by {
                        if r < prior.renewals.len() {
                            assert(term.renewals[r] == prior.renewals[r]);
                        }
                    }
                } else {
                    assert(term.renewals == prior.renewals);
                    assert forall|r: int| 0 <= r < term.renewals.len() implies {
                        let m = #[trigger] term.renewals[r] as int;
                        &&& term.start < m < (match term.end {
                            Some(end) => end as int,
                            None => n,
                        })
                        &&& entries[m].record.leader_record_written
                        &&& entries[m].record.op == OpKind::Renew
                    } by {
                        assert(term.renewals[r] == prior.renewals[r]);
                    }
                }
            }
        }
        assert forall|k: int| 0 <= k < after.len() - 1 implies (#[trigger] after[k]).end is Some by {
            if k < before.len() - 1 {
                assert(before[k].end is Some);
            }
        }
    }
}

/// A term is what its entries say. It was started by a written claim or steal, whose client,
/// ballot, token and lease it has; it ended at the first written claim, steal or resign after
/// that, or is still open where there is none; and the written renewals in between, no more
/// and no less, are its own.
pub proof fn a_term_is_what_its_entries_say(
    entries: Seq<LogEntry>,
    ids: spec_fn(i32) -> Seq<char>,
    n: int,
    k: int,
)
    requires
        0 <= n <= entries.len() <= usize::MAX,
        0 <= k < replay::terms_of(entries, ids, n).len(),
    ensures
        ({
            let term = replay::terms_of(entries, ids, n)[k];
            let first = entries[term.start as int];
            let over = match term.end {
                Some(end) => end as int,
                None => n,
            };
            &&& term.start < over <= n
            &&& took(first)
            &&& term.ballot == first.record.ballot
            &&& term.client_id == first.client_id
            &&& term.leader_id == ids(first.client_id)
            &&& term.token == first.record.token@
            &&& term.lease_nanos == first.record.lease_nanos
            &&& term.end matches Some(end) ==> end < n && ends_a_term(entries[end as int])
            &&& forall|m: int| term.start < m < over ==> !ends_a_term(#[trigger] entries[m])
            &&& forall|m: int|
                term.start < m < over && (#[trigger] entries[m]).record.leader_record_written
                    && entries[m].record.op == OpKind::Renew ==> term.renewals.contains(m as usize)
            &&& forall|r: int|
                0 <= r < term.renewals.len() ==> {
                    let m = #[trigger] term.renewals[r] as int;
                    &&& term.start < m < over
                    &&& entries[m].record.leader_record_written
                    &&& entries[m].record.op == OpKind::Renew
                }
        }),
{
    terms_are_of_the_log(entries, ids, n);
    assert(term_of_the_log(entries, ids, n, replay::terms_of(entries, ids, n)[k]));
}

/// Every entry that took the term started one.
pub proof fn whoever_took_the_term_has_one(
    entries: Seq<LogEntry>,
    ids: spec_fn(i32) -> Seq<char>,
    n: int,
    i: int,
)
    requires
        0 <= i < n <= entries.len() <= usize::MAX,
        took(entries[i]),
    ensures
        exists|k: int|
            0 <= k < replay::terms_of(entries, ids, n).len() && (
            #[trigger] replay::terms_of(entries, ids, n)[k]).start == i,
    decreases n,
{
    let after = replay::terms_of(entries, ids, n);
    if i == n - 1 {
        assert(after[after.len() - 1].start == i);
    } else {
        whoever_took_the_term_has_one(entries, ids, n - 1, i);
        let before = replay::terms_of(entries, ids, n - 1);
        let k = choose|k: int| 0 <= k < before.len() && (#[trigger] before[k]).start == i;
        assert(after[k].start == before[k].start);
    }
}

/// A term covers the entries from the one that started it up to the one that ended it, and
/// not that one.
pub proof fn a_term_covers_what_lies_in_it(term: TermView, index: int)
    ensures
        term.end is None ==> (term.covers(index) <==> term.start <= index),
        term.end matches Some(end) ==> (term.covers(index) <==> term.start <= index < end),
{
}

/// An entry lies in the term that was taken last before it, as long as nobody gave it up.
pub proof fn an_entry_lies_in_the_term_taken_last(
    entries: Seq<LogEntry>,
    ids: spec_fn(i32) -> Seq<char>,
    n: int,
    i: int,
    index: int,
)
    requires
        0 <= i <= index < n <= entries.len() <= usize::MAX,
        took(entries[i]),
        forall|k: int| i < k <= index ==> !ends_a_term(#[trigger] entries[k]),
    ensures
        ({
            let terms = replay::terms_of(entries, ids, n);
            let p = replay::covering_position(terms, index, 0);
            &&& 0 <= p < terms.len()
            &&& terms[p].start == i
            &&& terms[p].client_id == entries[i].client_id
            &&& terms[p].ballot == entries[i].record.ballot
        }),
{
    let terms = replay::terms_of(entries, ids, n);
    whoever_took_the_term_has_one(entries, ids, n, i);
    let k = choose|k: int| 0 <= k < terms.len() && (#[trigger] terms[k]).start == i;
    a_term_is_what_its_entries_say(entries, ids, n, k);
    if terms[k].end is Some {
        assert(ends_a_term(entries[terms[k].end->Some_0 as int]));
    }
    assert(terms[k].covers(index));
    replay::the_covering_term_is_the_first(terms, index, 0);
    let p = replay::covering_position(terms, index, 0);
    if p < terms.len() {
        replay::at_most_one_term_covers(entries, ids, n, k, p, index);
    }
}

/// Nobody holds the term where it was given up and not taken since, nor before anybody
/// took it.
pub proof fn a_term_given_up_is_held_by_nobody(
    entries: Seq<LogEntry>,
    ids: spec_fn(i32) -> Seq<char>,
    n: int,
    from: int,
    index: int,
)
    requires
        -1 <= from <= index < n <= entries.len() <= usize::MAX,
        from >= 0 ==> entries[from].record.leader_record_written && entries[from].record.op
            == OpKind::Resign,
        forall|k: int| from < k <= index ==> !took(#[trigger] entries[k]),
    ensures
        replay::covering_position(replay::terms_of(entries, ids, n), index, 0)
            == replay::terms_of(entries, ids, n).len(),
{
    let terms = replay::terms_of(entries, ids, n);
    replay::the_covering_term_is_the_first(terms, index, 0);
    let p = replay::covering_position(terms, index, 0);
    if p < terms.len() {
        a_term_is_what_its_entries_say(entries, ids, n, p);
        let start = terms[p].start as int;
        assert(took(entries[start]));
        assert(start <= from);
        assert(start < from);
        assert(ends_a_term(entries[from]));
    }
}

// ---------------------------------------------------------------------------
// Beliefs
// ---------------------------------------------------------------------------

/// Whether an entry is of a client at a ballot.
pub open spec fn is_of(entry: LogEntry, client_id: i32, ballot: u64) -> bool {
    entry.client_id == client_id && entry.record.ballot == ballot
}

spec fn belief_of_the_log(entries: Seq<LogEntry>, n: int, b: Belief) -> bool {
    let first = entries[b.begin_index as int];
    let over = match b.end_index {
        Some(end) => end as int,
        None => n,
    };
    &&& b.begin_index < over <= n
    &&& first.record.op == OpKind::BeliefBegin
    &&& is_of(first, b.client_id, b.ballot)
    &&& b.begin_sim_nanos == first.record.sim_nanos
    &&& b.begin_local_nanos == first.record.local_nanos
    &&& b.end_index is None ==> b.end_sim_nanos is None
    &&& b.end_index matches Some(end) ==> {
        &&& end < n
        &&& entries[end as int].record.op == OpKind::BeliefEnd
        &&& is_of(entries[end as int], b.client_id, b.ballot)
        &&& b.end_sim_nanos == Some(entries[end as int].record.sim_nanos)
    }
    &&& forall|k: int|
        b.begin_index < k < over && is_of(#[trigger] entries[k], b.client_id, b.ballot)
            ==> entries[k].record.op != OpKind::BeliefEnd
    &&& forall|k: int|
        b.begin_index <= k < over && is_of(#[trigger] entries[k], b.client_id, b.ballot)
            && entries[k].record.op == OpKind::BeliefBegin ==> entries[k].record.horizon_nanos
            <= b.horizon_nanos
    &&& exists|k: int|
        b.begin_index <= k < over && is_of(#[trigger] entries[k], b.client_id, b.ballot)
            && entries[k].record.op == OpKind::BeliefBegin && entries[k].record.horizon_nanos
            == b.horizon_nanos
}

proof fn beliefs_are_of_the_log(entries: Seq<LogEntry>, n: int)
    requires
        0 <= n <= entries.len() <= usize::MAX,
    ensures
        forall|k: int|
            0 <= k < replay::beliefs_of(entries, n).len() ==> belief_of_the_log(
                entries,
                n,
                #[trigger] replay::beliefs_of(entries, n)[k],
            ),
    decreases n,
{
    if n > 0 {
        beliefs_are_of_the_log(entries, n - 1);
        replay::a_belief_is_open_once(entries, n - 1);
        let before = replay::beliefs_of(entries, n - 1);
        let after = replay::beliefs_of(entries, n);
        let entry = entries[n - 1];
        the_open_one_is_found(before, entry.client_id, entry.record.ballot, before.len() as int);
        let p = replay::open_position(
            before,
            entry.client_id,
            entry.record.ballot,
            before.len() as int,
        );
        assert forall|k: int| 0 <= k < after.len() implies belief_of_the_log(
            entries,
            n,
            #[trigger] after[k],
        ) by {
            let b = after[k];
            if k < before.len() {
                let prior = before[k];
                assert(belief_of_the_log(entries, n - 1, prior));
                let was = match prior.end_index {
                    Some(end) => end as int,
                    None => n - 1,
                };
                let w = choose|w: int|
                    prior.begin_index <= w < was && is_of(
                        #[trigger] entries[w],
                        prior.client_id,
                        prior.ballot,
                    ) && entries[w].record.op == OpKind::BeliefBegin
                        && entries[w].record.horizon_nanos == prior.horizon_nanos;
                assert(is_of(entries[w], b.client_id, b.ballot));
                if prior.end_index is None && is_of(entry, prior.client_id, prior.ballot) {
                    if p >= 0 && p != k {
                        if p < k {
                            assert(!(before[p].end_index is None && before[k].end_index is None
                                && before[p].client_id == before[k].client_id && before[p].ballot
                                == before[k].ballot));
                        } else {
                            assert(!(before[k].end_index is None && before[p].end_index is None
                                && before[k].client_id == before[p].client_id && before[k].ballot
                                == before[p].ballot));
                        }
                    }
                    assert(p == k);
                    assert(is_of(entries[n - 1], b.client_id, b.ballot));
                }
                assert(belief_of_the_log(entries, n, b));
            } else {
                assert(is_of(entries[n - 1], b.client_id, b.ballot));
            }
        }
    }
}

proof fn the_open_one_is_found(beliefs: Seq<Belief>, client_id: i32, ballot: u64, n: int)
    requires
        0 <= n <= beliefs.len(),
    ensures
        ({
            let p = replay::open_position(beliefs, client_id, ballot, n);
            &&& -1 <= p < n
            &&& p >= 0 ==> beliefs[p].client_id == client_id && beliefs[p].ballot == ballot
                && beliefs[p].end_index is None
            &&& forall|k: int|
                p < k < n ==> !((#[trigger] beliefs[k]).client_id == client_id
                    && beliefs[k].ballot == ballot && beliefs[k].end_index is None)
        }),
    decreases n,
{
    if n > 0 {
        the_open_one_is_found(beliefs, client_id, ballot, n - 1);
    }
}

/// A belief is what its entries say. It began at an entry of its own client and ballot, at
/// that entry's simulated time and on that entry's local clock. It ended at the first end
/// of the same client and ballot after that, at the simulated time of that entry, or is
/// still open where there is none. Its horizon is the largest that a begin of the same
/// client and ballot reported meanwhile.
pub proof fn a_belief_is_what_its_entries_say(entries: Seq<LogEntry>, n: int, k: int)
    requires
        0 <= n <= entries.len() <= usize::MAX,
        0 <= k < replay::beliefs_of(entries, n).len(),
    ensures
        ({
            let b = replay::beliefs_of(entries, n)[k];
            let first = entries[b.begin_index as int];
            let over = match b.end_index {
                Some(end) => end as int,
                None => n,
            };
            &&& b.begin_index < over <= n
            &&& first.record.op == OpKind::BeliefBegin
            &&& first.client_id == b.client_id
            &&& first.record.ballot == b.ballot
            &&& b.begin_sim_nanos == first.record.sim_nanos
            &&& b.begin_local_nanos == first.record.local_nanos
            &&& b.end_index is None ==> b.end_sim_nanos is None
            &&& b.end_index matches Some(end) ==> {
                &&& end < n
                &&& entries[end as int].record.op == OpKind::BeliefEnd
                &&& entries[end as int].client_id == b.client_id
                &&& entries[end as int].record.ballot == b.ballot
                &&& b.end_sim_nanos == Some(entries[end as int].record.sim_nanos)
            }
            &&& forall|m: int|
                b.begin_index < m < over && is_of(#[trigger] entries[m], b.client_id, b.ballot)
                    ==> entries[m].record.op != OpKind::BeliefEnd
            &&& forall|m: int|
                b.begin_index <= m < over && is_of(#[trigger] entries[m], b.client_id, b.ballot)
                    && entries[m].record.op == OpKind::BeliefBegin
                    ==> entries[m].record.horizon_nanos <= b.horizon_nanos
            &&& exists|m: int|
                b.begin_index <= m < over && is_of(#[trigger] entries[m], b.client_id, b.ballot)
                    && entries[m].record.op == OpKind::BeliefBegin
                    && entries[m].record.horizon_nanos == b.horizon_nanos
        }),
{
    beliefs_are_of_the_log(entries, n);
    assert(belief_of_the_log(entries, n, replay::beliefs_of(entries, n)[k]));
}

/// Beliefs come in the order in which they began.
pub proof fn beliefs_come_in_the_order_they_began(entries: Seq<LogEntry>, n: int)
    requires
        0 <= n <= entries.len() <= usize::MAX,
    ensures
        forall|j: int, k: int|
            0 <= j < k < replay::beliefs_of(entries, n).len() ==> (#[trigger] replay::beliefs_of(
                entries,
                n,
            )[j]).begin_index < (#[trigger] replay::beliefs_of(entries, n)[k]).begin_index < n,
        forall|j: int|
            0 <= j < replay::beliefs_of(entries, n).len() ==> (#[trigger] replay::beliefs_of(
                entries,
                n,
            )[j]).begin_index < n,
    decreases n,
{
    if n > 0 {
        beliefs_come_in_the_order_they_began(entries, n - 1);
        let before = replay::beliefs_of(entries, n - 1);
        let after = replay::beliefs_of(entries, n);
        let entry = entries[n - 1];
        the_open_one_is_found(before, entry.client_id, entry.record.ballot, before.len() as int);
        assert forall|j: int| 0 <= j < after.len() implies (#[trigger] after[j]).begin_index < n by {
            if j < before.len() {
                assert(after[j].begin_index == before[j].begin_index);
            }
        }
        assert forall|j: int, k: int| 0 <= j < k < after.len() implies (
        #[trigger] after[j]).begin_index < (#[trigger] after[k]).begin_index < n by {
            assert(after[j].begin_index == before[j].begin_index);
            if k < before.len() {
                assert(after[k].begin_index == before[k].begin_index);
            }
        }
    }
}

/// No begin is lost: every one lies in a belief of its client at its ballot, which began
/// there or earlier and had not ended before.
pub proof fn every_begin_lies_in_a_belief(entries: Seq<LogEntry>, n: int, i: int)
    requires
        0 <= i < n <= entries.len() <= usize::MAX,
        entries[i].record.op == OpKind::BeliefBegin,
    ensures
        exists|k: int|
            0 <= k < replay::beliefs_of(entries, n).len() && {
                let b = #[trigger] replay::beliefs_of(entries, n)[k];
                &&& b.client_id == entries[i].client_id
                &&& b.ballot == entries[i].record.ballot
                &&& b.begin_index <= i
                &&& b.end_index matches Some(end) ==> i < end
            },
    decreases n,
{
    let before = replay::beliefs_of(entries, n - 1);
    let after = replay::beliefs_of(entries, n);
    let entry = entries[n - 1];
    the_open_one_is_found(before, entry.client_id, entry.record.ballot, before.len() as int);
    replay::a_belief_is_open_once(entries, n - 1);
    let p = replay::open_position(
        before,
        entry.client_id,
        entry.record.ballot,
        before.len() as int,
    );
    if i == n - 1 {
        if p >= 0 {
            assert(before[p].begin_index < n - 1);
            assert(after[p].client_id == entries[i].client_id);
        } else {
            assert(after[before.len() as int].client_id == entries[i].client_id);
        }
    } else {
        every_begin_lies_in_a_belief(entries, n - 1, i);
        let k = choose|k: int|
            0 <= k < before.len() && {
                let b = #[trigger] before[k];
                &&& b.client_id == entries[i].client_id
                &&& b.ballot == entries[i].record.ballot
                &&& b.begin_index <= i
                &&& b.end_index matches Some(end) ==> i < end
            };
        assert(after[k].client_id == before[k].client_id);
        assert(after[k].begin_index == before[k].begin_index);
    }
}

/// An end closes the belief of its client at its ballot, if one is open.
pub proof fn an_end_closes_the_open_belief(entries: Seq<LogEntry>, i: int, k: int)
    requires
        0 <= i < entries.len() <= usize::MAX,
        entries[i].record.op == OpKind::BeliefEnd,
        0 <= k < replay::beliefs_of(entries, i).len(),
        replay::beliefs_of(entries, i)[k].client_id == entries[i].client_id,
        replay::beliefs_of(entries, i)[k].ballot == entries[i].record.ballot,
        replay::beliefs_of(entries, i)[k].end_index is None,
    ensures
        replay::beliefs_of(entries, i + 1).len() == replay::beliefs_of(entries, i).len(),
        replay::beliefs_of(entries, i + 1)[k].end_index == Some(i as usize),
        replay::beliefs_of(entries, i + 1)[k].end_sim_nanos == Some(entries[i].record.sim_nanos),
{
    let before = replay::beliefs_of(entries, i);
    replay::a_belief_is_open_once(entries, i);
    the_open_one_is_found(
        before,
        entries[i].client_id,
        entries[i].record.ballot,
        before.len() as int,
    );
    let p = replay::open_position(
        before,
        entries[i].client_id,
        entries[i].record.ballot,
        before.len() as int,
    );
    if p != k {
        assert(k < p);
        assert(!(before[k].end_index is None && before[p].end_index is None && before[k].client_id
            == before[p].client_id && before[k].ballot == before[p].ballot));
    }
}

/// A belief is over when its client said so; where it never did, as long after it began as
/// its horizon lay ahead on the client's own clock, and at once where it did not lie ahead.
pub proof fn a_belief_is_over_at_its_end_or_its_horizon(b: Belief)
    ensures
        b.end_sim_nanos matches Some(end) ==> replay::effective_end(b) == end,
        b.end_sim_nanos is None && b.horizon_nanos <= b.begin_local_nanos
            ==> replay::effective_end(b) == b.begin_sim_nanos,
        b.end_sim_nanos is None && b.horizon_nanos >= b.begin_local_nanos && b.begin_sim_nanos + (
        b.horizon_nanos - b.begin_local_nanos) <= u64::MAX ==> replay::effective_end(b)
            == b.begin_sim_nanos + (b.horizon_nanos - b.begin_local_nanos),
        b.end_sim_nanos is None && b.horizon_nanos >= b.begin_local_nanos && b.begin_sim_nanos + (
        b.horizon_nanos - b.begin_local_nanos) > u64::MAX ==> replay::effective_end(b) == u64::MAX,
{
}

// ---------------------------------------------------------------------------
// Anomalies
// ---------------------------------------------------------------------------

/// Whether an entry makes sense on its own terms: what it wrote it could write and was
/// allowed to, and what it ended had begun.
pub open spec fn makes_sense(entries: Seq<LogEntry>, i: int) -> bool {
    let record = entries[i].record;
    &&& record.leader_record_written ==> wrote(entries[i]) && record.outcome is Applied
        && !record.recovery_noop
    &&& record.op == OpKind::BeliefEnd ==> exists|k: int|
        0 <= k < replay::beliefs_of(entries, i).len() && {
            let b = #[trigger] replay::beliefs_of(entries, i)[k];
            &&& b.client_id == entries[i].client_id
            &&& b.ballot == record.ballot
            &&& b.end_index is None
        }
}

proof fn sense_leaves_no_anomaly(entries: Seq<LogEntry>, i: int)
    requires
        0 <= i < entries.len(),
    ensures
        makes_sense(entries, i) <==> replay::anomalies_at(
            replay::beliefs_of(entries, i),
            entries[i],
            i,
        ).len() == 0,
{
    let before = replay::beliefs_of(entries, i);
    the_open_one_is_found(
        before,
        entries[i].client_id,
        entries[i].record.ballot,
        before.len() as int,
    );
}

/// A replay has anomalies exactly where some entry does not make sense on its own terms.
pub proof fn anomalies_are_entries_that_make_no_sense(entries: Seq<LogEntry>, n: int)
    requires
        0 <= n <= entries.len(),
    ensures
        replay::anomalies_of(entries, n).len() == 0 <==> forall|i: int|
            0 <= i < n ==> #[trigger] makes_sense(entries, i),
    decreases n,
{
    if n > 0 {
        anomalies_are_entries_that_make_no_sense(entries, n - 1);
        sense_leaves_no_anomaly(entries, n - 1);
    }
}

/// Every anomaly names the entry that makes no sense.
pub proof fn an_anomaly_names_its_entry(entries: Seq<LogEntry>, n: int, k: int)
    requires
        0 <= n <= entries.len() <= usize::MAX,
        0 <= k < replay::anomalies_of(entries, n).len(),
    ensures
        replay::anomalies_of(entries, n)[k].index < n,
        !makes_sense(entries, replay::anomalies_of(entries, n)[k].index as int),
    decreases n,
{
    if n > 0 {
        let earlier = replay::anomalies_of(entries, n - 1);
        sense_leaves_no_anomaly(entries, n - 1);
        if k < earlier.len() {
            an_anomaly_names_its_entry(entries, n - 1, k);
        } else {
            assert(replay::anomalies_of(entries, n)[k] == replay::anomalies_at(
                replay::beliefs_of(entries, n - 1),
                entries[n - 1],
                n - 1,
            )[k - earlier.len()]);
        }
    }
}

} // verus!
