//! What it means that an elector's election passes each invariant, in plain ballots, names
//! and instants.

use crate::elector_invariants;
use crate::elector_invariants::{
    ElectorThresholds, EventView, MergedView, SnapshotView, StampedView,
};
use crate::invariants::HistoryKind;
use crate::judgement_laws;
use crate::log_schema::{LogEntry, OpKind};
use crate::report;
use crate::stamps;
use vstd::prelude::*;

verus! {

// ---------------------------------------------------------------------------
// Terms
// ---------------------------------------------------------------------------

/// Whether a transition is what the one before it calls for: a claim or a steal takes the
/// next ballot, which no claim or steal before took; a resignation keeps the ballot, and
/// does not follow another.
pub open spec fn follows_properly(history: Seq<StampedView>, i: int) -> bool {
    match history[i].kind {
        HistoryKind::Resign => i > 0 ==> history[i].ballot == history[i - 1].ballot && history[i
            - 1].kind != HistoryKind::Resign,
        _ => {
            &&& i > 0 ==> history[i].ballot == history[i - 1].ballot + 1
            &&& forall|k: int|
                0 <= k < i && (#[trigger] history[k]).kind != HistoryKind::Resign
                    ==> history[k].ballot != history[i].ballot
        },
    }
}

proof fn a_ballot_is_found_where_it_was_taken(history: Seq<StampedView>, ballot: u64, n: int)
    requires
        0 <= n <= history.len(),
    ensures
        ({
            let p = elector_invariants::first_taken(history, ballot, n);
            &&& -1 <= p < n
            &&& p >= 0 ==> history[p].kind != HistoryKind::Resign && history[p].ballot == ballot
            &&& p >= 0 ==> forall|k: int|
                0 <= k < p && (#[trigger] history[k]).kind != HistoryKind::Resign
                    ==> history[k].ballot != ballot
            &&& p < 0 ==> forall|k: int|
                0 <= k < n && (#[trigger] history[k]).kind != HistoryKind::Resign
                    ==> history[k].ballot != ballot
        }),
    decreases n,
{
    if n > 0 {
        a_ballot_is_found_where_it_was_taken(history, ballot, n - 1);
    }
}

/// The history of an election passes exactly when every transition is what the one before
/// it calls for.
pub proof fn terms_pass_when_every_transition_follows(history: Seq<StampedView>)
    ensures
        elector_invariants::terms_findings(history).len() == 0 <==> forall|i: int|
            0 <= i < history.len() ==> #[trigger] follows_properly(history, i),
{
    let rule = elector_invariants::trail_rule(history);
    report::nothing_gathered(history, history.len() as int, rule);
    assert forall|i: int| 0 <= i < history.len() implies ((#[trigger] rule(i, history[i])).len()
        == 0 <==> follows_properly(history, i)) by {
        a_ballot_is_found_where_it_was_taken(history, history[i].ballot, i);
    }
    if elector_invariants::terms_findings(history).len() == 0 {
        assert forall|i: int| 0 <= i < history.len() implies #[trigger] follows_properly(
            history,
            i,
        ) by {
            assert(rule(i, history[i]).len() == 0);
        }
    }
    if forall|i: int| 0 <= i < history.len() ==> #[trigger] follows_properly(history, i) {
        assert forall|i: int| 0 <= i < history.len() implies (#[trigger] rule(
            i,
            history[i],
        )).len() == 0 by {
            assert(follows_properly(history, i));
        }
    }
}

/// In a history that passes ballots never go down, and two acquisitions never share one.
pub proof fn ballots_only_rise(history: Seq<StampedView>, i: int, j: int)
    requires
        elector_invariants::terms_findings(history).len() == 0,
        0 <= i < j < history.len(),
    ensures
        history[i].ballot <= history[j].ballot,
        history[j].kind != HistoryKind::Resign ==> history[i].ballot < history[j].ballot,
    decreases j,
{
    terms_pass_when_every_transition_follows(history);
    assert(follows_properly(history, j));
    if i < j - 1 {
        ballots_only_rise(history, i, j - 1);
    }
}

// ---------------------------------------------------------------------------
// Fencing
// ---------------------------------------------------------------------------

/// Whether the transition at `t` is the last one before `n`.
pub open spec fn stands_at(merged: Seq<MergedView>, t: int, n: int) -> bool {
    &&& 0 <= t < n
    &&& merged[t].event is Transition
    &&& forall|k: int| t < k < n ==> !((#[trigger] merged[k]).event is Transition)
}

/// Whether a write that landed lies in a term that its client holds at its ballot: the last
/// transition before it, if there was one, took that ballot for that client.
pub open spec fn lands_properly(
    merged: Seq<MergedView>,
    ids: spec_fn(i32) -> Seq<char>,
    i: int,
) -> bool {
    merged[i].event matches EventView::FencedWrite { client_id, ballot, applied } ==> applied
        ==> forall|t: int| #[trigger]
        stands_at(merged, t, i) ==> (merged[t].event matches EventView::Transition {
            kind,
            ballot: held,
            leader_id,
        } && kind != HistoryKind::Resign && held == ballot && leader_id == ids(client_id))
}

proof fn the_last_transition_stands(merged: Seq<MergedView>, n: int)
    requires
        0 <= n <= merged.len(),
    ensures
        match elector_invariants::last_transition(merged, n) {
            Some(event) => exists|t: int| #[trigger]
                stands_at(merged, t, n) && merged[t].event == event,
            None => forall|k: int| 0 <= k < n ==> !((#[trigger] merged[k]).event is Transition),
        },
    decreases n,
{
    if n > 0 {
        if merged[n - 1].event is Transition {
            assert(stands_at(merged, n - 1, n));
        } else {
            the_last_transition_stands(merged, n - 1);
            if let Some(event) = elector_invariants::last_transition(merged, n - 1) {
                let t = choose|t: int| #[trigger]
                    stands_at(merged, t, n - 1) && merged[t].event == event;
                assert(stands_at(merged, t, n));
            }
        }
    }
}

/// The elector's fencing holds exactly when every write that landed behind a transition
/// lies in a term that its own client holds at its own ballot.
pub proof fn fencing_holds_when_every_write_lands_in_its_holders_term(
    merged: Seq<MergedView>,
    ids: spec_fn(i32) -> Seq<char>,
)
    ensures
        elector_invariants::elector_fencing_findings(merged, ids).len() == 0 <==> forall|i: int|
            0 <= i < merged.len() ==> #[trigger] lands_properly(merged, ids, i),
{
    let rule = elector_invariants::landing_rule(merged, ids);
    report::nothing_gathered(merged, merged.len() as int, rule);
    assert forall|i: int| 0 <= i < merged.len() implies ((#[trigger] rule(i, merged[i])).len() == 0
        <==> lands_properly(merged, ids, i)) by {
        the_last_transition_stands(merged, i);
        if let Some(event) = elector_invariants::last_transition(merged, i) {
            let t = choose|t: int| #[trigger] stands_at(merged, t, i) && merged[t].event == event;
            assert forall|u: int| #[trigger] stands_at(merged, u, i) implies u == t by {
                if u < t {
                    assert(!(merged[t].event is Transition));
                } else if t < u {
                    assert(!(merged[u].event is Transition));
                }
            }
        } else {
            assert forall|u: int| !(#[trigger] stands_at(merged, u, i)) by {
                if 0 <= u < i {
                    assert(!(merged[u].event is Transition));
                }
            }
        }
    }
    if elector_invariants::elector_fencing_findings(merged, ids).len() == 0 {
        assert forall|i: int| 0 <= i < merged.len() implies #[trigger] lands_properly(
            merged,
            ids,
            i,
        ) by {
            assert(rule(i, merged[i]).len() == 0);
        }
    }
    if forall|i: int| 0 <= i < merged.len() ==> #[trigger] lands_properly(merged, ids, i) {
        assert forall|i: int| 0 <= i < merged.len() implies (#[trigger] rule(i, merged[i])).len()
            == 0 by {
            assert(lands_properly(merged, ids, i));
        }
    }
}

// ---------------------------------------------------------------------------
// The window
// ---------------------------------------------------------------------------

/// Whether the transition at `t` is the first of all.
pub open spec fn opens_the_window(merged: Seq<MergedView>, t: int) -> bool {
    &&& 0 <= t < merged.len()
    &&& merged[t].event is Transition
    &&& forall|k: int| 0 <= k < t ==> !((#[trigger] merged[k]).event is Transition)
}

proof fn the_first_transition_opens_the_window(merged: Seq<MergedView>, from: int)
    requires
        0 <= from <= merged.len(),
        forall|k: int| 0 <= k < from ==> !((#[trigger] merged[k]).event is Transition),
    ensures
        match elector_invariants::first_transition(merged, from) {
            Some(event) => exists|t: int| #[trigger]
                opens_the_window(merged, t) && merged[t].event == event,
            None => forall|k: int|
                0 <= k < merged.len() ==> !((#[trigger] merged[k]).event is Transition),
        },
    decreases merged.len() - from,
{
    if from < merged.len() {
        if merged[from].event is Transition {
            assert(opens_the_window(merged, from));
        } else {
            the_first_transition_opens_the_window(merged, from + 1);
        }
    }
}

/// Beliefs are judged from the ballot of the first transition on, or, where that one gave
/// its term up, from the next ballot on; without a transition none is.
pub proof fn the_first_transition_says_from_where_to_judge(merged: Seq<MergedView>, t: int)
    requires
        opens_the_window(merged, t),
    ensures
        merged[t].event matches EventView::Transition { kind, ballot, .. } && {
            &&& kind != HistoryKind::Resign ==> elector_invariants::judgeable_from(merged) == Some(
                ballot,
            )
            &&& kind == HistoryKind::Resign && ballot < u64::MAX
                ==> elector_invariants::judgeable_from(merged) == Some((ballot + 1) as u64)
            &&& kind == HistoryKind::Resign && ballot == u64::MAX
                ==> elector_invariants::judgeable_from(merged) == Some(u64::MAX)
        },
{
    the_first_transition_opens_the_window(merged, 0);
    if let Some(event) = elector_invariants::first_transition(merged, 0) {
        let u = choose|u: int| #[trigger] opens_the_window(merged, u) && merged[u].event == event;
        if u < t {
            assert(!(merged[u].event is Transition));
        } else if t < u {
            assert(!(merged[t].event is Transition));
        }
    }
}

/// Without a transition no ballot is judged.
pub proof fn nothing_is_judged_without_a_transition(merged: Seq<MergedView>)
    requires
        forall|k: int| 0 <= k < merged.len() ==> !((#[trigger] merged[k]).event is Transition),
    ensures
        elector_invariants::judgeable_from(merged) is None,
{
    the_first_transition_opens_the_window(merged, 0);
}

/// Whether an event is a write that landed.
pub open spec fn is_landed(event: EventView) -> bool {
    event matches EventView::FencedWrite { applied, .. } && applied
}

/// Whether a write landed at `k` and no transition lies in `from..k`.
pub open spec fn lands_unseen(merged: Seq<MergedView>, from: int) -> spec_fn(int) -> bool {
    |k: int|
        from <= k && is_landed(merged[k].event) && forall|t: int|
            from <= t < k ==> !((#[trigger] merged[t]).event is Transition)
}

/// The writes outside the window are those that landed with no transition before them.
pub proof fn writes_outside_the_window_have_no_transition_before_them(
    merged: Seq<MergedView>,
    from: int,
)
    requires
        0 <= from <= merged.len(),
    ensures
        elector_invariants::writes_before_a_transition(merged, from) == judgement_laws::places(
            lands_unseen(merged, from),
            merged.len() as int,
        ).len(),
    decreases merged.len() - from,
{
    let here = lands_unseen(merged, from);
    let n = merged.len() as int;
    judgement_laws::places_are_finite(here, n);
    if from >= n {
        assert(judgement_laws::places(here, n) =~= Set::empty());
    } else if merged[from].event is Transition {
        assert forall|k: int| !(#[trigger] judgement_laws::places(here, n).contains(k)) by {
            if from <= k < n && k != from {
                assert(merged[from].event is Transition);
            }
        }
        assert(judgement_laws::places(here, n) =~= Set::empty());
    } else {
        writes_outside_the_window_have_no_transition_before_them(merged, from + 1);
        let next = lands_unseen(merged, from + 1);
        judgement_laws::places_are_finite(next, n);
        let a = judgement_laws::places(here, n);
        let b = judgement_laws::places(next, n);
        assert forall|k: int| #[trigger] b.contains(k) implies a.contains(k) by {
            assert forall|t: int| from <= t < k implies !((
            #[trigger] merged[t]).event is Transition) by {}
        }
        assert forall|k: int| k != from && #[trigger] a.contains(k) implies b.contains(k) by {
            assert forall|t: int| from + 1 <= t < k implies !((
            #[trigger] merged[t]).event is Transition) by {}
        }
        assert(!b.contains(from));
        if is_landed(merged[from].event) {
            assert(here(from));
            assert(a =~= b.insert(from));
        } else {
            assert(!a.contains(from));
            assert(a =~= b);
        }
    }
}

// ---------------------------------------------------------------------------
// Honesty
// ---------------------------------------------------------------------------

/// Whether an event begins a belief of a client at a ballot.
pub open spec fn begins(event: EventView, client: i32, at: u64) -> bool {
    event matches EventView::BeliefBegin { client_id, ballot, .. } && client_id == client && ballot
        == at
}

/// Whether an event ends a belief of a client at a ballot.
pub open spec fn ends(event: EventView, client: i32, at: u64) -> bool {
    event matches EventView::BeliefEnd { client_id, ballot, .. } && client_id == client && ballot
        == at
}

/// Whether the belief begun at `b` is still open before `n`: the client has not ended one at
/// that ballot since.
pub open spec fn open_since(merged: Seq<MergedView>, client: i32, ballot: u64, b: int, n: int) -> bool {
    &&& 0 <= b < n
    &&& begins(merged[b].event, client, ballot)
    &&& forall|k: int| b < k < n ==> !ends((#[trigger] merged[k]).event, client, ballot)
}

proof fn the_open_horizon_is_the_furthest(
    merged: Seq<MergedView>,
    client: i32,
    ballot: u64,
    n: int,
)
    requires
        0 <= n <= merged.len(),
    ensures
        match elector_invariants::open_horizon(merged, client, ballot, n) {
            Some(horizon) => {
                &&& exists|b: int| #[trigger]
                    open_since(merged, client, ballot, b, n)
                        && merged[b].event->BeliefBegin_horizon_nanos == horizon
                &&& forall|b: int| #[trigger]
                    open_since(merged, client, ballot, b, n)
                        ==> merged[b].event->BeliefBegin_horizon_nanos <= horizon
            },
            None => forall|b: int| !(#[trigger] open_since(merged, client, ballot, b, n)),
        },
    decreases n,
{
    if n > 0 {
        the_open_horizon_is_the_furthest(merged, client, ballot, n - 1);
        let event = merged[n - 1].event;
        if ends(event, client, ballot) {
            assert forall|b: int| !(#[trigger] open_since(merged, client, ballot, b, n)) by {
                if 0 <= b < n - 1 {
                    assert(ends(merged[n - 1].event, client, ballot));
                }
            }
        } else {
            assert forall|b: int| 0 <= b < n - 1 implies (#[trigger] open_since(
                merged,
                client,
                ballot,
                b,
                n,
            ) <==> open_since(merged, client, ballot, b, n - 1)) by {}
            assert(open_since(merged, client, ballot, n - 1, n) <==> begins(event, client, ballot));
            if let Some(horizon) = elector_invariants::open_horizon(merged, client, ballot, n - 1) {
                let b = choose|b: int| #[trigger]
                    open_since(merged, client, ballot, b, n - 1)
                        && merged[b].event->BeliefBegin_horizon_nanos == horizon;
                assert(open_since(merged, client, ballot, b, n));
            }
            assert forall|b: int| #[trigger] open_since(merged, client, ballot, b, n) implies b == n
                - 1 || open_since(merged, client, ballot, b, n - 1) by {}
        }
    }
}

/// Whether some claim or steal before `n` took a ballot for a holder.
pub open spec fn was_granted(merged: Seq<MergedView>, at: u64, holder: Seq<char>, n: int) -> bool {
    exists|k: int|
        0 <= k < n && ((#[trigger] merged[k]).event matches EventView::Transition {
            kind,
            ballot,
            leader_id,
        } && kind != HistoryKind::Resign && ballot == at && leader_id == holder)
}

proof fn a_grant_was_made(merged: Seq<MergedView>, at: u64, holder: Seq<char>, n: int)
    requires
        0 <= n <= merged.len(),
    ensures
        elector_invariants::granted(merged, at, holder, n) <==> was_granted(merged, at, holder, n),
    decreases n,
{
    if n > 0 {
        a_grant_was_made(merged, at, holder, n - 1);
        if was_granted(merged, at, holder, n - 1) {
            let k = choose|k: int|
                0 <= k < n - 1 && ((#[trigger] merged[k]).event matches EventView::Transition {
                    kind,
                    ballot,
                    leader_id,
                } && kind != HistoryKind::Resign && ballot == at && leader_id == holder);
            assert(merged[k].event is Transition);
        }
        assert(merged[n - 1].event == merged[n - 1].event);
    }
}

/// Whether a ballot lies in the window: a transition was recorded, and the ballot is not
/// below the first one's, or above it where the first one gave its term up.
pub open spec fn in_the_window(merged: Seq<MergedView>, at: u64) -> bool {
    exists|t: int| #[trigger]
        opens_the_window(merged, t) && (merged[t].event matches EventView::Transition {
            kind,
            ballot,
            ..
        } && ballot <= at && (kind == HistoryKind::Resign && ballot < u64::MAX ==> ballot < at))
}

proof fn a_judged_ballot_lies_in_the_window(merged: Seq<MergedView>, at: u64)
    ensures
        (elector_invariants::judgeable_from(merged) matches Some(first) && at >= first)
            <==> in_the_window(merged, at),
{
    the_first_transition_opens_the_window(merged, 0);
    if let Some(event) = elector_invariants::first_transition(merged, 0) {
        let t = choose|t: int| #[trigger] opens_the_window(merged, t) && merged[t].event == event;
        assert forall|u: int| #[trigger] opens_the_window(merged, u) implies u == t by {
            if u < t {
                assert(!(merged[u].event is Transition));
            } else if t < u {
                assert(!(merged[t].event is Transition));
            }
        }
    } else {
        assert forall|u: int| !(#[trigger] opens_the_window(merged, u)) by {
            if 0 <= u < merged.len() {
                assert(!(merged[u].event is Transition));
            }
        }
    }
}

/// Whether an event of a belief is honest: a begin at a ballot in the window follows the
/// claim or steal that took that ballot for its client; an end comes while a belief of the
/// client at that ballot is open, before a horizon that it was begun with.
pub open spec fn is_honest(merged: Seq<MergedView>, ids: spec_fn(i32) -> Seq<char>, i: int) -> bool {
    match merged[i].event {
        EventView::BeliefBegin { client_id, ballot, .. } => in_the_window(merged, ballot)
            ==> was_granted(merged, ballot, ids(client_id), i),
        EventView::BeliefEnd { client_id, ballot, local_nanos } => exists|b: int| #[trigger]
            open_since(merged, client_id, ballot, b, i) && local_nanos
                < merged[b].event->BeliefBegin_horizon_nanos,
        _ => true,
    }
}

/// Beliefs are honest exactly when each begin was granted and each end came in time.
pub proof fn beliefs_are_honest_when_granted_and_ended_in_time(
    merged: Seq<MergedView>,
    ids: spec_fn(i32) -> Seq<char>,
)
    ensures
        elector_invariants::elector_honesty_findings(merged, ids).len() == 0 <==> forall|i: int|
            0 <= i < merged.len() ==> #[trigger] is_honest(merged, ids, i),
{
    let rule = elector_invariants::honesty_rule(merged, ids);
    report::nothing_gathered(merged, merged.len() as int, rule);
    assert forall|i: int| 0 <= i < merged.len() implies ((#[trigger] rule(i, merged[i])).len() == 0
        <==> is_honest(merged, ids, i)) by {
        match merged[i].event {
            EventView::BeliefBegin { client_id, ballot, .. } => {
                a_grant_was_made(merged, ballot, ids(client_id), i);
                a_judged_ballot_lies_in_the_window(merged, ballot);
            },
            EventView::BeliefEnd { client_id, ballot, .. } => {
                the_open_horizon_is_the_furthest(merged, client_id, ballot, i);
            },
            _ => {},
        }
    }
    if elector_invariants::elector_honesty_findings(merged, ids).len() == 0 {
        assert forall|i: int| 0 <= i < merged.len() implies #[trigger] is_honest(merged, ids, i) by {
            assert(rule(i, merged[i]).len() == 0);
        }
    }
    if forall|i: int| 0 <= i < merged.len() ==> #[trigger] is_honest(merged, ids, i) {
        assert forall|i: int| 0 <= i < merged.len() implies (#[trigger] rule(i, merged[i])).len()
            == 0 by {
            assert(is_honest(merged, ids, i));
        }
    }
}

// ---------------------------------------------------------------------------
// The snapshot, and progress
// ---------------------------------------------------------------------------

/// The database agrees with the history exactly when both hold nothing, or the record has
/// the last transition's ballot and, as that transition gave the term up or not, is vacant
/// with no name or held under its name.
pub proof fn the_record_agrees_with_the_last_transition(
    history: Seq<StampedView>,
    snapshot: Option<SnapshotView>,
)
    ensures
        elector_invariants::agreement_findings(history, snapshot).len() == 0 <==> match snapshot {
            None => history.len() == 0,
            Some(s) => history.len() > 0 && {
                let last = history[history.len() - 1];
                &&& s.ballot == last.ballot
                &&& last.kind == HistoryKind::Resign ==> s.vacant && s.leader_id.len() == 0
                &&& last.kind != HistoryKind::Resign ==> !s.vacant && s.leader_id == last.leader_id
            },
        },
{
    if let Some(s) = snapshot {
        if history.len() > 0 {
            let last = history[history.len() - 1];
            assert(history.last() == last);
            if s.leader_id.len() == 0 {
                assert(s.leader_id =~= Seq::<char>::empty());
            }
        }
    }
}

proof fn terms_are_counted(history: Seq<StampedView>, n: int)
    requires
        0 <= n <= history.len(),
    ensures
        elector_invariants::terms_won(history, n) == judgement_laws::places(
            |k: int| history[k].kind != HistoryKind::Resign,
            n,
        ).len(),
    decreases n,
{
    let taken = |k: int| history[k].kind != HistoryKind::Resign;
    judgement_laws::places_are_finite(taken, n);
    if n > 0 {
        terms_are_counted(history, n - 1);
        judgement_laws::places_grow_by_one(taken, n);
        assert((|k: int| history[k].kind != HistoryKind::Resign) =~= taken);
    }
}

proof fn writes_are_counted(log: Seq<LogEntry>, n: int)
    requires
        0 <= n <= log.len(),
    ensures
        elector_invariants::writes_landed(log, n) == judgement_laws::places(
            |k: int| log[k].record.op is FencedWrite && log[k].record.outcome is Applied,
            n,
        ).len(),
    decreases n,
{
    let landed = |k: int| log[k].record.op is FencedWrite && log[k].record.outcome is Applied;
    judgement_laws::places_are_finite(landed, n);
    if n > 0 {
        writes_are_counted(log, n - 1);
        judgement_laws::places_grow_by_one(landed, n);
        assert((|k: int| log[k].record.op is FencedWrite && log[k].record.outcome is Applied)
            =~= landed);
    }
}

/// The electors made progress exactly when the history holds as many claims and steals, and
/// the log as many writes that landed, as were demanded.
pub proof fn progress_is_terms_taken_and_writes_landed(
    history: Seq<StampedView>,
    log: Seq<LogEntry>,
    thresholds: ElectorThresholds,
)
    ensures
        elector_invariants::elector_progress_findings(history, log, thresholds).len() == 0 <==> {
            &&& judgement_laws::places(
                |k: int| history[k].kind != HistoryKind::Resign,
                history.len() as int,
            ).len() >= thresholds.min_acquisitions
            &&& judgement_laws::places(
                |k: int| log[k].record.op is FencedWrite && log[k].record.outcome is Applied,
                log.len() as int,
            ).len() >= thresholds.min_fenced_writes
        },
{
    terms_are_counted(history, history.len() as int);
    writes_are_counted(log, log.len() as int);
}

// ---------------------------------------------------------------------------
// Merging
// ---------------------------------------------------------------------------

/// What a log entry adds to the merged events: a belief's begin or end, or a fenced write,
/// with the entry's own client, ballot and instants, at the commit version in its stamp.
/// Other entries add nothing.
pub proof fn a_log_entry_is_merged_as_what_it_is(entry: LogEntry)
    ensures
        match elector_invariants::logged_event(entry) {
            Some(m) => {
                &&& m.stamp == entry.versionstamp@.take(10)
                &&& match m.event {
                    EventView::BeliefBegin { client_id, ballot, local_nanos, horizon_nanos } => {
                        &&& entry.record.op == OpKind::BeliefBegin
                        &&& client_id == entry.client_id
                        &&& ballot == entry.record.ballot
                        &&& local_nanos == entry.record.local_nanos
                        &&& horizon_nanos == entry.record.horizon_nanos
                    },
                    EventView::BeliefEnd { client_id, ballot, local_nanos } => {
                        &&& entry.record.op == OpKind::BeliefEnd
                        &&& client_id == entry.client_id
                        &&& ballot == entry.record.ballot
                        &&& local_nanos == entry.record.local_nanos
                    },
                    EventView::FencedWrite { client_id, ballot, applied } => {
                        &&& entry.record.op == OpKind::FencedWrite
                        &&& client_id == entry.client_id
                        &&& ballot == entry.record.ballot
                        &&& applied <==> entry.record.outcome is Applied
                    },
                    EventView::Transition { .. } => false,
                }
            },
            None => entry.record.op != OpKind::BeliefBegin && entry.record.op != OpKind::BeliefEnd
                && entry.record.op != OpKind::FencedWrite,
        },
{
}

/// Whether a log entry is a belief's begin or end or a fenced write.
pub open spec fn is_merged(entry: LogEntry) -> bool {
    entry.record.op == OpKind::BeliefBegin || entry.record.op == OpKind::BeliefEnd
        || entry.record.op == OpKind::FencedWrite
}

/// The log adds an event for each belief's begin and end and each fenced write, in the order
/// of the log, and none for any other entry.
pub proof fn the_log_adds_its_events_in_order(log: Seq<LogEntry>, n: int)
    requires
        0 <= n <= log.len(),
    ensures
        elector_invariants::logged_events(log, n).len() == judgement_laws::places(
            |k: int| is_merged(log[k]),
            n,
        ).len(),
        forall|k: int|
            0 <= k < n && is_merged(#[trigger] log[k]) ==> Some(
                elector_invariants::logged_events(log, n)[judgement_laws::places(
                    |m: int| is_merged(log[m]),
                    k,
                ).len() as int],
            ) == elector_invariants::logged_event(log[k]),
    decreases n,
{
    let merged = |k: int| is_merged(log[k]);
    judgement_laws::places_are_finite(merged, n);
    if n > 0 {
        the_log_adds_its_events_in_order(log, n - 1);
        judgement_laws::places_grow_by_one(merged, n);
        assert forall|k: int| 0 <= k < n && is_merged(#[trigger] log[k]) implies Some(
            elector_invariants::logged_events(log, n)[judgement_laws::places(
                |m: int| is_merged(log[m]),
                k,
            ).len() as int],
        ) == elector_invariants::logged_event(log[k]) by {
            assert((|m: int| is_merged(log[m])) =~= merged);
            if k < n - 1 {
                fewer_before(merged, k, n - 1);
            }
        }
    }
    assert((|k: int| is_merged(log[k])) =~= merged);
}

proof fn fewer_before(holds: spec_fn(int) -> bool, k: int, n: int)
    requires
        0 <= k < n,
        holds(k),
    ensures
        judgement_laws::places(holds, k).len() < judgement_laws::places(holds, n).len(),
    decreases n,
{
    judgement_laws::places_grow_by_one(holds, n);
    if k < n - 1 {
        fewer_before(holds, k, n - 1);
    }
}

/// The history adds an event for each transition, as it was recorded, in front of those of
/// the log.
pub proof fn the_history_adds_its_transitions_first(history: Seq<StampedView>, log: Seq<LogEntry>)
    ensures
        ({
            let events = elector_invariants::unmerged(history, log);
            let logged = elector_invariants::logged_events(log, log.len() as int);
            &&& events.len() == history.len() + logged.len()
            &&& events.skip(history.len() as int) == logged
            &&& forall|i: int|
                0 <= i < history.len() ==> (#[trigger] events[i]).stamp == history[i].stamp && (
                events[i].event matches EventView::Transition { kind, ballot, leader_id } && kind
                    == history[i].kind && ballot == history[i].ballot && leader_id
                    == history[i].leader_id)
        }),
{
    let events = elector_invariants::unmerged(history, log);
    let logged = elector_invariants::logged_events(log, log.len() as int);
    assert(events.skip(history.len() as int) =~= logged);
}

/// Whether of two events the one at `i` was committed first: its version is lower, or they
/// share it and it was given first.
pub open spec fn committed_first(events: Seq<MergedView>, i: int, j: int) -> bool {
    let a = stamps::stamp_value(events[i].stamp);
    let b = stamps::stamp_value(events[j].stamp);
    a < b || (a == b && i < j)
}

/// Whether two events stand in a list, the one in front of the other.
pub open spec fn stand_in_order(list: Seq<MergedView>, first: MergedView, second: MergedView) -> bool {
    exists|p: int, q: int|
        0 <= p < q < list.len() && #[trigger] list[p] == first && #[trigger] list[q] == second
}

proof fn a_place_divides(list: Seq<MergedView>, stamp: Seq<u8>, n: int)
    requires
        0 <= n <= list.len(),
        forall|i: int, j: int|
            0 <= i <= j < list.len() ==> stamps::stamp_value((#[trigger] list[i]).stamp)
                <= stamps::stamp_value((#[trigger] list[j]).stamp),
    ensures
        0 <= elector_invariants::place(list, stamp, n) <= n,
        forall|i: int|
            0 <= i < elector_invariants::place(list, stamp, n) ==> stamps::stamp_value(
                (#[trigger] list[i]).stamp,
            ) <= stamps::stamp_value(stamp),
        forall|i: int|
            elector_invariants::place(list, stamp, n) <= i < n ==> stamps::stamp_value(
                (#[trigger] list[i]).stamp,
            ) > stamps::stamp_value(stamp),
    decreases n,
{
    if n > 0 && stamps::stamp_value(list[n - 1].stamp) > stamps::stamp_value(stamp) {
        a_place_divides(list, stamp, n - 1);
    }
}

proof fn every_event_is_merged(events: Seq<MergedView>, n: int, i: int)
    requires
        0 <= i < n <= events.len(),
    ensures
        exists|p: int|
            0 <= p < elector_invariants::in_commit_order(events, n).len()
                && #[trigger] elector_invariants::in_commit_order(events, n)[p] == events[i],
    decreases n,
{
    let before = elector_invariants::in_commit_order(events, n - 1);
    let after = elector_invariants::in_commit_order(events, n);
    let e = events[n - 1];
    elector_invariants::merging_sorts(events, n - 1);
    a_place_divides(before, e.stamp, before.len() as int);
    let s = elector_invariants::place(before, e.stamp, before.len() as int);
    if i < n - 1 {
        every_event_is_merged(events, n - 1, i);
        let p = choose|p: int| 0 <= p < before.len() && #[trigger] before[p] == events[i];
        if p >= s {
            assert(after[p + 1] == events[i]);
        } else {
            assert(after[p] == events[i]);
        }
    } else {
        assert(after[s] == e);
    }
}

/// Merging puts events in the order they were committed in: of two the one with the lower
/// version stands in front, and of two with the same version the one that was given first.
/// Nothing is lost and nothing is added.
pub proof fn merging_puts_events_in_commit_order(events: Seq<MergedView>, n: int, i: int, j: int)
    requires
        0 <= i < n <= events.len(),
        0 <= j < n,
        i != j,
        committed_first(events, i, j),
    ensures
        elector_invariants::in_commit_order(events, n).len() == n,
        stand_in_order(elector_invariants::in_commit_order(events, n), events[i], events[j]),
    decreases n,
{
    let before = elector_invariants::in_commit_order(events, n - 1);
    let after = elector_invariants::in_commit_order(events, n);
    let e = events[n - 1];
    elector_invariants::merging_sorts(events, n - 1);
    elector_invariants::merging_sorts(events, n);
    a_place_divides(before, e.stamp, before.len() as int);
    let s = elector_invariants::place(before, e.stamp, before.len() as int);
    if i < n - 1 && j < n - 1 {
        merging_puts_events_in_commit_order(events, n - 1, i, j);
        let (p, q) = choose|p: int, q: int|
            0 <= p < q < before.len() && #[trigger] before[p] == events[i]
                && #[trigger] before[q] == events[j];
        let pp = if p < s {
            p
        } else {
            p + 1
        };
        let qq = if q < s {
            q
        } else {
            q + 1
        };
        assert(after[pp] == events[i]);
        assert(after[qq] == events[j]);
    } else if j == n - 1 {
        every_event_is_merged(events, n - 1, i);
        let p = choose|p: int| 0 <= p < before.len() && #[trigger] before[p] == events[i];
        assert(p < s);
        assert(after[p] == events[i]);
        assert(after[s] == events[j]);
    } else {
        every_event_is_merged(events, n - 1, j);
        let q = choose|q: int| 0 <= q < before.len() && #[trigger] before[q] == events[j];
        assert(q >= s);
        assert(after[s] == events[i]);
        assert(after[q + 1] == events[j]);
    }
}

} // verus!
