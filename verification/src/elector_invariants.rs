//! The invariants a run of the recipe's own elector is judged by.
//!
//! The elector's transactions are its own, so it is judged by effect: its
//! history and the log of what its clients believed and wrote are merged into
//! commit order, and every write is held against the term open when it landed.

use crate::duration;
use crate::invariants;
use crate::invariants::{no_belief_overlap, HistoryKind, Tolerances};
use crate::log_schema::{LogEntry, OpKind};
use crate::replay;
use crate::replay::Replay;
use crate::report;
use crate::report::{note, Finding, InvariantReport, Violation};
use crate::stamps;
use crate::stamps::stamp_number;
use crate::text;
use crate::text::{count_text, flag_text, number_text, quoted, same_text, wide_text};
use vstd::prelude::*;
use vstd::string::*;

verus! {

// ---------------------------------------------------------------------------
// Evidence
// ---------------------------------------------------------------------------

/// One entry of the elector election's history, with the commit version that
/// orders it.
#[derive(Debug, Clone, PartialEq, Eq)]
pub struct StampedTransition {
    /// Commit version of the transaction that wrote it.
    pub stamp: [u8; 10],
    /// What the recipe recorded.
    pub kind: HistoryKind,
    /// The ballot the transition produced.
    pub ballot: u64,
    /// Who caused it.
    pub leader_id: String,
}

/// What a [`StampedTransition`] says.
#[verifier::ext_equal]
pub struct StampedView {
    pub stamp: Seq<u8>,
    pub kind: HistoryKind,
    pub ballot: u64,
    pub leader_id: Seq<char>,
}

impl View for StampedTransition {
    type V = StampedView;

    open spec fn view(&self) -> StampedView {
        StampedView {
            stamp: self.stamp@,
            kind: self.kind,
            ballot: self.ballot,
            leader_id: self.leader_id@,
        }
    }
}

/// What a history says.
pub open spec fn stamped_views(history: Seq<StampedTransition>) -> Seq<StampedView> {
    Seq::new(history.len(), |i: int| history[i]@)
}

/// The leader record the elector election ended up holding.
#[derive(Debug, Clone, PartialEq, Eq)]
pub struct ElectorSnapshot {
    /// Term number.
    pub ballot: u64,
    /// Holder, empty when vacant.
    pub leader_id: String,
    /// Whether the term was resigned rather than held.
    pub vacant: bool,
}

/// What an [`ElectorSnapshot`] says.
#[verifier::ext_equal]
pub struct SnapshotView {
    pub ballot: u64,
    pub leader_id: Seq<char>,
    pub vacant: bool,
}

impl View for ElectorSnapshot {
    type V = SnapshotView;

    open spec fn view(&self) -> SnapshotView {
        SnapshotView { ballot: self.ballot, leader_id: self.leader_id@, vacant: self.vacant }
    }
}

/// What a run that ran real electors has to have achieved.
#[derive(Debug, Clone, Copy, PartialEq, Eq, Structural)]
pub struct ElectorThresholds {
    /// Terms the electors must have won between them.
    pub min_acquisitions: usize,
    /// Fenced writes that must have been applied under those terms.
    pub min_fenced_writes: usize,
}

impl ElectorThresholds {
    /// What is demanded of a run whose electors took part: one of each.
    pub fn active() -> (r: ElectorThresholds)
        ensures
            r.min_acquisitions == 1,
            r.min_fenced_writes == 1,
    {
        ElectorThresholds { min_acquisitions: 1, min_fenced_writes: 1 }
    }
}

/// Everything the elector half of the check phase judges from.
pub struct ElectorEvidence<'a> {
    /// The elector election's history, oldest first.
    pub history: &'a [StampedTransition],
    /// The elector role's log, in commit order.
    pub log: &'a [LogEntry],
    /// What replaying that log produced, for its belief intervals.
    pub replay: &'a Replay,
    /// The leader record the elector election actually holds.
    pub snapshot: Option<&'a ElectorSnapshot>,
    /// What the configuration's clock assumptions allow.
    pub tolerances: Tolerances,
    /// What the configuration expects the electors to have achieved.
    pub thresholds: ElectorThresholds,
}

// ---------------------------------------------------------------------------
// The merged order
// ---------------------------------------------------------------------------

/// One thing that happened to the elector election.
#[derive(Debug, Clone, PartialEq, Eq)]
pub enum ElectorEvent {
    /// The recipe recorded a leadership transition.
    Transition {
        /// What it was.
        kind: HistoryKind,
        /// The ballot it produced.
        ballot: u64,
        /// Who caused it.
        leader_id: String,
    },
    /// A client logged the start of a belief.
    BeliefBegin {
        /// Who believed.
        client_id: i32,
        /// The term it believed it held.
        ballot: u64,
        /// Its own clock when the belief began.
        local_nanos: u64,
        /// The horizon it had computed, on its own clock.
        horizon_nanos: u64,
    },
    /// A client logged the end of a belief.
    BeliefEnd {
        /// Who stopped believing.
        client_id: i32,
        /// The term it had believed it held.
        ballot: u64,
        /// Its own clock when the belief ended.
        local_nanos: u64,
    },
    /// A ranked-register write made under a term.
    FencedWrite {
        /// Who wrote.
        client_id: i32,
        /// The ballot it wrote under.
        ballot: u64,
        /// Whether the register accepted it.
        applied: bool,
    },
}

/// What an [`ElectorEvent`] says.
#[verifier::ext_equal]
pub enum EventView {
    Transition { kind: HistoryKind, ballot: u64, leader_id: Seq<char> },
    BeliefBegin { client_id: i32, ballot: u64, local_nanos: u64, horizon_nanos: u64 },
    BeliefEnd { client_id: i32, ballot: u64, local_nanos: u64 },
    FencedWrite { client_id: i32, ballot: u64, applied: bool },
}

impl View for ElectorEvent {
    type V = EventView;

    open spec fn view(&self) -> EventView {
        match *self {
            ElectorEvent::Transition { kind, ballot, leader_id } => EventView::Transition {
                kind,
                ballot,
                leader_id: leader_id@,
            },
            ElectorEvent::BeliefBegin { client_id, ballot, local_nanos, horizon_nanos } =>
            EventView::BeliefBegin { client_id, ballot, local_nanos, horizon_nanos },
            ElectorEvent::BeliefEnd { client_id, ballot, local_nanos } => EventView::BeliefEnd {
                client_id,
                ballot,
                local_nanos,
            },
            ElectorEvent::FencedWrite { client_id, ballot, applied } => EventView::FencedWrite {
                client_id,
                ballot,
                applied,
            },
        }
    }
}

/// One event, with the commit version that orders it against every other.
#[derive(Debug, Clone, PartialEq, Eq)]
pub struct MergedEvent {
    /// Commit version of the transaction that produced it.
    pub stamp: [u8; 10],
    /// What happened.
    pub event: ElectorEvent,
}

/// What a [`MergedEvent`] says.
#[verifier::ext_equal]
pub struct MergedView {
    pub stamp: Seq<u8>,
    pub event: EventView,
}

impl View for MergedEvent {
    type V = MergedView;

    open spec fn view(&self) -> MergedView {
        MergedView { stamp: self.stamp@, event: self.event@ }
    }
}

/// What a list of merged events says.
pub open spec fn merged_views(merged: Seq<MergedEvent>) -> Seq<MergedView> {
    Seq::new(merged.len(), |i: int| merged[i]@)
}

/// The event a log entry reports, if it is one of the elector's.
pub open spec fn logged_event(entry: LogEntry) -> Option<MergedView> {
    let record = entry.record;
    let stamp = entry.versionstamp@.take(10);
    match record.op {
        OpKind::BeliefBegin => Some(
            MergedView {
                stamp,
                event: EventView::BeliefBegin {
                    client_id: entry.client_id,
                    ballot: record.ballot,
                    local_nanos: record.local_nanos,
                    horizon_nanos: record.horizon_nanos,
                },
            },
        ),
        OpKind::BeliefEnd => Some(
            MergedView {
                stamp,
                event: EventView::BeliefEnd {
                    client_id: entry.client_id,
                    ballot: record.ballot,
                    local_nanos: record.local_nanos,
                },
            },
        ),
        OpKind::FencedWrite => Some(
            MergedView {
                stamp,
                event: EventView::FencedWrite {
                    client_id: entry.client_id,
                    ballot: record.ballot,
                    applied: record.outcome is Applied,
                },
            },
        ),
        _ => None,
    }
}

/// The events of the first `n` log entries, in log order.
pub open spec fn logged_events(log: Seq<LogEntry>, n: int) -> Seq<MergedView>
    decreases n,
{
    if n <= 0 {
        Seq::empty()
    } else {
        match logged_event(log[n - 1]) {
            Some(event) => logged_events(log, n - 1).push(event),
            None => logged_events(log, n - 1),
        }
    }
}

/// The history's transitions as events.
pub open spec fn history_events(history: Seq<StampedView>) -> Seq<MergedView> {
    Seq::new(
        history.len(),
        |i: int|
            MergedView {
                stamp: history[i].stamp,
                event: EventView::Transition {
                    kind: history[i].kind,
                    ballot: history[i].ballot,
                    leader_id: history[i].leader_id,
                },
            },
    )
}

/// Both streams, history first.
pub open spec fn unmerged(history: Seq<StampedView>, log: Seq<LogEntry>) -> Seq<MergedView> {
    history_events(history) + logged_events(log, log.len() as int)
}

/// Where an event goes among the first `n` of a list in commit order: behind
/// every one that committed no later.
pub open spec fn place(events: Seq<MergedView>, stamp: Seq<u8>, n: int) -> int
    decreases n,
{
    if n <= 0 {
        0
    } else if stamps::stamp_value(events[n - 1].stamp) <= stamps::stamp_value(stamp) {
        n
    } else {
        place(events, stamp, n - 1)
    }
}

/// The first `n` events in commit order, ties in the order they were given.
pub open spec fn in_commit_order(events: Seq<MergedView>, n: int) -> Seq<MergedView>
    decreases n,
{
    if n <= 0 {
        Seq::empty()
    } else {
        let earlier = in_commit_order(events, n - 1);
        let event = events[n - 1];
        earlier.insert(place(earlier, event.stamp, earlier.len() as int), event)
    }
}

proof fn place_in_range(events: Seq<MergedView>, stamp: Seq<u8>, n: int)
    requires
        0 <= n <= events.len(),
    ensures
        0 <= place(events, stamp, n) <= n,
        place(events, stamp, n) > 0 ==> stamps::stamp_value(events[place(events, stamp, n) - 1].stamp)
            <= stamps::stamp_value(stamp),
        forall|k: int|
            place(events, stamp, n) <= k < n ==> stamps::stamp_value(stamp) < stamps::stamp_value(
                (#[trigger] events[k]).stamp,
            ),
    decreases n,
{
    if n > 0 && stamps::stamp_value(events[n - 1].stamp) > stamps::stamp_value(stamp) {
        place_in_range(events, stamp, n - 1);
    }
}

/// Merging loses nothing and adds nothing, and leaves the events in commit
/// order.
pub proof fn merging_sorts(events: Seq<MergedView>, n: int)
    requires
        0 <= n <= events.len(),
    ensures
        in_commit_order(events, n).len() == n,
        in_commit_order(events, n).to_multiset() == events.take(n).to_multiset(),
        forall|i: int, j: int|
            0 <= i <= j < n ==> stamps::stamp_value((#[trigger] in_commit_order(events, n)[i]).stamp)
                <= stamps::stamp_value((#[trigger] in_commit_order(events, n)[j]).stamp),
    decreases n,
{
    broadcast use vstd::seq_lib::group_to_multiset_ensures;

    if n > 0 {
        merging_sorts(events, n - 1);
        let earlier = in_commit_order(events, n - 1);
        let event = events[n - 1];
        let p = place(earlier, event.stamp, earlier.len() as int);
        place_in_range(earlier, event.stamp, earlier.len() as int);
        let merged = in_commit_order(events, n);
        assert(merged =~= earlier.insert(p, event));
        assert(events.take(n) =~= events.take(n - 1).push(event));
        assert(merged.to_multiset() =~= earlier.to_multiset().insert(event)) by {
            vstd::seq_lib::to_multiset_insert(earlier, p, event);
        }
        assert forall|i: int, j: int| 0 <= i <= j < n implies stamps::stamp_value(
            (#[trigger] merged[i]).stamp,
        ) <= stamps::stamp_value((#[trigger] merged[j]).stamp) by {
            let a = if i < p {
                i
            } else {
                i - 1
            };
            let b = if j < p {
                j
            } else {
                j - 1
            };
            if i != p && j != p {
                assert(stamps::stamp_value(earlier[a].stamp) <= stamps::stamp_value(earlier[b].stamp));
            } else if i == p && j != p {
                assert(merged[j] == earlier[b]);
            } else if j == p && i != p {
                assert(merged[i] == earlier[i]);
                assert(stamps::stamp_value(earlier[i].stamp) <= stamps::stamp_value(earlier[p - 1].stamp));
            }
        }
    } else {
        assert(events.take(0) =~= Seq::<MergedView>::empty());
    }
}

/// The events of a list that committed at one version, in the list's order.
pub open spec fn committed_at(events: Seq<MergedView>, version: nat) -> Seq<MergedView>
    decreases events.len(),
{
    if events.len() == 0 {
        Seq::empty()
    } else {
        let earlier = committed_at(events.drop_last(), version);
        if stamps::stamp_value(events.last().stamp) == version {
            earlier.push(events.last())
        } else {
            earlier
        }
    }
}

proof fn committed_at_joins(a: Seq<MergedView>, b: Seq<MergedView>, version: nat)
    ensures
        committed_at(a + b, version) == committed_at(a, version) + committed_at(b, version),
    decreases b.len(),
{
    if b.len() == 0 {
        assert(a + b =~= a);
    } else {
        assert((a + b).drop_last() =~= a + b.drop_last());
        committed_at_joins(a, b.drop_last(), version);
        assert(committed_at(a + b, version) =~= committed_at(a, version) + committed_at(
            b,
            version,
        ));
    }
}

proof fn committed_at_none(events: Seq<MergedView>, version: nat)
    requires
        forall|k: int|
            0 <= k < events.len() ==> stamps::stamp_value((#[trigger] events[k]).stamp) != version,
    ensures
        committed_at(events, version).len() == 0,
    decreases events.len(),
{
    if events.len() > 0 {
        assert(stamps::stamp_value(events[events.len() - 1].stamp) != version);
        assert forall|k: int| 0 <= k < events.drop_last().len() implies stamps::stamp_value(
            (#[trigger] events.drop_last()[k]).stamp,
        ) != version by {
            assert(events.drop_last()[k] == events[k]);
        }
        committed_at_none(events.drop_last(), version);
    }
}

/// Merging is stable: events of one version keep the order they were given in,
/// so a transition stands before whatever the log reports of its own version.
pub proof fn merging_is_stable(events: Seq<MergedView>, n: int, version: nat)
    requires
        0 <= n <= events.len(),
    ensures
        committed_at(in_commit_order(events, n), version) == committed_at(events.take(n), version),
    decreases n,
{
    if n > 0 {
        merging_is_stable(events, n - 1, version);
        merging_sorts(events, n - 1);
        let earlier = in_commit_order(events, n - 1);
        let event = events[n - 1];
        let p = place(earlier, event.stamp, earlier.len() as int);
        place_in_range(earlier, event.stamp, earlier.len() as int);
        let merged = in_commit_order(events, n);
        let front = earlier.take(p);
        let back = earlier.skip(p);
        assert(merged =~= front + seq![event] + back);
        assert(earlier =~= front + back);
        committed_at_joins(front + seq![event], back, version);
        committed_at_joins(front, seq![event], version);
        committed_at_joins(front, back, version);
        reveal_with_fuel(committed_at, 2);
        assert(seq![event].drop_last() =~= Seq::<MergedView>::empty());
        if stamps::stamp_value(event.stamp) == version {
            assert forall|k: int| 0 <= k < back.len() implies stamps::stamp_value(
                (#[trigger] back[k]).stamp,
            ) != version by {
                assert(back[k] == earlier[p + k]);
            }
            committed_at_none(back, version);
            assert(committed_at(back, version) =~= Seq::<MergedView>::empty());
        }
        assert(events.take(n).drop_last() =~= events.take(n - 1));
        assert(committed_at(merged, version) =~= committed_at(events.take(n), version));
    } else {
        assert(events.take(0) =~= Seq::<MergedView>::empty());
    }
}

/// Where an event goes in a list in commit order.
fn find_place(merged: &Vec<MergedEvent>, stamp: &[u8; 10]) -> (r: usize)
    ensures
        r == place(merged_views(merged@), stamp@, merged@.len() as int),
        r <= merged@.len(),
{
    let value: u128 = stamp_number(stamp.as_slice());
    let mut i: usize = merged.len();
    while i > 0
        invariant
            i <= merged@.len(),
            value == stamps::stamp_value(stamp@),
            place(merged_views(merged@), stamp@, merged@.len() as int) == place(
                merged_views(merged@),
                stamp@,
                i as int,
            ),
        decreases i,
    {
        assert(merged_views(merged@)[i - 1] == merged@[i - 1]@);
        if stamp_number(merged[i - 1].stamp.as_slice()) <= value {
            return i;
        }
        i = i - 1;
    }
    0
}

/// Files one event among those already in commit order.
fn file_event(merged: &mut Vec<MergedEvent>, event: MergedEvent)
    ensures
        merged_views(final(merged)@) == merged_views(old(merged)@).insert(
            place(merged_views(old(merged)@), event.stamp@, old(merged)@.len() as int),
            event@,
        ),
{
    let at: usize = find_place(merged, &event.stamp);
    merged.insert(at, event);
    assert(merged_views(merged@) =~= merged_views(old(merged)@).insert(at as int, event@));
}

/// The first ten bytes of a versionstamp: the commit version.
fn commit_version(versionstamp: &[u8; 12]) -> (r: [u8; 10])
    ensures
        r@ == versionstamp@.take(10),
{
    let mut stamp: [u8; 10] = [0u8; 10];
    let mut i: usize = 0;
    while i < 10
        invariant
            i <= 10,
            forall|j: int| 0 <= j < i ==> stamp@[j] == versionstamp@[j],
        decreases 10 - i,
    {
        stamp[i] = versionstamp[i];
        i = i + 1;
    }
    assert(stamp@ =~= versionstamp@.take(10));
    stamp
}

/// The event a log entry reports, if it is one of the elector's.
fn event_of(entry: &LogEntry) -> (r: Option<MergedEvent>)
    ensures
        match r {
            Some(event) => logged_event(*entry) == Some(event@),
            None => logged_event(*entry) is None,
        },
{
    let record = &entry.record;
    let event = match record.op {
        OpKind::BeliefBegin => ElectorEvent::BeliefBegin {
            client_id: entry.client_id,
            ballot: record.ballot,
            local_nanos: record.local_nanos,
            horizon_nanos: record.horizon_nanos,
        },
        OpKind::BeliefEnd => ElectorEvent::BeliefEnd {
            client_id: entry.client_id,
            ballot: record.ballot,
            local_nanos: record.local_nanos,
        },
        OpKind::FencedWrite => ElectorEvent::FencedWrite {
            client_id: entry.client_id,
            ballot: record.ballot,
            applied: record.outcome.is_applied(),
        },
        _ => {
            return None;
        },
    };
    Some(MergedEvent { stamp: commit_version(&entry.versionstamp), event })
}

proof fn in_commit_order_prefix(a: Seq<MergedView>, b: Seq<MergedView>, n: int)
    requires
        0 <= n <= a.len(),
        n <= b.len(),
        a.take(n) == b.take(n),
    ensures
        in_commit_order(a, n) == in_commit_order(b, n),
    decreases n,
{
    if n > 0 {
        assert(a.take(n - 1) =~= a.take(n).take(n - 1));
        assert(b.take(n - 1) =~= b.take(n).take(n - 1));
        in_commit_order_prefix(a, b, n - 1);
        assert(a[n - 1] == a.take(n)[n - 1]);
        assert(b[n - 1] == b.take(n)[n - 1]);
    }
}

/// Puts both streams into the order the database committed them in.
pub fn merge(history: &[StampedTransition], log: &[LogEntry]) -> (r: Vec<MergedEvent>)
    ensures
        merged_views(r@) == in_commit_order(
            unmerged(stamped_views(history@), log@),
            unmerged(stamped_views(history@), log@).len() as int,
        ),
{
    let mut merged: Vec<MergedEvent> = Vec::new();
    let ghost events = history_events(stamped_views(history@));
    assert(merged_views(merged@) =~= in_commit_order(events, 0));
    let mut i: usize = 0;
    while i < history.len()
        invariant
            i <= history@.len(),
            events == history_events(stamped_views(history@)),
            merged_views(merged@) == in_commit_order(events, i as int),
        decreases history@.len() - i,
    {
        let entry = &history[i];
        assert(stamped_views(history@)[i as int] == entry@);
        file_event(
            &mut merged,
            MergedEvent {
                stamp: entry.stamp,
                event: ElectorEvent::Transition {
                    kind: entry.kind,
                    ballot: entry.ballot,
                    leader_id: entry.leader_id.clone(),
                },
            },
        );
        i = i + 1;
    }
    let ghost both = events + logged_events(log@, 0);
    proof {
        assert(both =~= events);
    }
    let mut k: usize = 0;
    while k < log.len()
        invariant
            k <= log@.len(),
            both == events + logged_events(log@, k as int),
            merged_views(merged@) == in_commit_order(both, both.len() as int),
        decreases log@.len() - k,
    {
        let ghost before = both;
        match event_of(&log[k]) {
            Some(event) => {
                proof {
                    both = before.push(event@);
                    assert(both.take(before.len() as int) =~= before.take(before.len() as int));
                    in_commit_order_prefix(both, before, before.len() as int);
                }
                file_event(&mut merged, event);
            },
            None => {},
        }
        assert(both =~= events + logged_events(log@, k as int + 1));
        k = k + 1;
    }
    merged
}

// ---------------------------------------------------------------------------
// The evidence window
// ---------------------------------------------------------------------------

/// The first transition at or after position `from`, if there is one.
pub open spec fn first_transition(merged: Seq<MergedView>, from: int) -> Option<EventView>
    decreases merged.len() - from,
{
    if from >= merged.len() {
        None
    } else if merged[from].event is Transition {
        Some(merged[from].event)
    } else {
        first_transition(merged, from + 1)
    }
}

/// The lowest ballot whose acquisition is certainly in the trail: that of an
/// acquisition it opens on, the one above a resign it opens on.
pub open spec fn judgeable_from(merged: Seq<MergedView>) -> Option<u64> {
    match first_transition(merged, 0) {
        Some(EventView::Transition { kind, ballot, .. }) => if kind is Resign {
            Some(
                if ballot == u64::MAX {
                    u64::MAX
                } else {
                    (ballot + 1) as u64
                },
            )
        } else {
            Some(ballot)
        },
        _ => None,
    }
}

/// The lowest ballot whose acquisition is certainly in the trail, if any.
pub fn first_judgeable_ballot(merged: &[MergedEvent]) -> (r: Option<u64>)
    ensures
        r == judgeable_from(merged_views(merged@)),
{
    let mut i: usize = 0;
    while i < merged.len()
        invariant
            i <= merged@.len(),
            first_transition(merged_views(merged@), 0) == first_transition(
                merged_views(merged@),
                i as int,
            ),
        decreases merged@.len() - i,
    {
        assert(merged_views(merged@)[i as int] == merged@[i as int]@);
        if let ElectorEvent::Transition { kind, ballot, .. } = &merged[i].event {
            return Some(
                match kind {
                    HistoryKind::Resign => ballot.saturating_add(1),
                    _ => *ballot,
                },
            );
        }
        i = i + 1;
    }
    None
}

/// How many applied writes lie between position `from` and the next transition.
pub open spec fn writes_before_a_transition(merged: Seq<MergedView>, from: int) -> nat
    decreases merged.len() - from,
{
    if from >= merged.len() || merged[from].event is Transition {
        0
    } else {
        writes_before_a_transition(merged, from + 1) + if merged[from].event matches EventView::FencedWrite {
            applied,
            ..
        } && applied {
            1nat
        } else {
            0nat
        }
    }
}

/// Applied fenced writes that landed before the trail's first transition.
pub fn writes_outside_the_window(merged: &[MergedEvent]) -> (r: usize)
    ensures
        r == writes_before_a_transition(merged_views(merged@), 0),
{
    let mut count: usize = 0;
    let mut i: usize = 0;
    while i < merged.len()
        invariant
            i <= merged@.len(),
            count <= i,
            count + writes_before_a_transition(merged_views(merged@), i as int)
                == writes_before_a_transition(merged_views(merged@), 0),
        decreases merged@.len() - i,
    {
        assert(merged_views(merged@)[i as int] == merged@[i as int]@);
        match &merged[i].event {
            ElectorEvent::Transition { .. } => {
                return count;
            },
            ElectorEvent::FencedWrite { applied, .. } => {
                if *applied {
                    count = count + 1;
                }
            },
            _ => {},
        }
        i = i + 1;
    }
    count
}

// ---------------------------------------------------------------------------
// Terms from history
// ---------------------------------------------------------------------------

/// Whether a history entry acquires a term.
pub open spec fn takes_term(kind: HistoryKind) -> bool {
    kind is Claim || kind is Steal
}

/// The position of the first of the first `n` history entries that acquired
/// `ballot`, or a negative number where none did.
pub open spec fn first_taken(history: Seq<StampedView>, ballot: u64, n: int) -> int
    decreases n,
{
    if n <= 0 {
        -1
    } else {
        let earlier = first_taken(history, ballot, n - 1);
        if earlier >= 0 {
            earlier
        } else if takes_term(history[n - 1].kind) && history[n - 1].ballot == ballot {
            n - 1
        } else {
            -1
        }
    }
}

/// What is wrong with one history entry, given the one before it. The first is
/// the baseline: retention trims the trail from the front.
pub open spec fn trail_findings(history: Seq<StampedView>, i: int, entry: StampedView) -> Seq<Finding> {
    let at = i as usize;
    if takes_term(entry.kind) {
        let first = first_taken(history, entry.ballot, i);
        report::when(
            i > 0 && entry.ballot != history[i - 1].ballot + 1,
            report::found_at(
                at,
                "took ballot "@ + text::nat_text(entry.ballot as nat)
                    + " where the trail demands "@ + text::nat_text(
                    (history[i - 1].ballot + 1) as nat,
                ) + ": ballots never reset and never skip"@,
            ),
        ) + report::when(
            first >= 0,
            report::found_between(
                first as usize,
                at,
                "ballot "@ + text::nat_text(entry.ballot as nat) + " was acquired twice, by "@
                    + history[first].leader_id + " and by "@ + entry.leader_id
                    + ": a ballot names one term"@,
            ),
        )
    } else {
        report::when(
            i > 0 && entry.ballot != history[i - 1].ballot,
            report::found_at(
                at,
                "a resign preserves ballot "@ + text::nat_text(history[i - 1].ballot as nat)
                    + ", it recorded "@ + text::nat_text(entry.ballot as nat)
                    + ": the successor would reuse a ballot"@,
            ),
        ) + report::when(
            i > 0 && history[i - 1].kind is Resign,
            report::found_at(
                at,
                "ballot "@ + text::nat_text(entry.ballot as nat) + " was given up twice"@,
            ),
        )
    }
}

/// The rule that the trail describes a succession of terms.
pub open spec fn trail_rule(history: Seq<StampedView>) -> spec_fn(int, StampedView) -> Seq<Finding> {
    |i: int, entry: StampedView| trail_findings(history, i, entry)
}

/// Everything that breaks the succession of terms in a history.
pub open spec fn terms_findings(history: Seq<StampedView>) -> Seq<Finding> {
    report::gathered(history, history.len() as int, trail_rule(history))
}

fn find_first_taken(history: &[StampedTransition], ballot: u64, n: usize) -> (r: Option<usize>)
    requires
        n <= history@.len(),
    ensures
        match r {
            Some(i) => i < n && first_taken(stamped_views(history@), ballot, n as int) == i,
            None => first_taken(stamped_views(history@), ballot, n as int) < 0,
        },
{
    let mut found: Option<usize> = None;
    let mut i: usize = 0;
    while i < n
        invariant
            i <= n <= history@.len(),
            match found {
                Some(k) => k < i && first_taken(stamped_views(history@), ballot, i as int) == k,
                None => first_taken(stamped_views(history@), ballot, i as int) < 0,
            },
        decreases n - i,
    {
        let entry = &history[i];
        assert(stamped_views(history@)[i as int] == entry@);
        if found.is_none() && entry.kind != HistoryKind::Resign && entry.ballot == ballot {
            found = Some(i);
        }
        i = i + 1;
    }
    found
}

fn check_trail(violations: &mut Vec<Violation>, history: &[StampedTransition], i: usize)
    requires
        i < history@.len(),
    ensures
        report::findings(final(violations)@) == report::findings(old(violations)@)
            + trail_findings(stamped_views(history@), i as int, history@[i as int]@),
{
    let entry = &history[i];
    let ghost views = stamped_views(history@);
    assert(views[i as int] == entry@);
    if i > 0 {
        assert(views[i - 1] == history@[i - 1]@);
    }
    match entry.kind {
        HistoryKind::Resign => {
            if i > 0 {
                let previous = &history[i - 1];
                if entry.ballot != previous.ballot {
                    note(
                        violations,
                        Violation::at(
                            i,
                            "a resign preserves ballot ".to_owned().concat(
                                number_text(previous.ballot).as_str(),
                            ).concat(", it recorded ").concat(
                                number_text(entry.ballot).as_str(),
                            ).concat(": the successor would reuse a ballot"),
                        ),
                    );
                }
                if previous.kind == HistoryKind::Resign {
                    note(
                        violations,
                        Violation::at(
                            i,
                            "ballot ".to_owned().concat(number_text(entry.ballot).as_str()).concat(
                                " was given up twice",
                            ),
                        ),
                    );
                }
            }
        },
        _ => {
            if i > 0 {
                let demanded: u128 = history[i - 1].ballot as u128 + 1;
                if entry.ballot as u128 != demanded {
                    note(
                        violations,
                        Violation::at(
                            i,
                            "took ballot ".to_owned().concat(
                                number_text(entry.ballot).as_str(),
                            ).concat(" where the trail demands ").concat(
                                wide_text(demanded).as_str(),
                            ).concat(": ballots never reset and never skip"),
                        ),
                    );
                }
            }
            if let Some(first) = find_first_taken(history, entry.ballot, i) {
                assert(views[first as int] == history@[first as int]@);
                note(
                    violations,
                    Violation::between(
                        first,
                        i,
                        "ballot ".to_owned().concat(number_text(entry.ballot).as_str()).concat(
                            " was acquired twice, by ",
                        ).concat(history[first].leader_id.as_str()).concat(" and by ").concat(
                            entry.leader_id.as_str(),
                        ).concat(": a ballot names one term"),
                    ),
                );
            }
        },
    }
    assert(report::findings(violations@) =~= report::findings(old(violations)@) + trail_findings(
        views,
        i as int,
        entry@,
    ));
}

/// The recipe's own trail describes a succession of terms.
pub fn elector_terms_from_history(history: &[StampedTransition]) -> (r: InvariantReport)
    ensures
        r.says("ElectorTermsFromHistory"@, terms_findings(stamped_views(history@))),
{
    let mut violations: Vec<Violation> = Vec::new();
    assert(report::findings(violations@) =~= Seq::<Finding>::empty());
    let mut i: usize = 0;
    while i < history.len()
        invariant
            i <= history@.len(),
            report::findings(violations@) == report::gathered(
                stamped_views(history@),
                i as int,
                trail_rule(stamped_views(history@)),
            ),
        decreases history@.len() - i,
    {
        assert(stamped_views(history@)[i as int] == history@[i as int]@);
        check_trail(&mut violations, history, i);
        i = i + 1;
    }
    InvariantReport::new("ElectorTermsFromHistory", violations)
}

// ---------------------------------------------------------------------------
// Fencing holds
// ---------------------------------------------------------------------------

/// The last transition among the first `n` events, if there is one.
pub open spec fn last_transition(merged: Seq<MergedView>, n: int) -> Option<EventView>
    decreases n,
{
    if n <= 0 {
        None
    } else if merged[n - 1].event is Transition {
        Some(merged[n - 1].event)
    } else {
        last_transition(merged, n - 1)
    }
}

/// What is wrong with one event, if it is a write the register accepted after
/// the trail began: nobody held the term, or the writer did not hold it at that
/// ballot.
pub open spec fn landing_findings(
    merged: Seq<MergedView>,
    ids: spec_fn(i32) -> Seq<char>,
    i: int,
    entry: MergedView,
) -> Seq<Finding> {
    match (entry.event, last_transition(merged, i)) {
        (
            EventView::FencedWrite { client_id, ballot, applied },
            Some(EventView::Transition { kind, ballot: held, leader_id: holder }),
        ) => {
            let wrote = ids(client_id) + " committed a write fenced at ballot "@ + text::nat_text(
                ballot as nat,
            );
            if !applied {
                Seq::empty()
            } else if kind is Resign {
                seq![report::found_at(i as usize, wrote + " while nobody held the term"@)]
            } else {
                report::when(
                    held != ballot || holder != ids(client_id),
                    report::found_at(
                        i as usize,
                        wrote + " while "@ + holder + " held ballot "@ + text::nat_text(
                            held as nat,
                        ),
                    ),
                )
            }
        },
        _ => Seq::empty(),
    }
}

/// The rule that a write lands only inside the term that authorised it.
pub open spec fn landing_rule(
    merged: Seq<MergedView>,
    ids: spec_fn(i32) -> Seq<char>,
) -> spec_fn(int, MergedView) -> Seq<Finding> {
    |i: int, entry: MergedView| landing_findings(merged, ids, i, entry)
}

/// Every write that landed outside the term that authorised it.
pub open spec fn elector_fencing_findings(
    merged: Seq<MergedView>,
    ids: spec_fn(i32) -> Seq<char>,
) -> Seq<Finding> {
    report::gathered(merged, merged.len() as int, landing_rule(merged, ids))
}

fn fencing_report<F: Fn(i32) -> String>(merged: &[MergedEvent], leader_id: &F) -> (r:
    InvariantReport)
    requires
        forall|client_id: i32| #[trigger] call_requires(*leader_id, (client_id,)),
    ensures
        r.name@ == "ElectorFencingHolds"@,
        forall|ids: spec_fn(i32) -> Seq<char>| #[trigger]
            replay::names_by(*leader_id, ids) ==> r.says(
                "ElectorFencingHolds"@,
                elector_fencing_findings(merged_views(merged@), ids),
            ),
{
    let mut violations: Vec<Violation> = Vec::new();
    assert(report::findings(violations@) =~= Seq::<Finding>::empty());
    let ghost views = merged_views(merged@);
    let mut current: Option<usize> = None;
    let mut i: usize = 0;
    while i < merged.len()
        invariant
            i <= merged@.len(),
            views == merged_views(merged@),
            forall|client_id: i32| #[trigger] call_requires(*leader_id, (client_id,)),
            match current {
                Some(k) => k < i && last_transition(views, i as int) == Some(views[k as int].event)
                    && views[k as int].event is Transition,
                None => last_transition(views, i as int) is None,
            },
            forall|ids: spec_fn(i32) -> Seq<char>| #[trigger]
                replay::names_by(*leader_id, ids) ==> report::findings(violations@)
                    == report::gathered(views, i as int, landing_rule(views, ids)),
        decreases merged@.len() - i,
    {
        let ghost before = report::findings(violations@);
        assert(views[i as int] == merged@[i as int]@);
        match &merged[i].event {
            ElectorEvent::Transition { .. } => {
                current = Some(i);
            },
            ElectorEvent::FencedWrite { client_id, ballot, applied } => {
                if *applied {
                    if let Some(k) = current {
                        assert(views[k as int] == merged@[k as int]@);
                        if let ElectorEvent::Transition {
                            kind,
                            ballot: held,
                            leader_id: holder,
                        } = &merged[k].event {
                            let writer = leader_id(*client_id);
                            let ghost named = writer@;
                            let same_writer = same_text(holder.as_str(), writer.as_str());
                            let wrote = writer.concat(" committed a write fenced at ballot ").concat(
                                number_text(*ballot).as_str(),
                            );
                            if *kind == HistoryKind::Resign {
                                note(
                                    &mut violations,
                                    Violation::at(i, wrote.concat(" while nobody held the term")),
                                );
                            } else if *held != *ballot || !same_writer {
                                note(
                                    &mut violations,
                                    Violation::at(
                                        i,
                                        wrote.concat(" while ").concat(holder.as_str()).concat(
                                            " held ballot ",
                                        ).concat(number_text(*held).as_str()),
                                    ),
                                );
                            }
                        }
                    }
                }
            },
            _ => {},
        }
        proof {
            assert forall|ids: spec_fn(i32) -> Seq<char>| #[trigger]
                replay::names_by(*leader_id, ids) implies report::findings(violations@)
                == report::gathered(views, i as int + 1, landing_rule(views, ids)) by {
                assert(report::findings(violations@) =~= before + landing_findings(
                    views,
                    ids,
                    i as int,
                    views[i as int],
                ));
            }
        }
        i = i + 1;
    }
    InvariantReport::new("ElectorFencingHolds", violations)
}

/// A fenced write lands only inside the term that authorised it.
pub fn elector_fencing_holds<F: Fn(i32) -> String>(merged: &[MergedEvent], leader_id: F) -> (r:
    InvariantReport)
    requires
        forall|client_id: i32| #[trigger] call_requires(leader_id, (client_id,)),
    ensures
        r.name@ == "ElectorFencingHolds"@,
        forall|ids: spec_fn(i32) -> Seq<char>| #[trigger]
            replay::names_by(leader_id, ids) ==> r.says(
                "ElectorFencingHolds"@,
                elector_fencing_findings(merged_views(merged@), ids),
            ),
{
    fencing_report(merged, &leader_id)
}

/// Before the trail's first transition no write is judged.
pub proof fn writes_outside_the_window_are_not_judged(
    merged: Seq<MergedView>,
    ids: spec_fn(i32) -> Seq<char>,
)
    requires
        forall|i: int| 0 <= i < merged.len() ==> !((#[trigger] merged[i]).event is Transition),
    ensures
        elector_fencing_findings(merged, ids).len() == 0,
{
    let rule = landing_rule(merged, ids);
    report::nothing_gathered(merged, merged.len() as int, rule);
    assert forall|i: int| 0 <= i < merged.len() implies (#[trigger] rule(i, merged[i])).len()
        == 0 by {
        no_last_transition(merged, i);
    }
}

proof fn no_last_transition(merged: Seq<MergedView>, n: int)
    requires
        0 <= n <= merged.len(),
        forall|i: int| 0 <= i < n ==> !((#[trigger] merged[i]).event is Transition),
    ensures
        last_transition(merged, n) is None,
    decreases n,
{
    if n > 0 {
        no_last_transition(merged, n - 1);
    }
}

// ---------------------------------------------------------------------------
// No belief overlap
// ---------------------------------------------------------------------------

/// No two of the elector's clients believe they lead at the same time.
pub fn elector_no_belief_overlap(replay: &Replay, tolerances: &Tolerances) -> (r: InvariantReport)
    requires
        replay.beliefs@.len() * replay.beliefs@.len() <= usize::MAX,
    ensures
        r.says(
            "ElectorNoBeliefOverlap"@,
            report::capped(
                invariants::overlap_findings(
                    replay.beliefs@,
                    duration::low_bits(tolerances.belief_overlap@),
                ),
            ),
        ),
{
    let report = no_belief_overlap(replay, tolerances);
    InvariantReport::new("ElectorNoBeliefOverlap", report.violations)
}

// ---------------------------------------------------------------------------
// Belief honest
// ---------------------------------------------------------------------------

/// Whether some acquisition among the first `n` events granted `ballot` to
/// `holder`.
pub open spec fn granted(merged: Seq<MergedView>, ballot: u64, holder: Seq<char>, n: int) -> bool
    decreases n,
{
    n > 0 && (granted(merged, ballot, holder, n - 1) || (
    merged[n - 1].event matches EventView::Transition { kind, ballot: taken, leader_id }
        && takes_term(kind) && taken == ballot && leader_id == holder))
}

/// The furthest horizon `client_id`'s open belief at `ballot` has claimed in the
/// first `n` events, if one is open.
pub open spec fn open_horizon(merged: Seq<MergedView>, client_id: i32, ballot: u64, n: int) -> Option<
    u64,
>
    decreases n,
{
    if n <= 0 {
        None
    } else {
        let earlier = open_horizon(merged, client_id, ballot, n - 1);
        match merged[n - 1].event {
            EventView::BeliefBegin { client_id: c, ballot: b, horizon_nanos, .. } => if c
                == client_id && b == ballot {
                Some(
                    if earlier matches Some(horizon) && horizon > horizon_nanos {
                        earlier->Some_0
                    } else {
                        horizon_nanos
                    },
                )
            } else {
                earlier
            },
            EventView::BeliefEnd { client_id: c, ballot: b, .. } => if c == client_id && b
                == ballot {
                None
            } else {
                earlier
            },
            _ => earlier,
        }
    }
}

/// What is wrong with one event, if it begins or ends a belief: a begin at a
/// judgeable ballot nobody granted, an end of what never began, or an end at or
/// past the horizon.
pub open spec fn honesty_findings(
    merged: Seq<MergedView>,
    ids: spec_fn(i32) -> Seq<char>,
    i: int,
    entry: MergedView,
) -> Seq<Finding> {
    let at = i as usize;
    match entry.event {
        EventView::BeliefBegin { client_id, ballot, .. } => report::when(
            judgeable_from(merged) is Some && ballot >= judgeable_from(merged)->Some_0 && !granted(
                merged,
                ballot,
                ids(client_id),
                i,
            ),
            report::found_at(
                at,
                ids(client_id) + " began believing it held ballot "@ + text::nat_text(
                    ballot as nat,
                ) + ", which no earlier acquisition ever granted it"@,
            ),
        ),
        EventView::BeliefEnd { client_id, ballot, local_nanos } => match open_horizon(
            merged,
            client_id,
            ballot,
            i,
        ) {
            None => seq![
                report::found_at(
                    at,
                    ids(client_id) + " ended a belief at ballot "@ + text::nat_text(ballot as nat)
                        + " it never began"@,
                ),
            ],
            Some(horizon) => report::when(
                local_nanos >= horizon,
                report::found_at(
                    at,
                    ids(client_id) + " ended its belief at ballot "@ + text::nat_text(
                        ballot as nat,
                    ) + " at "@ + text::nat_text(local_nanos as nat) + " ns, at or past the "@
                        + text::nat_text(horizon as nat)
                        + " ns horizon it had computed: the horizon had already ended it"@,
                ),
            ),
        },
        _ => Seq::empty(),
    }
}

/// The rule that a logged belief is one the recipe granted.
pub open spec fn honesty_rule(
    merged: Seq<MergedView>,
    ids: spec_fn(i32) -> Seq<char>,
) -> spec_fn(int, MergedView) -> Seq<Finding> {
    |i: int, entry: MergedView| honesty_findings(merged, ids, i, entry)
}

/// Every belief that is a fiction.
pub open spec fn elector_honesty_findings(
    merged: Seq<MergedView>,
    ids: spec_fn(i32) -> Seq<char>,
) -> Seq<Finding> {
    report::gathered(merged, merged.len() as int, honesty_rule(merged, ids))
}

fn is_granted(merged: &[MergedEvent], ballot: u64, holder: &str, n: usize) -> (r: bool)
    requires
        n <= merged@.len(),
    ensures
        r == granted(merged_views(merged@), ballot, holder@, n as int),
{
    let mut found = false;
    let mut i: usize = 0;
    while i < n
        invariant
            i <= n <= merged@.len(),
            found == granted(merged_views(merged@), ballot, holder@, i as int),
        decreases n - i,
    {
        assert(merged_views(merged@)[i as int] == merged@[i as int]@);
        if let ElectorEvent::Transition { kind, ballot: taken, leader_id } = &merged[i].event {
            if *kind != HistoryKind::Resign && *taken == ballot && same_text(
                leader_id.as_str(),
                holder,
            ) {
                found = true;
            }
        }
        i = i + 1;
    }
    found
}

/// The horizon a client has open at a ballot.
#[derive(Clone, Copy)]
struct OpenHorizon {
    client_id: i32,
    ballot: u64,
    horizon: Option<u64>,
}

/// The position of a client's horizon at a ballot among the first `n` of a list,
/// or a negative number where it is not listed.
spec fn horizon_position(open: Seq<OpenHorizon>, client_id: i32, ballot: u64, n: int) -> int
    decreases n,
{
    if n <= 0 {
        -1
    } else if open[n - 1].client_id == client_id && open[n - 1].ballot == ballot {
        n - 1
    } else {
        horizon_position(open, client_id, ballot, n - 1)
    }
}

/// The horizon a list holds for a client at a ballot.
spec fn listed_horizon(open: Seq<OpenHorizon>, client_id: i32, ballot: u64) -> Option<u64> {
    let p = horizon_position(open, client_id, ballot, open.len() as int);
    if p >= 0 {
        open[p].horizon
    } else {
        None
    }
}

proof fn horizon_position_after_set(
    open: Seq<OpenHorizon>,
    p: int,
    horizon: Option<u64>,
    client_id: i32,
    ballot: u64,
    n: int,
)
    requires
        0 <= p < open.len(),
        0 <= n <= open.len(),
    ensures
        horizon_position(
            open.update(p, OpenHorizon { horizon, ..open[p] }),
            client_id,
            ballot,
            n,
        ) == horizon_position(open, client_id, ballot, n),
        -1 <= horizon_position(open, client_id, ballot, n) < n,
        horizon_position(open, client_id, ballot, n) >= 0 ==> open[horizon_position(
            open,
            client_id,
            ballot,
            n,
        )].client_id == client_id && open[horizon_position(
            open,
            client_id,
            ballot,
            n,
        )].ballot == ballot,
    decreases n,
{
    if n > 0 {
        horizon_position_after_set(open, p, horizon, client_id, ballot, n - 1);
    }
}

proof fn horizon_position_after_push(
    open: Seq<OpenHorizon>,
    last: OpenHorizon,
    client_id: i32,
    ballot: u64,
    n: int,
)
    requires
        0 <= n <= open.len(),
    ensures
        horizon_position(open.push(last), client_id, ballot, n) == horizon_position(
            open,
            client_id,
            ballot,
            n,
        ),
        -1 <= horizon_position(open, client_id, ballot, n) < n,
    decreases n,
{
    if n > 0 {
        horizon_position_after_push(open, last, client_id, ballot, n - 1);
    }
}

/// The horizon a list holds for a client at a ballot.
fn find_horizon(open: &Vec<OpenHorizon>, client_id: i32, ballot: u64) -> (r: (
    Option<usize>,
    Option<u64>,
))
    ensures
        match r.0 {
            Some(p) => p < open@.len() && horizon_position(
                open@,
                client_id,
                ballot,
                open@.len() as int,
            ) == p,
            None => horizon_position(open@, client_id, ballot, open@.len() as int) < 0,
        },
        r.1 == listed_horizon(open@, client_id, ballot),
{
    let mut i: usize = open.len();
    while i > 0
        invariant
            i <= open@.len(),
            horizon_position(open@, client_id, ballot, open@.len() as int) == horizon_position(
                open@,
                client_id,
                ballot,
                i as int,
            ),
        decreases i,
    {
        i = i - 1;
        if open[i].client_id == client_id && open[i].ballot == ballot {
            return (Some(i), open[i].horizon);
        }
    }
    (None, None)
}

/// Puts a horizon into a list for a client at a ballot.
fn list_horizon(open: &mut Vec<OpenHorizon>, client_id: i32, ballot: u64, horizon: Option<u64>)
    ensures
        listed_horizon(final(open)@, client_id, ballot) == horizon,
        forall|c: i32, b: u64|
            (c != client_id || b != ballot) ==> #[trigger] listed_horizon(final(open)@, c, b)
                == listed_horizon(old(open)@, c, b),
{
    let ghost before = open@;
    match find_horizon(open, client_id, ballot).0 {
        Some(p) => {
            let ghost set = OpenHorizon { horizon, ..before[p as int] };
            proof {
                horizon_position_after_set(
                    before,
                    p as int,
                    horizon,
                    client_id,
                    ballot,
                    before.len() as int,
                );
                assert forall|c: i32, b: u64| (c != client_id || b != ballot) implies #[trigger]
                    listed_horizon(before.update(p as int, set), c, b) == listed_horizon(
                    before,
                    c,
                    b,
                ) by {
                    horizon_position_after_set(
                        before,
                        p as int,
                        horizon,
                        c,
                        b,
                        before.len() as int,
                    );
                }
            }
            open.set(p, OpenHorizon { client_id, ballot, horizon });
            assert(open@ =~= before.update(p as int, set));
        },
        None => {
            let last = OpenHorizon { client_id, ballot, horizon };
            open.push(last);
            proof {
                assert forall|c: i32, b: u64| (c != client_id || b != ballot) implies #[trigger]
                    listed_horizon(open@, c, b) == listed_horizon(before, c, b) by {
                    horizon_position_after_push(before, last, c, b, before.len() as int);
                }
            }
        },
    }
}

fn honesty_report<F: Fn(i32) -> String>(merged: &[MergedEvent], leader_id: &F) -> (r:
    InvariantReport)
    requires
        forall|client_id: i32| #[trigger] call_requires(*leader_id, (client_id,)),
    ensures
        r.name@ == "ElectorBeliefHonest"@,
        forall|ids: spec_fn(i32) -> Seq<char>| #[trigger]
            replay::names_by(*leader_id, ids) ==> r.says(
                "ElectorBeliefHonest"@,
                elector_honesty_findings(merged_views(merged@), ids),
            ),
{
    let mut violations: Vec<Violation> = Vec::new();
    assert(report::findings(violations@) =~= Seq::<Finding>::empty());
    let ghost views = merged_views(merged@);
    let from = first_judgeable_ballot(merged);
    let mut open: Vec<OpenHorizon> = Vec::new();
    let mut i: usize = 0;
    while i < merged.len()
        invariant
            i <= merged@.len(),
            views == merged_views(merged@),
            from == judgeable_from(views),
            forall|client_id: i32| #[trigger] call_requires(*leader_id, (client_id,)),
            forall|c: i32, b: u64| #[trigger]
                listed_horizon(open@, c, b) == open_horizon(views, c, b, i as int),
            forall|ids: spec_fn(i32) -> Seq<char>| #[trigger]
                replay::names_by(*leader_id, ids) ==> report::findings(violations@)
                    == report::gathered(views, i as int, honesty_rule(views, ids)),
        decreases merged@.len() - i,
    {
        let ghost before = report::findings(violations@);
        let ghost open_before = open@;
        assert(views[i as int] == merged@[i as int]@);
        match &merged[i].event {
            ElectorEvent::BeliefBegin { client_id, ballot, horizon_nanos, .. } => {
                let believer = leader_id(*client_id);
                let judgeable = match from {
                    Some(first) => *ballot >= first,
                    None => false,
                };
                if judgeable && !is_granted(merged, *ballot, believer.as_str(), i) {
                    note(
                        &mut violations,
                        Violation::at(
                            i,
                            believer.concat(" began believing it held ballot ").concat(
                                number_text(*ballot).as_str(),
                            ).concat(", which no earlier acquisition ever granted it"),
                        ),
                    );
                }
                let furthest: u64 = match find_horizon(&open, *client_id, *ballot).1 {
                    Some(horizon) => if horizon > *horizon_nanos {
                        horizon
                    } else {
                        *horizon_nanos
                    },
                    None => *horizon_nanos,
                };
                assert(listed_horizon(open_before, *client_id, *ballot) == open_horizon(
                    views,
                    *client_id,
                    *ballot,
                    i as int,
                ));
                list_horizon(&mut open, *client_id, *ballot, Some(furthest));
            },
            ElectorEvent::BeliefEnd { client_id, ballot, local_nanos } => {
                let name = leader_id(*client_id);
                assert(listed_horizon(open_before, *client_id, *ballot) == open_horizon(
                    views,
                    *client_id,
                    *ballot,
                    i as int,
                ));
                match find_horizon(&open, *client_id, *ballot).1 {
                    None => {
                        note(
                            &mut violations,
                            Violation::at(
                                i,
                                name.concat(" ended a belief at ballot ").concat(
                                    number_text(*ballot).as_str(),
                                ).concat(" it never began"),
                            ),
                        );
                    },
                    Some(horizon) => {
                        if *local_nanos >= horizon {
                            note(
                                &mut violations,
                                Violation::at(
                                    i,
                                    name.concat(" ended its belief at ballot ").concat(
                                        number_text(*ballot).as_str(),
                                    ).concat(" at ").concat(
                                        number_text(*local_nanos).as_str(),
                                    ).concat(" ns, at or past the ").concat(
                                        number_text(horizon).as_str(),
                                    ).concat(
                                        " ns horizon it had computed: the horizon had already ended it",
                                    ),
                                ),
                            );
                        }
                    },
                }
                list_horizon(&mut open, *client_id, *ballot, None);
            },
            _ => {},
        }
        proof {
            assert forall|c: i32, b: u64| #[trigger] listed_horizon(open@, c, b) == open_horizon(
                views,
                c,
                b,
                i as int + 1,
            ) by {
                assert(listed_horizon(open_before, c, b) == open_horizon(views, c, b, i as int));
            }
            assert forall|ids: spec_fn(i32) -> Seq<char>| #[trigger]
                replay::names_by(*leader_id, ids) implies report::findings(violations@)
                == report::gathered(views, i as int + 1, honesty_rule(views, ids)) by {
                assert(report::findings(violations@) =~= before + honesty_findings(
                    views,
                    ids,
                    i as int,
                    views[i as int],
                ));
            }
        }
        i = i + 1;
    }
    InvariantReport::new("ElectorBeliefHonest", violations)
}

/// A logged belief is one the recipe actually granted.
pub fn elector_belief_honest<F: Fn(i32) -> String>(merged: &[MergedEvent], leader_id: F) -> (r:
    InvariantReport)
    requires
        forall|client_id: i32| #[trigger] call_requires(leader_id, (client_id,)),
    ensures
        r.name@ == "ElectorBeliefHonest"@,
        forall|ids: spec_fn(i32) -> Seq<char>| #[trigger]
            replay::names_by(leader_id, ids) ==> r.says(
                "ElectorBeliefHonest"@,
                elector_honesty_findings(merged_views(merged@), ids),
            ),
{
    honesty_report(merged, &leader_id)
}

// ---------------------------------------------------------------------------
// Snapshot agrees
// ---------------------------------------------------------------------------

/// The record the last transition of a history leaves.
pub open spec fn left_by(last: StampedView) -> SnapshotView {
    if last.kind is Resign {
        SnapshotView { ballot: last.ballot, leader_id: Seq::empty(), vacant: true }
    } else {
        SnapshotView { ballot: last.ballot, leader_id: last.leader_id, vacant: false }
    }
}

/// A snapshot, spelled out.
pub open spec fn snapshot_text(snapshot: SnapshotView) -> Seq<char> {
    "ElectorSnapshot { ballot: "@ + text::nat_text(snapshot.ballot as nat) + ", leader_id: "@
        + text::quoted_text(snapshot.leader_id) + ", vacant: "@ + text::bool_text(snapshot.vacant)
        + " }"@
}

/// A snapshot, spelled out.
fn snapshot_words(snapshot: &ElectorSnapshot) -> (r: String)
    ensures
        r@ == snapshot_text(snapshot@),
{
    "ElectorSnapshot { ballot: ".to_owned().concat(number_text(snapshot.ballot).as_str()).concat(
        ", leader_id: ",
    ).concat(quoted(snapshot.leader_id.as_str()).as_str()).concat(", vacant: ").concat(
        flag_text(snapshot.vacant),
    ).concat(" }")
}

/// What a snapshot, if there is one, says.
pub open spec fn snapshot_view(snapshot: Option<&ElectorSnapshot>) -> Option<SnapshotView> {
    match snapshot {
        Some(snapshot) => Some(snapshot@),
        None => None,
    }
}

/// What the record the database holds gets wrong about the last transition.
pub open spec fn agreement_findings(
    history: Seq<StampedView>,
    snapshot: Option<SnapshotView>,
) -> Seq<Finding> {
    let at = (history.len() - 1) as usize;
    match snapshot {
        None => report::when(
            history.len() > 0,
            report::found_at(
                at,
                "the history ends with "@ + invariants::history_kind_text(history.last().kind)
                    + " at ballot "@ + text::nat_text(history.last().ballot as nat)
                    + " but the database holds no record"@,
            ),
        ),
        Some(snapshot) => if history.len() == 0 {
            seq![
                report::found_overall(
                    "the database holds ballot "@ + text::nat_text(snapshot.ballot as nat)
                        + " but the history recorded no transition at all"@,
                ),
            ]
        } else {
            let last = history.last();
            report::when(
                left_by(last) != snapshot,
                report::found_at(
                    at,
                    "the history ends with "@ + invariants::history_kind_text(last.kind)
                        + " at ballot "@ + text::nat_text(last.ballot as nat) + " by "@
                        + last.leader_id + ", which demands "@ + snapshot_text(left_by(last))
                        + ", but the database holds "@ + snapshot_text(snapshot),
                ),
            )
        },
    }
}

/// The record the database holds is the one the last transition wrote.
pub fn elector_snapshot_agrees(
    history: &[StampedTransition],
    snapshot: Option<&ElectorSnapshot>,
) -> (r: InvariantReport)
    ensures
        r.says(
            "ElectorSnapshotAgrees"@,
            agreement_findings(stamped_views(history@), snapshot_view(snapshot)),
        ),
{
    let mut violations: Vec<Violation> = Vec::new();
    let n: usize = history.len();
    if n == 0 {
        if let Some(snapshot) = snapshot {
            note(
                &mut violations,
                Violation::global(
                    "the database holds ballot ".to_owned().concat(
                        number_text(snapshot.ballot).as_str(),
                    ).concat(" but the history recorded no transition at all"),
                ),
            );
        }
    } else {
        let last = &history[n - 1];
        assert(stamped_views(history@).last() == last@);
        match snapshot {
            None => {
                note(
                    &mut violations,
                    Violation::at(
                        n - 1,
                        "the history ends with ".to_owned().concat(last.kind.name()).concat(
                            " at ballot ",
                        ).concat(number_text(last.ballot).as_str()).concat(
                            " but the database holds no record",
                        ),
                    ),
                );
            },
            Some(snapshot) => {
                let expected = if last.kind == HistoryKind::Resign {
                    ElectorSnapshot { ballot: last.ballot, leader_id: String::new(), vacant: true }
                } else {
                    ElectorSnapshot {
                        ballot: last.ballot,
                        leader_id: last.leader_id.clone(),
                        vacant: false,
                    }
                };
                assert(expected@ =~= left_by(last@));
                let agrees = expected.ballot == snapshot.ballot && same_text(
                    expected.leader_id.as_str(),
                    snapshot.leader_id.as_str(),
                ) && expected.vacant == snapshot.vacant;
                if !agrees {
                    note(
                        &mut violations,
                        Violation::at(
                            n - 1,
                            "the history ends with ".to_owned().concat(last.kind.name()).concat(
                                " at ballot ",
                            ).concat(number_text(last.ballot).as_str()).concat(" by ").concat(
                                last.leader_id.as_str(),
                            ).concat(", which demands ").concat(
                                snapshot_words(&expected).as_str(),
                            ).concat(", but the database holds ").concat(
                                snapshot_words(snapshot).as_str(),
                            ),
                        ),
                    );
                }
            },
        }
    }
    assert(report::findings(violations@) =~= agreement_findings(
        stamped_views(history@),
        snapshot_view(snapshot),
    ));
    InvariantReport::new("ElectorSnapshotAgrees", violations)
}

/// The check passes exactly when there is neither history nor record, or the
/// record is the one the last transition leaves: a resign leaves the same ballot
/// vacant.
pub proof fn snapshot_agrees_exactly_when_the_last_transition_left_it(
    history: Seq<StampedView>,
    snapshot: Option<SnapshotView>,
)
    ensures
        agreement_findings(history, snapshot).len() == 0 <==> snapshot == if history.len() == 0 {
            None
        } else {
            Some(left_by(history.last()))
        },
{
}

// ---------------------------------------------------------------------------
// Progress made
// ---------------------------------------------------------------------------

/// How many of the first `n` history entries acquired a term.
pub open spec fn terms_won(history: Seq<StampedView>, n: int) -> nat
    decreases n,
{
    if n <= 0 {
        0
    } else {
        terms_won(history, n - 1) + if takes_term(history[n - 1].kind) {
            1nat
        } else {
            0nat
        }
    }
}

/// How many of the first `n` log entries are fenced writes that landed.
pub open spec fn writes_landed(log: Seq<LogEntry>, n: int) -> nat
    decreases n,
{
    if n <= 0 {
        0
    } else {
        writes_landed(log, n - 1) + if invariants::landed_write(log[n - 1]) {
            1nat
        } else {
            0nat
        }
    }
}

/// What the electors failed to achieve.
pub open spec fn elector_progress_findings(
    history: Seq<StampedView>,
    log: Seq<LogEntry>,
    thresholds: ElectorThresholds,
) -> Seq<Finding> {
    let acquisitions = terms_won(history, history.len() as int);
    let writes = writes_landed(log, log.len() as int);
    report::when(
        acquisitions < thresholds.min_acquisitions,
        report::found_overall(
            "the electors won "@ + text::nat_text(acquisitions) + " term(s), expected at least "@
                + text::nat_text(thresholds.min_acquisitions as nat),
        ),
    ) + report::when(
        writes < thresholds.min_fenced_writes,
        report::found_overall(
            text::nat_text(writes)
                + " fenced write(s) were applied under those terms, expected at least "@
                + text::nat_text(thresholds.min_fenced_writes as nat)
                + ": a term nobody wrote under proves nothing about fencing"@,
        ),
    )
}

/// The electors actually led, and wrote something under it.
pub fn elector_progress_made(
    history: &[StampedTransition],
    log: &[LogEntry],
    thresholds: &ElectorThresholds,
) -> (r: InvariantReport)
    ensures
        r.says(
            "ElectorProgressMade"@,
            elector_progress_findings(stamped_views(history@), log@, *thresholds),
        ),
{
    let mut violations: Vec<Violation> = Vec::new();
    let mut acquisitions: usize = 0;
    let mut i: usize = 0;
    while i < history.len()
        invariant
            i <= history@.len(),
            acquisitions <= i,
            acquisitions == terms_won(stamped_views(history@), i as int),
        decreases history@.len() - i,
    {
        assert(stamped_views(history@)[i as int] == history@[i as int]@);
        if history[i].kind != HistoryKind::Resign {
            acquisitions = acquisitions + 1;
        }
        i = i + 1;
    }
    if acquisitions < thresholds.min_acquisitions {
        note(
            &mut violations,
            Violation::global(
                "the electors won ".to_owned().concat(count_text(acquisitions).as_str()).concat(
                    " term(s), expected at least ",
                ).concat(count_text(thresholds.min_acquisitions).as_str()),
            ),
        );
    }
    let mut writes: usize = 0;
    let mut k: usize = 0;
    while k < log.len()
        invariant
            k <= log@.len(),
            writes <= k,
            writes == writes_landed(log@, k as int),
        decreases log@.len() - k,
    {
        if log[k].record.op == OpKind::FencedWrite && log[k].record.outcome.is_applied() {
            writes = writes + 1;
        }
        k = k + 1;
    }
    if writes < thresholds.min_fenced_writes {
        note(
            &mut violations,
            Violation::global(
                count_text(writes).concat(
                    " fenced write(s) were applied under those terms, expected at least ",
                ).concat(count_text(thresholds.min_fenced_writes).as_str()).concat(
                    ": a term nobody wrote under proves nothing about fencing",
                ),
            ),
        );
    }
    assert(report::findings(violations@) =~= elector_progress_findings(
        stamped_views(history@),
        log@,
        *thresholds,
    ));
    InvariantReport::new("ElectorProgressMade", violations)
}

// ---------------------------------------------------------------------------
// All of them
// ---------------------------------------------------------------------------

/// The names of the elector invariants, in the order they are checked.
pub open spec fn elector_invariant_names() -> Seq<Seq<char>> {
    seq![
        "ElectorTermsFromHistory"@,
        "ElectorFencingHolds"@,
        "ElectorNoBeliefOverlap"@,
        "ElectorBeliefHonest"@,
        "ElectorSnapshotAgrees"@,
        "ElectorProgressMade"@,
    ]
}

/// The names of the elector invariants, in the order they are checked.
pub fn elector_invariants() -> (r: Vec<&'static str>)
    ensures
        r@.len() == elector_invariant_names().len(),
        forall|i: int| 0 <= i < r@.len() ==> (#[trigger] r@[i])@ == elector_invariant_names()[i],
{
    let mut r: Vec<&'static str> = Vec::new();
    r.push("ElectorTermsFromHistory");
    r.push("ElectorFencingHolds");
    r.push("ElectorNoBeliefOverlap");
    r.push("ElectorBeliefHonest");
    r.push("ElectorSnapshotAgrees");
    r.push("ElectorProgressMade");
    r
}

/// Runs every elector invariant, in a fixed order.
pub fn check_elector<F: Fn(i32) -> String>(evidence: &ElectorEvidence<'_>, leader_id: F) -> (r: Vec<
    InvariantReport,
>)
    requires
        evidence.replay.beliefs@.len() * evidence.replay.beliefs@.len() <= usize::MAX,
        forall|client_id: i32| #[trigger] call_requires(leader_id, (client_id,)),
    ensures
        r@.len() == elector_invariant_names().len(),
        forall|i: int| 0 <= i < r@.len() ==> (#[trigger] r@[i]).name@ == elector_invariant_names()[i],
        report::findings(r@[0].violations@) == terms_findings(stamped_views(evidence.history@)),
        report::findings(r@[2].violations@) == report::capped(
            invariants::overlap_findings(
                evidence.replay.beliefs@,
                duration::low_bits(evidence.tolerances.belief_overlap@),
            ),
        ),
        report::findings(r@[4].violations@) == agreement_findings(
            stamped_views(evidence.history@),
            snapshot_view(evidence.snapshot),
        ),
        report::findings(r@[5].violations@) == elector_progress_findings(
            stamped_views(evidence.history@),
            evidence.log@,
            evidence.thresholds,
        ),
        forall|ids: spec_fn(i32) -> Seq<char>| #[trigger]
            replay::names_by(leader_id, ids) ==> {
                let events = unmerged(stamped_views(evidence.history@), evidence.log@);
                let merged = in_commit_order(events, events.len() as int);
                &&& report::findings(r@[1].violations@) == elector_fencing_findings(merged, ids)
                &&& report::findings(r@[3].violations@) == elector_honesty_findings(merged, ids)
            },
{
    let merged = merge(evidence.history, evidence.log);
    let mut r: Vec<InvariantReport> = Vec::new();
    r.push(elector_terms_from_history(evidence.history));
    r.push(fencing_report(merged.as_slice(), &leader_id));
    r.push(elector_no_belief_overlap(evidence.replay, &evidence.tolerances));
    r.push(honesty_report(merged.as_slice(), &leader_id));
    r.push(elector_snapshot_agrees(evidence.history, evidence.snapshot));
    r.push(elector_progress_made(evidence.history, evidence.log, &evidence.thresholds));
    r
}

} // verus!
