//! Commit-ordered replay of the operation log.
//!
//! Replay applies the writes the log says happened, in commit order, and
//! reconstructs what the leader record must look like as a result. It judges
//! nothing: an impossible sequence is replayed as written, and catching it is
//! the business of [`invariants`](crate::invariants).

use crate::log_schema;
use crate::log_schema::{LogEntry, ObservedIdentity, OpKind};
use crate::text;
use crate::text::number_text;
use vstd::prelude::*;
use vstd::string::*;

verus! {

/// The token a vacant record carries.
pub open spec fn zero_token() -> Seq<u8> {
    Seq::new(16, |i: int| 0u8)
}

/// Whether two tokens are the same.
pub fn same_token(a: &[u8; 16], b: &[u8; 16]) -> (r: bool)
    ensures
        r == (a == b),
        r == (a@ == b@),
{
    let mut i: usize = 0;
    while i < 16
        invariant
            i <= 16,
            forall|j: int| 0 <= j < i ==> a@[j] == b@[j],
        decreases 16 - i,
    {
        if a[i] != b[i] {
            assert(a@[i as int] != b@[i as int]);
            return false;
        }
        i = i + 1;
    }
    assert(a@ =~= b@);
    assert(a =~= b);
    true
}

/// The leader record as the log says it should be.
#[derive(Debug, PartialEq, Eq)]
pub struct ExpectedRecord {
    /// Term number.
    pub ballot: u64,
    /// Renewal counter within the term.
    pub generation: u64,
    /// Holder, empty when vacant.
    pub leader_id: String,
    /// Per-term token, all-zero when vacant.
    pub token: [u8; 16],
    /// Advertised lease, zero when vacant.
    pub lease_nanos: u64,
}

/// What an [`ExpectedRecord`] says.
#[verifier::ext_equal]
pub struct RecordView {
    pub ballot: u64,
    pub generation: u64,
    pub leader_id: Seq<char>,
    pub token: Seq<u8>,
    pub lease_nanos: u64,
}

impl View for ExpectedRecord {
    type V = RecordView;

    open spec fn view(&self) -> RecordView {
        RecordView {
            ballot: self.ballot,
            generation: self.generation,
            leader_id: self.leader_id@,
            token: self.token@,
            lease_nanos: self.lease_nanos,
        }
    }
}

impl RecordView {
    /// Whether the term was resigned rather than held.
    pub open spec fn vacant(self) -> bool {
        self.token == zero_token()
    }

    /// What observers track of the record.
    pub open spec fn identity(self) -> ObservedIdentity {
        ObservedIdentity {
            ballot: self.ballot,
            generation: self.generation,
            vacant: self.vacant(),
        }
    }
}

/// What an optional record says.
pub open spec fn record_view(record: Option<ExpectedRecord>) -> Option<RecordView> {
    match record {
        Some(record) => Some(record@),
        None => None,
    }
}

impl Clone for ExpectedRecord {
    fn clone(&self) -> (r: Self)
        ensures
            r@ == self@,
    {
        ExpectedRecord {
            ballot: self.ballot,
            generation: self.generation,
            leader_id: self.leader_id.clone(),
            token: self.token,
            lease_nanos: self.lease_nanos,
        }
    }
}

impl ExpectedRecord {
    /// Whether the term was resigned rather than held.
    pub fn is_vacant(&self) -> (r: bool)
        ensures
            r == self@.vacant(),
    {
        let zero: [u8; 16] = [0u8; 16];
        assert(zero@ =~= zero_token());
        let r = same_token(&self.token, &zero);
        assert(self.token@ == zero@ ==> self.token =~= zero);
        r
    }

    /// What observers track of the record.
    pub fn identity(&self) -> (r: ObservedIdentity)
        ensures
            r == self@.identity(),
    {
        ObservedIdentity {
            ballot: self.ballot,
            generation: self.generation,
            vacant: self.is_vacant(),
        }
    }
}

/// The kind of leader-record mutation a transition performed.
#[derive(Debug, Clone, Copy, PartialEq, Eq, Structural, Hash)]
pub enum TransitionKind {
    /// Took an absent or vacant record.
    Claim,
    /// Took a record from a holder.
    Steal,
    /// Bumped the generation at a fixed ballot.
    Renew,
    /// Wrote the vacant record.
    Resign,
}

/// The mutation an operation performs, if it performs one.
pub open spec fn kind_of(op: OpKind) -> Option<TransitionKind> {
    match op {
        OpKind::Claim => Some(TransitionKind::Claim),
        OpKind::Steal => Some(TransitionKind::Steal),
        OpKind::Renew => Some(TransitionKind::Renew),
        OpKind::Resign => Some(TransitionKind::Resign),
        _ => None,
    }
}

/// Whether a mutation starts a new term.
pub open spec fn acquires(kind: TransitionKind) -> bool {
    kind is Claim || kind is Steal
}

impl TransitionKind {
    /// The mutation an operation performs, if it performs one.
    pub fn from_op(op: OpKind) -> (r: Option<TransitionKind>)
        ensures
            r == kind_of(op),
            r is Some == log_schema::may_write_leader_record(op),
    {
        match op {
            OpKind::Claim => Some(TransitionKind::Claim),
            OpKind::Steal => Some(TransitionKind::Steal),
            OpKind::Renew => Some(TransitionKind::Renew),
            OpKind::Resign => Some(TransitionKind::Resign),
            _ => None,
        }
    }

    /// Whether this transition starts a new term.
    pub fn is_acquisition(self) -> (r: bool)
        ensures
            r == acquires(self),
    {
        matches!(self, TransitionKind::Claim | TransitionKind::Steal)
    }
}

/// One applied mutation of the leader record.
#[derive(Debug, Clone, PartialEq, Eq)]
pub struct Transition {
    /// Index of the entry in the replayed slice.
    pub index: usize,
    /// Which client committed it.
    pub client_id: i32,
    /// What it did.
    pub kind: TransitionKind,
    /// The ballot it wrote.
    pub ballot: u64,
    /// The generation it wrote.
    pub generation: u64,
    /// The leader id derived from the writing client.
    pub leader_id: String,
    /// The token it wrote, all-zero for a resign.
    pub token: [u8; 16],
    /// What the transaction read before deciding.
    pub observed: Option<ObservedIdentity>,
}

/// What a [`Transition`] says.
#[verifier::ext_equal]
pub struct TransitionView {
    pub index: usize,
    pub client_id: i32,
    pub kind: TransitionKind,
    pub ballot: u64,
    pub generation: u64,
    pub leader_id: Seq<char>,
    pub token: Seq<u8>,
    pub observed: Option<ObservedIdentity>,
}

impl View for Transition {
    type V = TransitionView;

    open spec fn view(&self) -> TransitionView {
        TransitionView {
            index: self.index,
            client_id: self.client_id,
            kind: self.kind,
            ballot: self.ballot,
            generation: self.generation,
            leader_id: self.leader_id@,
            token: self.token@,
            observed: self.observed,
        }
    }
}

/// One leadership interval, from acquisition to the transition that ended it.
#[derive(Debug, Clone, PartialEq, Eq)]
pub struct Term {
    /// The term number.
    pub ballot: u64,
    /// The client that held it.
    pub client_id: i32,
    /// The leader id it was held under.
    pub leader_id: String,
    /// The per-term token.
    pub token: [u8; 16],
    /// The lease it advertised.
    pub lease_nanos: u64,
    /// Entry index of the claim or steal that started it.
    pub start: usize,
    /// Entry index of the transition that ended it, if it ended.
    pub end: Option<usize>,
    /// Entry indices of the renewals inside it.
    pub renewals: Vec<usize>,
}

/// What a [`Term`] says.
#[verifier::ext_equal]
pub struct TermView {
    pub ballot: u64,
    pub client_id: i32,
    pub leader_id: Seq<char>,
    pub token: Seq<u8>,
    pub lease_nanos: u64,
    pub start: usize,
    pub end: Option<usize>,
    pub renewals: Seq<usize>,
}

impl View for Term {
    type V = TermView;

    open spec fn view(&self) -> TermView {
        TermView {
            ballot: self.ballot,
            client_id: self.client_id,
            leader_id: self.leader_id@,
            token: self.token@,
            lease_nanos: self.lease_nanos,
            start: self.start,
            end: self.end,
            renewals: self.renewals@,
        }
    }
}

impl TermView {
    /// Whether the term was still held at an entry index.
    pub open spec fn covers(self, index: int) -> bool {
        self.start <= index && (self.end matches Some(end) ==> index < end)
    }
}

impl Term {
    /// Whether this term was still held at `index`.
    pub fn covers(&self, index: usize) -> (r: bool)
        ensures
            r == self@.covers(index as int),
    {
        index >= self.start && match self.end {
            Some(end) => index < end,
            None => true,
        }
    }
}

/// One interval during which a client believed it led.
#[derive(Debug, Clone, Copy, PartialEq, Eq, Structural)]
pub struct Belief {
    /// The client that believed.
    pub client_id: i32,
    /// The term it believed it held.
    pub ballot: u64,
    /// Entry index of the belief-begin record.
    pub begin_index: usize,
    /// Entry index of the belief-end record, if the client ever said so.
    pub end_index: Option<usize>,
    /// True simulated time the belief began.
    pub begin_sim_nanos: u64,
    /// True simulated time the belief ended, if it did.
    pub end_sim_nanos: Option<u64>,
    /// The client's own clock when the belief began.
    pub begin_local_nanos: u64,
    /// The furthest horizon the client computed, on its own clock.
    pub horizon_nanos: u64,
}

/// `a + b`, or the largest `u64` where the sum does not fit.
pub open spec fn capped_sum(a: int, b: int) -> int {
    if a + b > u64::MAX {
        u64::MAX as int
    } else {
        a + b
    }
}

/// `a - b`, or zero where `b` is the larger.
pub open spec fn floored_difference(a: int, b: int) -> int {
    if a < b {
        0
    } else {
        a - b
    }
}

/// When a belief must be considered over, in simulated time: when it was ended,
/// or else as long after its begin as its horizon lay ahead of it.
pub open spec fn effective_end(belief: Belief) -> int {
    match belief.end_sim_nanos {
        Some(end) => end as int,
        None => capped_sum(
            belief.begin_sim_nanos as int,
            floored_difference(belief.horizon_nanos as int, belief.begin_local_nanos as int),
        ),
    }
}

impl Belief {
    /// When this belief must be considered over, in simulated time.
    pub fn effective_end_sim_nanos(&self) -> (r: u64)
        ensures
            r == effective_end(*self),
    {
        match self.end_sim_nanos {
            Some(end) => end,
            None => self.begin_sim_nanos.saturating_add(
                self.horizon_nanos.saturating_sub(self.begin_local_nanos),
            ),
        }
    }
}

/// A log entry that does not make sense on its own terms.
#[derive(Debug, Clone, PartialEq, Eq)]
pub struct Anomaly {
    /// Index of the offending entry.
    pub index: usize,
    /// What is wrong with it.
    pub detail: String,
}

/// What an [`Anomaly`] says.
#[verifier::ext_equal]
pub struct AnomalyView {
    pub index: usize,
    pub detail: Seq<char>,
}

impl View for Anomaly {
    type V = AnomalyView;

    open spec fn view(&self) -> AnomalyView {
        AnomalyView { index: self.index, detail: self.detail@ }
    }
}

/// What replaying a log produced.
#[derive(Debug, Clone, PartialEq, Eq)]
pub struct Replay {
    /// The record the log says the database should end up holding.
    pub final_state: Option<ExpectedRecord>,
    /// The state just before each entry, indexed like the entry slice.
    pub states_before: Vec<Option<ExpectedRecord>>,
    /// The applied mutations, in commit order.
    pub transitions: Vec<Transition>,
    /// The leadership intervals.
    pub terms: Vec<Term>,
    /// The belief intervals the drivers reported.
    pub beliefs: Vec<Belief>,
    /// Entries that are self-contradictory.
    pub anomalies: Vec<Anomaly>,
}

/// What a [`Replay`] says.
#[verifier::ext_equal]
pub struct ReplayView {
    pub final_state: Option<RecordView>,
    pub states_before: Seq<Option<RecordView>>,
    pub transitions: Seq<TransitionView>,
    pub terms: Seq<TermView>,
    pub beliefs: Seq<Belief>,
    pub anomalies: Seq<AnomalyView>,
}

/// What a list of optional records says.
pub open spec fn state_views(states: Seq<Option<ExpectedRecord>>) -> Seq<Option<RecordView>> {
    Seq::new(states.len(), |i: int| record_view(states[i]))
}

/// What a list of transitions says.
pub open spec fn transition_views(transitions: Seq<Transition>) -> Seq<TransitionView> {
    Seq::new(transitions.len(), |i: int| transitions[i]@)
}

/// What a list of terms says.
pub open spec fn term_views(terms: Seq<Term>) -> Seq<TermView> {
    Seq::new(terms.len(), |i: int| terms[i]@)
}

/// What a list of anomalies says.
pub open spec fn anomaly_views(anomalies: Seq<Anomaly>) -> Seq<AnomalyView> {
    Seq::new(anomalies.len(), |i: int| anomalies[i]@)
}

impl View for Replay {
    type V = ReplayView;

    open spec fn view(&self) -> ReplayView {
        ReplayView {
            final_state: record_view(self.final_state),
            states_before: state_views(self.states_before@),
            transitions: transition_views(self.transitions@),
            terms: term_views(self.terms@),
            beliefs: self.beliefs@,
            anomalies: anomaly_views(self.anomalies@),
        }
    }
}

impl Replay {
    /// Whether every transition names an entry whose prior state is recorded.
    pub open spec fn indexed(&self) -> bool {
        forall|i: int|
            0 <= i < self.transitions@.len() ==> (#[trigger] self.transitions@[i]).index
                < self.states_before@.len()
    }
}

// ---------------------------------------------------------------------------
// What a log says
// ---------------------------------------------------------------------------

/// Whether an entry moved the leader record.
pub open spec fn is_transition(entry: LogEntry) -> bool {
    entry.record.leader_record_written && kind_of(entry.record.op) is Some
}

/// The record a transition wrote: vacant for a resign, the claimant's otherwise.
pub open spec fn written_record(entry: LogEntry, leader_id: Seq<char>) -> RecordView {
    if entry.record.op is Resign {
        RecordView {
            ballot: entry.record.ballot,
            generation: entry.record.generation,
            leader_id: Seq::empty(),
            token: zero_token(),
            lease_nanos: 0,
        }
    } else {
        RecordView {
            ballot: entry.record.ballot,
            generation: entry.record.generation,
            leader_id,
            token: entry.record.token@,
            lease_nanos: entry.record.lease_nanos,
        }
    }
}

/// The leader record after the first `n` entries: what the last transition
/// among them wrote.
pub open spec fn state_after(
    entries: Seq<LogEntry>,
    ids: spec_fn(i32) -> Seq<char>,
    n: int,
) -> Option<RecordView>
    decreases n,
{
    if n <= 0 {
        None
    } else if is_transition(entries[n - 1]) {
        Some(written_record(entries[n - 1], ids(entries[n - 1].client_id)))
    } else {
        state_after(entries, ids, n - 1)
    }
}

/// The transition an entry is.
pub open spec fn transition_at(entry: LogEntry, index: int, leader_id: Seq<char>) -> TransitionView {
    TransitionView {
        index: index as usize,
        client_id: entry.client_id,
        kind: kind_of(entry.record.op)->Some_0,
        ballot: entry.record.ballot,
        generation: entry.record.generation,
        leader_id,
        token: if entry.record.op is Resign {
            zero_token()
        } else {
            entry.record.token@
        },
        observed: entry.record.observed,
    }
}

/// The transitions among the first `n` entries, in commit order.
pub open spec fn transitions_of(
    entries: Seq<LogEntry>,
    ids: spec_fn(i32) -> Seq<char>,
    n: int,
) -> Seq<TransitionView>
    decreases n,
{
    if n <= 0 {
        Seq::empty()
    } else {
        let earlier = transitions_of(entries, ids, n - 1);
        let entry = entries[n - 1];
        if is_transition(entry) {
            earlier.push(transition_at(entry, n - 1, ids(entry.client_id)))
        } else {
            earlier
        }
    }
}

/// The terms with the last one, if it is still open, ended at `index`.
pub open spec fn ended(terms: Seq<TermView>, index: int) -> Seq<TermView> {
    if terms.len() > 0 && terms.last().end is None {
        terms.update(terms.len() - 1, TermView { end: Some(index as usize), ..terms.last() })
    } else {
        terms
    }
}

/// The terms with the last one, if it is still open, renewed at `index`.
pub open spec fn renewed(terms: Seq<TermView>, index: int) -> Seq<TermView> {
    if terms.len() > 0 && terms.last().end is None {
        terms.update(
            terms.len() - 1,
            TermView { renewals: terms.last().renewals.push(index as usize), ..terms.last() },
        )
    } else {
        terms
    }
}

/// The term an acquisition starts.
pub open spec fn term_from(entry: LogEntry, index: int, leader_id: Seq<char>) -> TermView {
    TermView {
        ballot: entry.record.ballot,
        client_id: entry.client_id,
        leader_id,
        token: entry.record.token@,
        lease_nanos: entry.record.lease_nanos,
        start: index as usize,
        end: None,
        renewals: Seq::empty(),
    }
}

/// The leadership intervals the first `n` entries make: an acquisition ends the
/// open term and starts one, a renewal belongs to the open term, a resign ends
/// it.
pub open spec fn terms_of(
    entries: Seq<LogEntry>,
    ids: spec_fn(i32) -> Seq<char>,
    n: int,
) -> Seq<TermView>
    decreases n,
{
    if n <= 0 {
        Seq::empty()
    } else {
        let earlier = terms_of(entries, ids, n - 1);
        let entry = entries[n - 1];
        if !is_transition(entry) {
            earlier
        } else if acquires(kind_of(entry.record.op)->Some_0) {
            ended(earlier, n - 1).push(term_from(entry, n - 1, ids(entry.client_id)))
        } else if entry.record.op is Renew {
            renewed(earlier, n - 1)
        } else {
            ended(earlier, n - 1)
        }
    }
}

/// Whether a belief is `client_id`'s at `ballot` and has not been ended.
pub open spec fn open_belief(belief: Belief, client_id: i32, ballot: u64) -> bool {
    belief.client_id == client_id && belief.ballot == ballot && belief.end_index is None
}

/// The position of the open belief of `client_id` at `ballot` among the first
/// `n`, or a negative number where there is none.
pub open spec fn open_position(beliefs: Seq<Belief>, client_id: i32, ballot: u64, n: int) -> int
    decreases n,
{
    if n <= 0 {
        -1
    } else if open_belief(beliefs[n - 1], client_id, ballot) {
        n - 1
    } else {
        open_position(beliefs, client_id, ballot, n - 1)
    }
}

/// The beliefs after one more entry: a begin opens an interval or moves the
/// horizon of the one already open out, an end closes the open one.
pub open spec fn beliefs_with(beliefs: Seq<Belief>, entry: LogEntry, index: int) -> Seq<Belief> {
    let record = entry.record;
    let position = open_position(beliefs, entry.client_id, record.ballot, beliefs.len() as int);
    if record.op is BeliefBegin {
        if position >= 0 {
            let belief = beliefs[position];
            beliefs.update(
                position,
                Belief {
                    horizon_nanos: if record.horizon_nanos > belief.horizon_nanos {
                        record.horizon_nanos
                    } else {
                        belief.horizon_nanos
                    },
                    ..belief
                },
            )
        } else {
            beliefs.push(
                Belief {
                    client_id: entry.client_id,
                    ballot: record.ballot,
                    begin_index: index as usize,
                    end_index: None,
                    begin_sim_nanos: record.sim_nanos,
                    end_sim_nanos: None,
                    begin_local_nanos: record.local_nanos,
                    horizon_nanos: record.horizon_nanos,
                },
            )
        }
    } else if record.op is BeliefEnd && position >= 0 {
        beliefs.update(
            position,
            Belief {
                end_index: Some(index as usize),
                end_sim_nanos: Some(record.sim_nanos),
                ..beliefs[position]
            },
        )
    } else {
        beliefs
    }
}

/// The belief intervals the first `n` entries report.
pub open spec fn beliefs_of(entries: Seq<LogEntry>, n: int) -> Seq<Belief>
    decreases n,
{
    if n <= 0 {
        Seq::empty()
    } else {
        beliefs_with(beliefs_of(entries, n - 1), entries[n - 1], n - 1)
    }
}

/// What is wrong with one entry, given the beliefs open before it.
pub open spec fn anomalies_at(beliefs: Seq<Belief>, entry: LogEntry, index: int) -> Seq<AnomalyView> {
    let record = entry.record;
    let unmatched = if record.op is BeliefEnd && open_position(
        beliefs,
        entry.client_id,
        record.ballot,
        beliefs.len() as int,
    ) < 0 {
        seq![
            AnomalyView {
                index: index as usize,
                detail: "belief end at ballot "@ + text::nat_text(record.ballot as nat)
                    + " without a matching begin"@,
            },
        ]
    } else {
        Seq::empty()
    };
    if !record.leader_record_written {
        unmatched
    } else if kind_of(record.op) is None {
        unmatched.push(
            AnomalyView {
                index: index as usize,
                detail: "op "@ + log_schema::wire_name(record.op)
                    + " cannot write the leader record"@,
            },
        )
    } else {
        let rejected = if record.outcome is Applied {
            unmatched
        } else {
            unmatched.push(
                AnomalyView {
                    index: index as usize,
                    detail: "a rejected op reports having written the leader record"@,
                },
            )
        };
        if record.recovery_noop {
            rejected.push(
                AnomalyView {
                    index: index as usize,
                    detail: "a recovery no-op reports having written the leader record"@,
                },
            )
        } else {
            rejected
        }
    }
}

/// What is wrong with the first `n` entries, in commit order.
pub open spec fn anomalies_of(entries: Seq<LogEntry>, n: int) -> Seq<AnomalyView>
    decreases n,
{
    if n <= 0 {
        Seq::empty()
    } else {
        anomalies_of(entries, n - 1) + anomalies_at(
            beliefs_of(entries, n - 1),
            entries[n - 1],
            n - 1,
        )
    }
}

/// What replaying a log says, where `ids` names the clients.
pub open spec fn replay_of(entries: Seq<LogEntry>, ids: spec_fn(i32) -> Seq<char>) -> ReplayView {
    let n = entries.len() as int;
    ReplayView {
        final_state: state_after(entries, ids, n),
        states_before: Seq::new(entries.len(), |i: int| state_after(entries, ids, i)),
        transitions: transitions_of(entries, ids, n),
        terms: terms_of(entries, ids, n),
        beliefs: beliefs_of(entries, n),
        anomalies: anomalies_of(entries, n),
    }
}

/// Whether calling `leader_id` on a client always gives the name `ids` gives it.
pub open spec fn names_by<F: Fn(i32) -> String>(leader_id: F, ids: spec_fn(i32) -> Seq<char>) -> bool {
    forall|client_id: i32, id: String|
        #[trigger] call_ensures(leader_id, (client_id,), id) ==> id@ == ids(client_id)
}

/// The position of the open belief of `client_id` at `ballot`, if there is one.
fn find_open_belief(beliefs: &Vec<Belief>, client_id: i32, ballot: u64) -> (r: Option<usize>)
    ensures
        match r {
            Some(i) => i < beliefs@.len() && open_position(
                beliefs@,
                client_id,
                ballot,
                beliefs@.len() as int,
            ) == i,
            None => open_position(beliefs@, client_id, ballot, beliefs@.len() as int) < 0,
        },
{
    let mut i: usize = beliefs.len();
    while i > 0
        invariant
            i <= beliefs@.len(),
            open_position(beliefs@, client_id, ballot, beliefs@.len() as int) == open_position(
                beliefs@,
                client_id,
                ballot,
                i as int,
            ),
        decreases i,
    {
        i = i - 1;
        let belief = &beliefs[i];
        if belief.client_id == client_id && belief.ballot == ballot && belief.end_index.is_none() {
            return Some(i);
        }
    }
    None
}

/// Records one belief entry.
fn note_belief(beliefs: &mut Vec<Belief>, entry: &LogEntry, index: usize)
    ensures
        final(beliefs)@ == beliefs_with(old(beliefs)@, *entry, index as int),
{
    let record = &entry.record;
    match record.op {
        OpKind::BeliefBegin => match find_open_belief(beliefs, entry.client_id, record.ballot) {
            Some(existing) => {
                let mut belief = beliefs[existing];
                if record.horizon_nanos > belief.horizon_nanos {
                    belief.horizon_nanos = record.horizon_nanos;
                }
                beliefs.set(existing, belief);
            },
            None => {
                beliefs.push(
                    Belief {
                        client_id: entry.client_id,
                        ballot: record.ballot,
                        begin_index: index,
                        end_index: None,
                        begin_sim_nanos: record.sim_nanos,
                        end_sim_nanos: None,
                        begin_local_nanos: record.local_nanos,
                        horizon_nanos: record.horizon_nanos,
                    },
                );
            },
        },
        OpKind::BeliefEnd => match find_open_belief(beliefs, entry.client_id, record.ballot) {
            Some(existing) => {
                let mut belief = beliefs[existing];
                belief.end_index = Some(index);
                belief.end_sim_nanos = Some(record.sim_nanos);
                beliefs.set(existing, belief);
            },
            None => {},
        },
        _ => {},
    }
}

/// Adds one anomaly.
fn note_anomaly(anomalies: &mut Vec<Anomaly>, index: usize, detail: String)
    ensures
        anomaly_views(final(anomalies)@) == anomaly_views(old(anomalies)@).push(
            AnomalyView { index, detail: detail@ },
        ),
{
    anomalies.push(Anomaly { index, detail });
    assert(anomaly_views(anomalies@) =~= anomaly_views(old(anomalies)@).push(
        AnomalyView { index, detail: detail@ },
    ));
}

/// Notes what is wrong with one entry, given the beliefs open before it.
fn note_anomalies(anomalies: &mut Vec<Anomaly>, beliefs: &Vec<Belief>, entry: &LogEntry, index: usize)
    ensures
        anomaly_views(final(anomalies)@) == anomaly_views(old(anomalies)@) + anomalies_at(
            beliefs@,
            *entry,
            index as int,
        ),
{
    let record = &entry.record;
    if record.op == OpKind::BeliefEnd && find_open_belief(
        beliefs,
        entry.client_id,
        record.ballot,
    ).is_none() {
        note_anomaly(
            anomalies,
            index,
            "belief end at ballot ".to_owned().concat(number_text(record.ballot).as_str()).concat(
                " without a matching begin",
            ),
        );
    }
    if record.leader_record_written {
        if TransitionKind::from_op(record.op).is_none() {
            note_anomaly(
                anomalies,
                index,
                "op ".to_owned().concat(record.op.as_str()).concat(" cannot write the leader record"),
            );
        } else {
            if !record.outcome.is_applied() {
                note_anomaly(
                    anomalies,
                    index,
                    "a rejected op reports having written the leader record".to_owned(),
                );
            }
            if record.recovery_noop {
                note_anomaly(
                    anomalies,
                    index,
                    "a recovery no-op reports having written the leader record".to_owned(),
                );
            }
        }
    }
    assert(anomaly_views(anomalies@) =~= anomaly_views(old(anomalies)@) + anomalies_at(
        beliefs@,
        *entry,
        index as int,
    ));
}

/// Ends the open term, if there is one, at `index`.
fn end_open_term(terms: &mut Vec<Term>, index: usize)
    ensures
        term_views(final(terms)@) == ended(term_views(old(terms)@), index as int),
{
    let n: usize = terms.len();
    if n > 0 && terms[n - 1].end.is_none() {
        match terms.pop() {
            Some(last) => {
                let mut last = last;
                last.end = Some(index);
                terms.push(last);
            },
            None => {},
        }
    }
    assert(term_views(terms@) =~= ended(term_views(old(terms)@), index as int));
}

/// Notes a renewal of the open term, if there is one.
fn renew_open_term(terms: &mut Vec<Term>, index: usize)
    ensures
        term_views(final(terms)@) == renewed(term_views(old(terms)@), index as int),
{
    let n: usize = terms.len();
    if n > 0 && terms[n - 1].end.is_none() {
        match terms.pop() {
            Some(last) => {
                let mut last = last;
                last.renewals.push(index);
                terms.push(last);
            },
            None => {},
        }
    }
    assert(term_views(terms@) =~= renewed(term_views(old(terms)@), index as int));
}

/// Replays a log in commit order.
///
/// `leader_id` maps a client id to the identifier that client claims under.
pub fn replay<F: Fn(i32) -> String>(entries: &[LogEntry], leader_id: F) -> (out: Replay)
    requires
        forall|client_id: i32| #[trigger] call_requires(leader_id, (client_id,)),
    ensures
        forall|ids: spec_fn(i32) -> Seq<char>| #[trigger]
            names_by(leader_id, ids) ==> out@ == replay_of(entries@, ids),
        out.beliefs@ == beliefs_of(entries@, entries@.len() as int),
        anomaly_views(out.anomalies@) == anomalies_of(entries@, entries@.len() as int),
        out.states_before@.len() == entries@.len(),
        out.indexed(),
{
    let mut state: Option<ExpectedRecord> = None;
    let mut states_before: Vec<Option<ExpectedRecord>> = Vec::new();
    let mut transitions: Vec<Transition> = Vec::new();
    let mut terms: Vec<Term> = Vec::new();
    let mut beliefs: Vec<Belief> = Vec::new();
    let mut anomalies: Vec<Anomaly> = Vec::new();
    assert(anomaly_views(anomalies@) =~= anomalies_of(entries@, 0));
    proof {
        assert forall|ids: spec_fn(i32) -> Seq<char>| #[trigger]
            names_by(leader_id, ids) implies replayed_so_far(
            entries@,
            ids,
            0,
            state,
            states_before@,
            transitions@,
            terms@,
        ) by {
            assert(state_views(states_before@) =~= Seq::new(
                0,
                |k: int| state_after(entries@, ids, k),
            ));
            assert(transition_views(transitions@) =~= transitions_of(entries@, ids, 0));
            assert(term_views(terms@) =~= terms_of(entries@, ids, 0));
        }
    }
    let mut i: usize = 0;
    while i < entries.len()
        invariant
            i <= entries@.len(),
            forall|client_id: i32| #[trigger] call_requires(leader_id, (client_id,)),
            forall|ids: spec_fn(i32) -> Seq<char>| #[trigger]
                names_by(leader_id, ids) ==> replayed_so_far(
                    entries@,
                    ids,
                    i as int,
                    state,
                    states_before@,
                    transitions@,
                    terms@,
                ),
            beliefs@ == beliefs_of(entries@, i as int),
            anomaly_views(anomalies@) == anomalies_of(entries@, i as int),
            states_before@.len() == i,
            forall|k: int| 0 <= k < transitions@.len() ==> (#[trigger] transitions@[k]).index < i,
        decreases entries@.len() - i,
    {
        let entry = &entries[i];
        let record = &entry.record;
        let ghost old_state = state;
        let ghost old_states = states_before@;
        let ghost old_transitions = transitions@;
        let ghost old_terms = terms@;
        states_before.push(
            match &state {
                Some(record) => Some(record.clone()),
                None => None,
            },
        );
        note_anomalies(&mut anomalies, &beliefs, entry, i);
        note_belief(&mut beliefs, entry, i);
        let kind = if record.leader_record_written {
            TransitionKind::from_op(record.op)
        } else {
            None
        };
        if let Some(kind) = kind {
            let id = leader_id(entry.client_id);
            if kind.is_acquisition() {
                end_open_term(&mut terms, i);
                let ghost ended_terms = terms@;
                terms.push(
                    Term {
                        ballot: record.ballot,
                        client_id: entry.client_id,
                        leader_id: id.clone(),
                        token: record.token,
                        lease_nanos: record.lease_nanos,
                        start: i,
                        end: None,
                        renewals: Vec::new(),
                    },
                );
                assert(term_views(terms@) =~= term_views(ended_terms).push(
                    term_from(*entry, i as int, id@),
                ));
            } else if kind == TransitionKind::Renew {
                renew_open_term(&mut terms, i);
            } else {
                end_open_term(&mut terms, i);
            }
            state = Some(
                if kind == TransitionKind::Resign {
                    ExpectedRecord {
                        ballot: record.ballot,
                        generation: record.generation,
                        leader_id: String::new(),
                        token: [0u8; 16],
                        lease_nanos: 0,
                    }
                } else {
                    ExpectedRecord {
                        ballot: record.ballot,
                        generation: record.generation,
                        leader_id: id.clone(),
                        token: record.token,
                        lease_nanos: record.lease_nanos,
                    }
                },
            );
            proof {
                assert(record_view(state) == Some(written_record(*entry, id@))) by {
                    assert(state->Some_0@ =~= written_record(*entry, id@));
                }
            }
            let token = if kind == TransitionKind::Resign {
                [0u8; 16]
            } else {
                record.token
            };
            assert(entry.record.op is Resign ==> token@ =~= zero_token());
            transitions.push(
                Transition {
                    index: i,
                    client_id: entry.client_id,
                    kind,
                    ballot: record.ballot,
                    generation: record.generation,
                    leader_id: id,
                    token,
                    observed: record.observed,
                },
            );
            assert(transition_views(transitions@) =~= transition_views(old_transitions).push(
                transition_at(*entry, i as int, id@),
            ));
        }
        proof {
            assert forall|ids: spec_fn(i32) -> Seq<char>| #[trigger]
                names_by(leader_id, ids) implies replayed_so_far(
                entries@,
                ids,
                i as int + 1,
                state,
                states_before@,
                transitions@,
                terms@,
            ) by {
                assert(replayed_so_far(
                    entries@,
                    ids,
                    i as int,
                    old_state,
                    old_states,
                    old_transitions,
                    old_terms,
                ));
                assert(state_views(states_before@) =~= Seq::new(
                    (i + 1) as nat,
                    |k: int| state_after(entries@, ids, k),
                )) by {
                    assert forall|k: int| 0 <= k < i implies record_view(states_before@[k])
                        == state_after(entries@, ids, k) by {
                        assert(state_views(old_states)[k] == state_after(entries@, ids, k));
                    }
                }
            }
        }
        i = i + 1;
    }
    let out = Replay { final_state: state, states_before, transitions, terms, beliefs, anomalies };
    proof {
        assert forall|ids: spec_fn(i32) -> Seq<char>| #[trigger]
            names_by(leader_id, ids) implies out@ == replay_of(entries@, ids) by {
            assert(replayed_so_far(
                entries@,
                ids,
                entries@.len() as int,
                state,
                states_before@,
                transitions@,
                terms@,
            ));
            assert(out@ =~= replay_of(entries@, ids));
        }
    }
    out
}

/// Whether the parts of a replay that name clients stand where the first `n`
/// entries put them.
spec fn replayed_so_far(
    entries: Seq<LogEntry>,
    ids: spec_fn(i32) -> Seq<char>,
    n: int,
    state: Option<ExpectedRecord>,
    states_before: Seq<Option<ExpectedRecord>>,
    transitions: Seq<Transition>,
    terms: Seq<Term>,
) -> bool {
    &&& record_view(state) == state_after(entries, ids, n)
    &&& state_views(states_before) == Seq::new(n as nat, |i: int| state_after(entries, ids, i))
    &&& transition_views(transitions) == transitions_of(entries, ids, n)
    &&& term_views(terms) == terms_of(entries, ids, n)
}

/// The position of the last of the first `n` transitions before entry `before`
/// that left the record at `identity`, or a negative number where none did.
pub open spec fn producer_position(
    transitions: Seq<TransitionView>,
    identity: ObservedIdentity,
    before: int,
    n: int,
) -> int
    decreases n,
{
    if n <= 0 {
        -1
    } else {
        let t = transitions[n - 1];
        if produces(t, identity, before) {
            n - 1
        } else {
            producer_position(transitions, identity, before, n - 1)
        }
    }
}

/// The position of the first term at or after `from` that covers an entry, or
/// the number of terms where none does.
pub open spec fn covering_position(terms: Seq<TermView>, index: int, from: int) -> int
    decreases terms.len() - from,
{
    if from >= terms.len() || terms[from].covers(index) {
        from
    } else {
        covering_position(terms, index, from + 1)
    }
}

impl Replay {
    /// The last transition before entry `before` that produced `identity`.
    pub fn transition_producing(&self, identity: ObservedIdentity, before: usize) -> (r: Option<
        &Transition,
    >)
        ensures
            ({
                let p = producer_position(
                    self@.transitions,
                    identity,
                    before as int,
                    self.transitions@.len() as int,
                );
                match r {
                    Some(t) => 0 <= p < self.transitions@.len() && *t == self.transitions@[p],
                    None => p < 0,
                }
            }),
    {
        let mut i: usize = self.transitions.len();
        while i > 0
            invariant
                i <= self.transitions@.len(),
                producer_position(
                    self@.transitions,
                    identity,
                    before as int,
                    self.transitions@.len() as int,
                ) == producer_position(self@.transitions, identity, before as int, i as int),
            decreases i,
        {
            i = i - 1;
            let t = &self.transitions[i];
            assert(self@.transitions[i as int] == t@);
            if t.index < before && t.ballot == identity.ballot && t.generation
                == identity.generation && (t.kind == TransitionKind::Resign) == identity.vacant {
                return Some(t);
            }
        }
        None
    }

    /// The term that was held at `index`, if any.
    pub fn term_at(&self, index: usize) -> (r: Option<&Term>)
        ensures
            ({
                let p = covering_position(self@.terms, index as int, 0);
                match r {
                    Some(t) => 0 <= p < self.terms@.len() && *t == self.terms@[p],
                    None => p == self.terms@.len(),
                }
            }),
    {
        let mut i: usize = 0;
        while i < self.terms.len()
            invariant
                i <= self.terms@.len(),
                covering_position(self@.terms, index as int, 0) == covering_position(
                    self@.terms,
                    index as int,
                    i as int,
                ),
            decreases self.terms@.len() - i,
        {
            assert(self@.terms[i as int] == self.terms@[i as int]@);
            if self.terms[i].covers(index) {
                return Some(&self.terms[i]);
            }
            i = i + 1;
        }
        None
    }
}

// ---------------------------------------------------------------------------
// Laws of replay
// ---------------------------------------------------------------------------

/// Only an entry that wrote the leader record moves anything: any other leaves
/// the state, the transitions and the terms as they were. A recovered unknown
/// commit reports success and writes nothing, so it is never a second
/// transition.
pub proof fn only_written_records_move_the_state(
    entries: Seq<LogEntry>,
    ids: spec_fn(i32) -> Seq<char>,
    i: int,
)
    requires
        0 <= i < entries.len(),
        !entries[i].record.leader_record_written,
    ensures
        state_after(entries, ids, i + 1) == state_after(entries, ids, i),
        transitions_of(entries, ids, i + 1) == transitions_of(entries, ids, i),
        terms_of(entries, ids, i + 1) == terms_of(entries, ids, i),
{
}

/// Replay believes what it is told: a transition leaves exactly the ballot and
/// generation it says it wrote, whatever stood there before.
pub proof fn a_transition_is_replayed_as_written(
    entries: Seq<LogEntry>,
    ids: spec_fn(i32) -> Seq<char>,
    i: int,
)
    requires
        0 <= i < entries.len(),
        is_transition(entries[i]),
    ensures
        state_after(entries, ids, i + 1) is Some,
        state_after(entries, ids, i + 1)->Some_0.ballot == entries[i].record.ballot,
        state_after(entries, ids, i + 1)->Some_0.generation == entries[i].record.generation,
{
}

/// A resign leaves the record vacant, at the ballot and generation it names.
pub proof fn a_resign_leaves_the_record_vacant(
    entries: Seq<LogEntry>,
    ids: spec_fn(i32) -> Seq<char>,
    i: int,
)
    requires
        0 <= i < entries.len(),
        is_transition(entries[i]),
        entries[i].record.op is Resign,
    ensures
        state_after(entries, ids, i + 1) is Some,
        state_after(entries, ids, i + 1)->Some_0.vacant(),
        state_after(entries, ids, i + 1)->Some_0.identity() == (ObservedIdentity {
            ballot: entries[i].record.ballot,
            generation: entries[i].record.generation,
            vacant: true,
        }),
{
}

/// Every transition is the entry it names, and the transitions come in commit
/// order.
pub proof fn transitions_are_in_commit_order(
    entries: Seq<LogEntry>,
    ids: spec_fn(i32) -> Seq<char>,
    n: int,
)
    requires
        0 <= n <= entries.len() <= usize::MAX,
    ensures
        forall|k: int|
            0 <= k < transitions_of(entries, ids, n).len() ==> {
                let t = #[trigger] transitions_of(entries, ids, n)[k];
                &&& t.index < n
                &&& is_transition(entries[t.index as int])
                &&& t == transition_at(
                    entries[t.index as int],
                    t.index as int,
                    ids(entries[t.index as int].client_id),
                )
            },
        forall|j: int, k: int|
            0 <= j < k < transitions_of(entries, ids, n).len() ==> (#[trigger] transitions_of(
                entries,
                ids,
                n,
            )[j]).index < (#[trigger] transitions_of(entries, ids, n)[k]).index,
    decreases n,
{
    if n > 0 {
        transitions_are_in_commit_order(entries, ids, n - 1);
    }
}

/// Every entry that moved the leader record has its transition.
pub proof fn every_write_is_a_transition(
    entries: Seq<LogEntry>,
    ids: spec_fn(i32) -> Seq<char>,
    n: int,
    i: int,
)
    requires
        0 <= i < n <= entries.len() <= usize::MAX,
        is_transition(entries[i]),
    ensures
        transitions_of(entries, ids, n).contains(
            transition_at(entries[i], i, ids(entries[i].client_id)),
        ),
    decreases n,
{
    let earlier = transitions_of(entries, ids, n - 1);
    let wanted = transition_at(entries[i], i, ids(entries[i].client_id));
    if i == n - 1 {
        assert(transitions_of(entries, ids, n).last() == wanted);
    } else {
        every_write_is_a_transition(entries, ids, n - 1, i);
        let k = choose|k: int| 0 <= k < earlier.len() && earlier[k] == wanted;
        assert(transitions_of(entries, ids, n)[k] == wanted);
    }
}

/// Terms follow each other: each ends no later than the next one starts, only
/// the last can still be open, and a term's renewals lie inside it.
pub proof fn terms_follow_each_other(
    entries: Seq<LogEntry>,
    ids: spec_fn(i32) -> Seq<char>,
    n: int,
)
    requires
        0 <= n <= entries.len() <= usize::MAX,
    ensures
        forall|j: int|
            0 <= j < terms_of(entries, ids, n).len() ==> {
                let term = #[trigger] terms_of(entries, ids, n)[j];
                &&& term.start < n
                &&& (term.end matches Some(end) ==> term.start < end < n)
                &&& (forall|r: int|
                    0 <= r < term.renewals.len() ==> term.start < #[trigger] term.renewals[r] < n
                        && (term.end matches Some(end) ==> term.renewals[r] < end))
            },
        forall|j: int, k: int|
            0 <= j < k < terms_of(entries, ids, n).len() ==> {
                let earlier = #[trigger] terms_of(entries, ids, n)[j];
                let later = #[trigger] terms_of(entries, ids, n)[k];
                earlier.end is Some && earlier.end->Some_0 <= later.start
            },
    decreases n,
{
    if n > 0 {
        terms_follow_each_other(entries, ids, n - 1);
        let before = terms_of(entries, ids, n - 1);
        let after = terms_of(entries, ids, n);
        let entry = entries[n - 1];
        let closed = ended(before, n - 1);
        assert forall|j: int| 0 <= j < closed.len() implies {
            let term = #[trigger] closed[j];
            &&& term.start < n
            &&& (term.end matches Some(end) ==> term.start < end < n)
            &&& (forall|r: int|
                0 <= r < term.renewals.len() ==> term.start < #[trigger] term.renewals[r] < n && (
                term.end matches Some(end) ==> term.renewals[r] < end))
        } by {
            let prior = before[j];
            assert(closed[j].renewals == prior.renewals);
        }
        assert forall|j: int, k: int| 0 <= j < k < closed.len() implies {
            let earlier = #[trigger] closed[j];
            let later = #[trigger] closed[k];
            earlier.end is Some && earlier.end->Some_0 <= later.start
        } by {
            assert(before[j].end is Some && before[j].end->Some_0 <= before[k].start);
        }
        if closed.len() > 0 {
            let last = closed[closed.len() - 1];
            assert(before[before.len() - 1].start < n - 1);
            assert(last.end is Some && last.end->Some_0 <= n - 1);
        }
        if is_transition(entry) && !acquires(kind_of(entry.record.op)->Some_0) && entry.record.op
            is Renew {
            assert forall|j: int| 0 <= j < after.len() implies {
                let term = #[trigger] after[j];
                &&& term.start < n
                &&& (term.end matches Some(end) ==> term.start < end < n)
                &&& (forall|r: int|
                    0 <= r < term.renewals.len() ==> term.start < #[trigger] term.renewals[r] < n
                        && (term.end matches Some(end) ==> term.renewals[r] < end))
            } by {
                let prior = before[j];
                let term = after[j];
                assert(prior.start < n - 1);
                assert forall|r: int| 0 <= r < term.renewals.len() implies term.start
                    < #[trigger] term.renewals[r] < n && (term.end matches Some(end)
                    ==> term.renewals[r] < end) by {
                    if r < prior.renewals.len() {
                        assert(term.renewals[r] == prior.renewals[r]);
                    }
                }
            }
            assert forall|j: int, k: int| 0 <= j < k < after.len() implies {
                let earlier = #[trigger] after[j];
                let later = #[trigger] after[k];
                earlier.end is Some && earlier.end->Some_0 <= later.start
            } by {
                assert(before[j].end is Some && before[j].end->Some_0 <= before[k].start);
            }
        }
    }
}

/// At most one term covers an entry.
pub proof fn at_most_one_term_covers(
    entries: Seq<LogEntry>,
    ids: spec_fn(i32) -> Seq<char>,
    n: int,
    j: int,
    k: int,
    index: int,
)
    requires
        0 <= n <= entries.len() <= usize::MAX,
        0 <= j < terms_of(entries, ids, n).len(),
        0 <= k < terms_of(entries, ids, n).len(),
        terms_of(entries, ids, n)[j].covers(index),
        terms_of(entries, ids, n)[k].covers(index),
    ensures
        j == k,
{
    terms_follow_each_other(entries, ids, n);
    let terms = terms_of(entries, ids, n);
    if j < k {
        assert(terms[j].end is Some && terms[j].end->Some_0 <= terms[k].start);
    } else if k < j {
        assert(terms[k].end is Some && terms[k].end->Some_0 <= terms[j].start);
    }
}

proof fn open_position_found(beliefs: Seq<Belief>, client_id: i32, ballot: u64, n: int)
    requires
        0 <= n <= beliefs.len(),
    ensures
        ({
            let p = open_position(beliefs, client_id, ballot, n);
            &&& -1 <= p < n
            &&& p >= 0 ==> open_belief(beliefs[p], client_id, ballot)
            &&& forall|k: int| p < k < n ==> !open_belief(#[trigger] beliefs[k], client_id, ballot)
        }),
    decreases n,
{
    if n > 0 {
        open_position_found(beliefs, client_id, ballot, n - 1);
    }
}

/// A client has at most one open belief at a ballot, and a belief was ended
/// exactly when its end was recorded, after it began.
pub proof fn a_belief_is_open_once(entries: Seq<LogEntry>, n: int)
    requires
        0 <= n <= entries.len() <= usize::MAX,
    ensures
        forall|j: int, k: int|
            0 <= j < k < beliefs_of(entries, n).len() ==> {
                let a = #[trigger] beliefs_of(entries, n)[j];
                let b = #[trigger] beliefs_of(entries, n)[k];
                !(a.end_index is None && b.end_index is None && a.client_id == b.client_id
                    && a.ballot == b.ballot)
            },
        forall|j: int|
            0 <= j < beliefs_of(entries, n).len() ==> {
                let a = #[trigger] beliefs_of(entries, n)[j];
                &&& a.begin_index < n
                &&& (a.end_index is None <==> a.end_sim_nanos is None)
                &&& (a.end_index matches Some(end) ==> a.begin_index < end < n)
            },
    decreases n,
{
    if n > 0 {
        a_belief_is_open_once(entries, n - 1);
        let before = beliefs_of(entries, n - 1);
        let entry = entries[n - 1];
        open_position_found(before, entry.client_id, entry.record.ballot, before.len() as int);
        let after = beliefs_of(entries, n);
        assert forall|j: int, k: int| 0 <= j < k < after.len() implies {
            let a = #[trigger] after[j];
            let b = #[trigger] after[k];
            !(a.end_index is None && b.end_index is None && a.client_id == b.client_id && a.ballot
                == b.ballot)
        } by {
            if k < before.len() {
                assert(before[j].client_id == after[j].client_id);
                assert(before[k].client_id == after[k].client_id);
            } else {
                assert(!open_belief(before[j], entry.client_id, entry.record.ballot));
            }
        }
        assert forall|j: int| 0 <= j < after.len() implies {
            let a = #[trigger] after[j];
            &&& a.begin_index < n
            &&& (a.end_index is None <==> a.end_sim_nanos is None)
            &&& (a.end_index matches Some(end) ==> a.begin_index < end < n)
        } by {
            if j < before.len() {
                assert(before[j].begin_index == after[j].begin_index);
            }
        }
    }
}

/// A begin is never lost: after a belief-begin entry its client has an open
/// belief at its ballot whose horizon is at least the one it reported.
pub proof fn a_begin_leaves_a_belief_open(entries: Seq<LogEntry>, i: int)
    requires
        0 <= i < entries.len(),
        entries[i].record.op is BeliefBegin,
    ensures
        exists|k: int|
            0 <= k < beliefs_of(entries, i + 1).len() && open_belief(
                #[trigger] beliefs_of(entries, i + 1)[k],
                entries[i].client_id,
                entries[i].record.ballot,
            ) && beliefs_of(entries, i + 1)[k].horizon_nanos >= entries[i].record.horizon_nanos,
{
    let before = beliefs_of(entries, i);
    let after = beliefs_of(entries, i + 1);
    let entry = entries[i];
    open_position_found(before, entry.client_id, entry.record.ballot, before.len() as int);
    let p = open_position(before, entry.client_id, entry.record.ballot, before.len() as int);
    if p >= 0 {
        assert(open_belief(after[p], entry.client_id, entry.record.ballot));
    } else {
        assert(open_belief(after[before.len() as int], entry.client_id, entry.record.ballot));
    }
}

/// `producer_position` picks the last transition that fits: the one it names
/// produced the identity before the entry, and none after it did.
pub proof fn the_producer_is_the_last_that_fits(
    transitions: Seq<TransitionView>,
    identity: ObservedIdentity,
    before: int,
    n: int,
)
    requires
        0 <= n <= transitions.len(),
    ensures
        ({
            let p = producer_position(transitions, identity, before, n);
            &&& -1 <= p < n
            &&& p >= 0 ==> produces(transitions[p], identity, before)
            &&& forall|k: int|
                p < k < n ==> !produces(#[trigger] transitions[k], identity, before)
        }),
    decreases n,
{
    if n > 0 {
        the_producer_is_the_last_that_fits(transitions, identity, before, n - 1);
    }
}

/// Whether a transition before entry `before` left the record at `identity`.
pub open spec fn produces(t: TransitionView, identity: ObservedIdentity, before: int) -> bool {
    t.index < before && t.ballot == identity.ballot && t.generation == identity.generation && (
    t.kind is Resign) == identity.vacant
}

/// `covering_position` picks the first term that covers: the one it names
/// does, and none before it does.
pub proof fn the_covering_term_is_the_first(terms: Seq<TermView>, index: int, from: int)
    requires
        0 <= from <= terms.len(),
    ensures
        ({
            let p = covering_position(terms, index, from);
            &&& from <= p <= terms.len()
            &&& p < terms.len() ==> terms[p].covers(index)
            &&& forall|k: int| from <= k < p ==> !(#[trigger] terms[k]).covers(index)
        }),
    decreases terms.len() - from,
{
    if from < terms.len() && !terms[from].covers(index) {
        the_covering_term_is_the_first(terms, index, from + 1);
    }
}

} // verus!
