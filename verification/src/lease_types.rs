//! What the leader-lease simulation logs: durable state, the caller's local
//! state, and one entry per operation.

use crate::duration::Duration;
use crate::text::same_text;
use vstd::prelude::*;
use vstd::string::*;

verus! {

/// A participant polled the election.
pub const OP_POLL: i64 = 0;

/// A leader resigned.
pub const OP_RESIGN: i64 = 1;

/// An observer read the election.
pub const OP_OBSERVE: i64 = 2;

/// A write was attempted at a stale rank.
pub const OP_STALE_WRITE: i64 = 3;

/// The caller knew nothing.
pub const LOCAL_UNKNOWN: i64 = 0;

/// The caller had observed a leader.
pub const LOCAL_OBSERVATION: i64 = 1;

/// The caller held leadership.
pub const LOCAL_LEADERSHIP: i64 = 2;

/// A poll took a released election.
pub const TRANSITION_ACQUIRED: i64 = 0;

/// A poll renewed the caller's leadership.
pub const TRANSITION_RENEWED: i64 = 1;

/// A poll took an expired election from somebody else.
pub const TRANSITION_TOOK_OVER: i64 = 2;

/// A poll took the caller's own expired election again.
pub const TRANSITION_REACQUIRED: i64 = 3;

/// A poll found a leader.
pub const TRANSITION_FOLLOWED: i64 = 4;

/// The operation was no poll.
pub const TRANSITION_NONE: i64 = 5;

/// What an optional string says.
pub open spec fn text_view(text: Option<String>) -> Option<Seq<char>> {
    match text {
        Some(text) => Some(text@),
        None => None,
    }
}

/// How long an optional span is.
pub open spec fn span_view(span: Option<Duration>) -> Option<nat> {
    match span {
        Some(span) => Some(span@),
        None => None,
    }
}

/// What optional bytes are.
pub open spec fn value_view(value: Option<Vec<u8>>) -> Option<Seq<u8>> {
    match value {
        Some(value) => Some(value@),
        None => None,
    }
}

/// One durable election state exposed by the recipe's public API.
#[derive(Debug, PartialEq, Eq)]
pub struct DurableState {
    /// The rank of the last acquisition, zero before any.
    pub rank: u64,
    /// The owner, absent where the election is released.
    pub owner: Option<String>,
    /// The lease of the last acquisition, absent before any.
    pub lease_duration: Option<Duration>,
}

/// What a [`DurableState`] says.
#[verifier::ext_equal]
pub struct DurableView {
    pub rank: u64,
    pub owner: Option<Seq<char>>,
    pub lease_duration: Option<nat>,
}

impl View for DurableState {
    type V = DurableView;

    open spec fn view(&self) -> DurableView {
        DurableView {
            rank: self.rank,
            owner: text_view(self.owner),
            lease_duration: span_view(self.lease_duration),
        }
    }
}

/// The state of an election nobody has held.
pub open spec fn untouched() -> DurableView {
    DurableView { rank: 0, owner: None, lease_duration: None }
}

impl Default for DurableState {
    fn default() -> (r: DurableState)
        ensures
            r@ == untouched(),
    {
        DurableState { rank: 0, owner: None, lease_duration: None }
    }
}

impl Clone for DurableState {
    fn clone(&self) -> (r: DurableState)
        ensures
            r@ == self@,
    {
        DurableState {
            rank: self.rank,
            owner: clone_text(&self.owner),
            lease_duration: self.lease_duration,
        }
    }
}

impl DurableState {
    /// Whether two states say the same.
    pub fn same_as(&self, other: &DurableState) -> (r: bool)
        ensures
            r == (self@ == other@),
    {
        self.rank == other.rank && same_optional_text(&self.owner, &other.owner)
            && same_optional_span(&self.lease_duration, &other.lease_duration)
    }

    /// Whether the owner is `name`.
    pub fn owned_by(&self, name: &str) -> (r: bool)
        ensures
            r == (self@.owner == Some(name@)),
    {
        match &self.owner {
            Some(owner) => same_text(owner.as_str(), name),
            None => false,
        }
    }

    /// Whether the lease is `span`.
    pub fn leased_for(&self, span: &Duration) -> (r: bool)
        ensures
            r == (self@.lease_duration == Some(span@)),
    {
        match &self.lease_duration {
            Some(lease) => lease.same_as(span),
            None => false,
        }
    }
}

/// Caller-owned state supplied to an operation.
#[derive(Debug, PartialEq, Eq)]
pub enum LocalInput {
    /// The caller knew nothing.
    Unknown,
    /// The caller had observed a leader.
    Observation {
        /// The leader it observed.
        owner: String,
        /// The leader's rank.
        rank: u64,
        /// The leader's lease.
        lease_duration: Duration,
        /// When it first observed it.
        observed_at: Duration,
    },
    /// The caller held leadership.
    Leadership {
        /// The participant that led.
        participant: String,
        /// Its rank.
        rank: u64,
        /// Its lease.
        lease_duration: Duration,
        /// When it last renewed.
        renewed_at: Duration,
    },
}

/// What a [`LocalInput`] says.
#[verifier::ext_equal]
pub enum LocalView {
    Unknown,
    Observation { owner: Seq<char>, rank: u64, lease_duration: nat, observed_at: nat },
    Leadership { participant: Seq<char>, rank: u64, lease_duration: nat, renewed_at: nat },
}

impl View for LocalInput {
    type V = LocalView;

    open spec fn view(&self) -> LocalView {
        match *self {
            LocalInput::Unknown => LocalView::Unknown,
            LocalInput::Observation { owner, rank, lease_duration, observed_at } =>
            LocalView::Observation {
                owner: owner@,
                rank,
                lease_duration: lease_duration@,
                observed_at: observed_at@,
            },
            LocalInput::Leadership { participant, rank, lease_duration, renewed_at } =>
            LocalView::Leadership {
                participant: participant@,
                rank,
                lease_duration: lease_duration@,
                renewed_at: renewed_at@,
            },
        }
    }
}

impl Clone for LocalInput {
    fn clone(&self) -> (r: LocalInput)
        ensures
            r@ == self@,
    {
        match self {
            LocalInput::Unknown => LocalInput::Unknown,
            LocalInput::Observation { owner, rank, lease_duration, observed_at } =>
            LocalInput::Observation {
                owner: owner.clone(),
                rank: *rank,
                lease_duration: *lease_duration,
                observed_at: *observed_at,
            },
            LocalInput::Leadership { participant, rank, lease_duration, renewed_at } =>
            LocalInput::Leadership {
                participant: participant.clone(),
                rank: *rank,
                lease_duration: *lease_duration,
                renewed_at: *renewed_at,
            },
        }
    }
}

impl LocalInput {
    /// Whether two inputs say the same.
    pub fn same_as(&self, other: &LocalInput) -> (r: bool)
        ensures
            r == (self@ == other@),
    {
        match (self, other) {
            (LocalInput::Unknown, LocalInput::Unknown) => true,
            (
                LocalInput::Observation { owner, rank, lease_duration, observed_at },
                LocalInput::Observation {
                    owner: other_owner,
                    rank: other_rank,
                    lease_duration: other_lease,
                    observed_at: other_at,
                },
            ) => same_text(owner.as_str(), other_owner.as_str()) && *rank == *other_rank
                && lease_duration.same_as(other_lease) && observed_at.same_as(other_at),
            (
                LocalInput::Leadership { participant, rank, lease_duration, renewed_at },
                LocalInput::Leadership {
                    participant: other_participant,
                    rank: other_rank,
                    lease_duration: other_lease,
                    renewed_at: other_at,
                },
            ) => same_text(participant.as_str(), other_participant.as_str()) && *rank
                == *other_rank && lease_duration.same_as(other_lease) && renewed_at.same_as(
                other_at,
            ),
            _ => false,
        }
    }
}

/// A leadership a client holds, or held.
#[derive(Debug)]
pub struct Token {
    /// Who led.
    pub participant: String,
    /// At which rank.
    pub rank: u64,
    /// Under which lease.
    pub lease_duration: Duration,
    /// When it was last renewed.
    pub renewed_at: Duration,
}

/// What a [`Token`] says.
#[verifier::ext_equal]
pub struct TokenView {
    pub participant: Seq<char>,
    pub rank: u64,
    pub lease_duration: nat,
    pub renewed_at: nat,
}

impl TokenView {
    /// The local state of a client that holds this.
    pub open spec fn local(self) -> LocalView {
        LocalView::Leadership {
            participant: self.participant,
            rank: self.rank,
            lease_duration: self.lease_duration,
            renewed_at: self.renewed_at,
        }
    }
}

impl View for Token {
    type V = TokenView;

    open spec fn view(&self) -> TokenView {
        TokenView {
            participant: self.participant@,
            rank: self.rank,
            lease_duration: self.lease_duration@,
            renewed_at: self.renewed_at@,
        }
    }
}

impl Clone for Token {
    fn clone(&self) -> (r: Token)
        ensures
            r@ == self@,
    {
        Token {
            participant: self.participant.clone(),
            rank: self.rank,
            lease_duration: self.lease_duration,
            renewed_at: self.renewed_at,
        }
    }
}

/// One versionstamp-ordered simulation operation.
#[derive(Debug)]
pub struct LogEntry {
    /// The commit versionstamp.
    pub versionstamp: [u8; 12],
    /// The client that ran the operation.
    pub client_id: i32,
    /// The client's incarnation.
    pub incarnation: u64,
    /// The client's own number for the operation.
    pub op_num: u64,
    /// What the operation was.
    pub kind: i64,
    /// The participant it was run for.
    pub actor: String,
    /// The durable state it found.
    pub prior: DurableState,
    /// The durable state it left.
    pub current: DurableState,
    /// The local state it was given.
    pub local_input: LocalInput,
    /// Whether the caller adopts the local state it returns.
    pub tracks_local_state: bool,
    /// When the attempt started.
    pub attempt_started_at: Duration,
    /// The lease the caller was configured with.
    pub configured_lease_duration: Duration,
    /// How long the caller means to wait before adopting an observation.
    pub planned_adoption_delay: Option<Duration>,
    /// What a poll did.
    pub transition: i64,
    /// Whether the operation succeeded.
    pub result: bool,
    /// The rank of the protected write it attempted.
    pub requested_write_rank: u64,
    /// The rank of the protected value it read.
    pub observed_write_rank: u64,
    /// The protected value it read.
    pub observed_value: Option<Vec<u8>>,
    /// Whether its protected write committed.
    pub protected_write_committed: bool,
    /// What its protected write carried.
    pub payload: Vec<u8>,
}

/// What a [`LogEntry`] says.
#[verifier::ext_equal]
pub struct EntryView {
    pub versionstamp: Seq<u8>,
    pub client_id: i32,
    pub incarnation: u64,
    pub op_num: u64,
    pub kind: i64,
    pub actor: Seq<char>,
    pub prior: DurableView,
    pub current: DurableView,
    pub local_input: LocalView,
    pub tracks_local_state: bool,
    pub attempt_started_at: nat,
    pub configured_lease_duration: nat,
    pub planned_adoption_delay: Option<nat>,
    pub transition: i64,
    pub result: bool,
    pub requested_write_rank: u64,
    pub observed_write_rank: u64,
    pub observed_value: Option<Seq<u8>>,
    pub protected_write_committed: bool,
    pub payload: Seq<u8>,
}

impl View for LogEntry {
    type V = EntryView;

    open spec fn view(&self) -> EntryView {
        EntryView {
            versionstamp: self.versionstamp@,
            client_id: self.client_id,
            incarnation: self.incarnation,
            op_num: self.op_num,
            kind: self.kind,
            actor: self.actor@,
            prior: self.prior@,
            current: self.current@,
            local_input: self.local_input@,
            tracks_local_state: self.tracks_local_state,
            attempt_started_at: self.attempt_started_at@,
            configured_lease_duration: self.configured_lease_duration@,
            planned_adoption_delay: span_view(self.planned_adoption_delay),
            transition: self.transition,
            result: self.result,
            requested_write_rank: self.requested_write_rank,
            observed_write_rank: self.observed_write_rank,
            observed_value: value_view(self.observed_value),
            protected_write_committed: self.protected_write_committed,
            payload: self.payload@,
        }
    }
}

/// What a log says.
pub open spec fn entry_views(entries: Seq<LogEntry>) -> Seq<EntryView> {
    Seq::new(entries.len(), |i: int| entries[i]@)
}

/// What the database holds at the end of a run.
#[derive(Debug)]
pub struct Snapshot {
    /// The election's durable state.
    pub election: DurableState,
    /// The rank of the protected value.
    pub protected_rank: u64,
    /// The protected value.
    pub protected_value: Option<Vec<u8>>,
}

/// What a [`Snapshot`] says.
#[verifier::ext_equal]
pub struct SnapshotView {
    pub election: DurableView,
    pub protected_rank: u64,
    pub protected_value: Option<Seq<u8>>,
}

impl View for Snapshot {
    type V = SnapshotView;

    open spec fn view(&self) -> SnapshotView {
        SnapshotView {
            election: self.election@,
            protected_rank: self.protected_rank,
            protected_value: value_view(self.protected_value),
        }
    }
}

/// A copy of an optional string.
pub fn clone_text(text: &Option<String>) -> (r: Option<String>)
    ensures
        text_view(r) == text_view(*text),
{
    match text {
        Some(text) => Some(text.clone()),
        None => None,
    }
}

/// Whether two optional strings are the same.
pub fn same_optional_text(a: &Option<String>, b: &Option<String>) -> (r: bool)
    ensures
        r == (text_view(*a) == text_view(*b)),
{
    match (a, b) {
        (Some(a), Some(b)) => same_text(a.as_str(), b.as_str()),
        (None, None) => true,
        _ => false,
    }
}

/// Whether two optional spans are the same.
pub fn same_optional_span(a: &Option<Duration>, b: &Option<Duration>) -> (r: bool)
    ensures
        r == (span_view(*a) == span_view(*b)),
{
    match (a, b) {
        (Some(a), Some(b)) => a.same_as(b),
        (None, None) => true,
        _ => false,
    }
}

/// Whether two byte strings are the same.
pub fn same_bytes(a: &[u8], b: &[u8]) -> (r: bool)
    ensures
        r == (a@ == b@),
{
    if a.len() != b.len() {
        return false;
    }
    let mut i: usize = 0;
    while i < a.len()
        invariant
            i <= a@.len(),
            a@.len() == b@.len(),
            forall|k: int| 0 <= k < i ==> a@[k] == b@[k],
        decreases a@.len() - i,
    {
        if a[i] != b[i] {
            assert(a@[i as int] != b@[i as int]);
            return false;
        }
        i = i + 1;
    }
    assert(a@ =~= b@);
    true
}

/// Whether two optional byte strings are the same.
pub fn same_optional_value(a: &Option<Vec<u8>>, b: &Option<Vec<u8>>) -> (r: bool)
    ensures
        r == (value_view(*a) == value_view(*b)),
{
    match (a, b) {
        (Some(a), Some(b)) => same_bytes(a.as_slice(), b.as_slice()),
        (None, None) => true,
        _ => false,
    }
}

/// A copy of a byte string.
pub fn copy_bytes(bytes: &[u8]) -> (r: Vec<u8>)
    ensures
        r@ == bytes@,
{
    let mut r: Vec<u8> = Vec::new();
    let mut i: usize = 0;
    while i < bytes.len()
        invariant
            i <= bytes@.len(),
            r@ == bytes@.take(i as int),
        decreases bytes@.len() - i,
    {
        r.push(bytes[i]);
        assert(bytes@.take(i as int + 1) =~= bytes@.take(i as int).push(bytes@[i as int]));
        i = i + 1;
    }
    assert(bytes@.take(i as int) =~= bytes@);
    r
}

/// A participant's payload: `role:actor:op_num`, as bytes.
pub open spec fn payload_of(role: Seq<char>, actor: Seq<char>, op_num: u64) -> Seq<u8> {
    vstd::utf8::encode_utf8(
        role + ":"@ + actor + ":"@ + crate::text::nat_text(op_num as nat),
    )
}

} // verus!
