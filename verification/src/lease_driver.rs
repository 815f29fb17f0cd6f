//! The script one client of the leader-lease simulation follows.
//!
//! The script never touches a database or a clock. [`Driver::step`] is told what
//! came of the last action and answers with the next one; whoever runs it
//! performs that action and comes back with what came of it.

use crate::duration;
use crate::duration::Duration;
use crate::lease_oracle;
use crate::lease_plan;
use crate::lease_plan::{
    name_incarnation, participant_text, AdoptionDelay, Plan, OPTIONAL_DELAYED_ADOPTION,
    OPTIONAL_OBSERVER, OPTIONAL_PAUSE, OPTIONAL_RESIGN,
};
use crate::lease_records::PollTransition;
use crate::lease_types;
use crate::lease_types::{same_bytes, LocalInput, LocalView, Token, TokenView};
use crate::log_schema;
use crate::log_schema::KeySpace;
use crate::text::same_text;
use foundationdb_tuple::Subspace;
use vstd::prelude::*;
use vstd::string::*;
use vstd::utf8::*;

verus! {

// ---------------------------------------------------------------------------
// Tokens and replies
// ---------------------------------------------------------------------------

/// What an optional token says.
pub open spec fn token_view(token: Option<Token>) -> Option<TokenView> {
    match token {
        Some(token) => Some(token@),
        None => None,
    }
}

fn clone_token(token: &Option<Token>) -> (r: Option<Token>)
    ensures
        token_view(r) == token_view(*token),
{
    match token {
        Some(token) => Some(token.clone()),
        None => None,
    }
}

/// The token a client holds.
pub open spec fn leadership_of(local: LocalView) -> Option<TokenView> {
    match local {
        LocalView::Leadership { participant, rank, lease_duration, renewed_at } => Some(
            TokenView { participant, rank, lease_duration, renewed_at },
        ),
        _ => None,
    }
}

fn token_of(local: &LocalInput) -> (r: Option<Token>)
    ensures
        token_view(r) == leadership_of(local@),
{
    match local {
        LocalInput::Leadership { participant, rank, lease_duration, renewed_at } => Some(
            Token {
                participant: participant.clone(),
                rank: *rank,
                lease_duration: *lease_duration,
                renewed_at: *renewed_at,
            },
        ),
        _ => None,
    }
}

/// When what a client observed runs out.
pub open spec fn expiry_of(local: LocalView) -> Option<nat> {
    match local {
        LocalView::Observation { lease_duration, observed_at, .. } => Some(
            lease_oracle::span_sum(observed_at, lease_duration),
        ),
        _ => None,
    }
}

fn observed_expiry(local: &LocalInput) -> (r: Option<Duration>)
    ensures
        lease_types::span_view(r) == expiry_of(local@),
{
    match local {
        LocalInput::Observation { lease_duration, observed_at, .. } => Some(
            observed_at.saturating_add(*lease_duration),
        ),
        _ => None,
    }
}

/// What came of a poll.
#[derive(Debug)]
pub struct PollRun {
    /// The local state to adopt.
    pub next_state: LocalInput,
    /// What the poll did.
    pub transition: PollTransition,
    /// The delay the caller waited out before adopting, if it did.
    pub adoption_delay: Option<AdoptionDelay>,
}

/// What a [`PollRun`] says.
pub struct RunView {
    pub next_state: LocalView,
    pub transition: PollTransition,
    pub adoption_delay: Option<AdoptionDelay>,
}

impl View for PollRun {
    type V = RunView;

    open spec fn view(&self) -> RunView {
        RunView {
            next_state: self.next_state@,
            transition: self.transition,
            adoption_delay: self.adoption_delay,
        }
    }
}

/// What an optional run says.
pub open spec fn run_view(run: Option<PollRun>) -> Option<RunView> {
    match run {
        Some(run) => Some(run@),
        None => None,
    }
}

/// The token a poll left its caller with.
pub open spec fn won(run: Option<RunView>) -> Option<TokenView> {
    match run {
        Some(run) => leadership_of(run.next_state),
        None => None,
    }
}

// ---------------------------------------------------------------------------
// Barriers
// ---------------------------------------------------------------------------

/// A point that every client reaches before any goes on.
#[derive(Debug, Clone, Copy, PartialEq, Eq, Structural)]
pub enum Barrier {
    /// Every round is over.
    Ready,
    /// Every client has polled once for the race.
    Observed,
    /// What every client observed has run out.
    Expired,
    /// Every client has raced.
    Done,
}

impl Barrier {
    /// What a barrier is called.
    pub open spec fn label(self) -> Seq<char> {
        match self {
            Barrier::Ready => "ready"@,
            Barrier::Observed => "observed"@,
            Barrier::Expired => "expired"@,
            Barrier::Done => "done"@,
        }
    }

    /// The name a barrier's markers are written under.
    pub fn name(self) -> (r: &'static str)
        ensures
            r@ == self.label(),
    {
        match self {
            Barrier::Ready => "ready",
            Barrier::Observed => "observed",
            Barrier::Expired => "expired",
            Barrier::Done => "done",
        }
    }
}

/// What packing a name and a client behind a prefix gives.
pub uninterp spec fn packed_marker_key(prefix: Seq<u8>, name: Seq<char>, client_id: i32) -> Seq<u8>;

/// Calls `Subspace::pack` on a name and a client. The contract names the bytes, which
/// are a function of the prefix, the name and the client alone, and says that they start
/// with the prefix. The prefix is counted in a `u32`, and so are name and client together;
/// the call panics where that does not do.
#[verifier::external_body]
fn pack_marker_key(prefix: &[u8], name: &str, client_id: i32) -> (r: Vec<u8>)
    requires
        prefix@.len() <= u32::MAX,
        log_schema::name_prefix(name.spec_bytes()).len() + 5 <= u32::MAX,
    ensures
        r@ == packed_marker_key(prefix@, name@, client_id),
        log_schema::in_region(prefix@, r@),
{
    Subspace::from_bytes(prefix).pack(&(name, client_id))
}

/// The key a client writes where it reaches a barrier.
pub fn marker_key(space: &KeySpace, barrier: Barrier, client_id: i32) -> (r: Vec<u8>)
    requires
        space@.len() <= u32::MAX,
    ensures
        r@ == packed_marker_key(space@, barrier.label(), client_id),
        log_schema::in_region(space@, r@),
{
    let name = barrier.name();
    proof {
        reveal_strlit("ready");
        reveal_strlit("observed");
        reveal_strlit("expired");
        reveal_strlit("done");
        log_schema::a_short_name_has_a_short_prefix(name);
    }
    pack_marker_key(space.prefix.as_slice(), name, client_id)
}

/// What a client writes where it reaches a barrier.
#[derive(Debug, Clone, Copy, PartialEq, Eq, Structural)]
pub enum Status {
    /// It got there.
    Ready,
    /// It contended in the race.
    Contended,
    /// It led, and had nobody to race against.
    Incumbent,
    /// It failed.
    Error,
}

impl Status {
    /// The word for a status.
    pub open spec fn word(self) -> Seq<char> {
        match self {
            Status::Ready => "ready"@,
            Status::Contended => "contended"@,
            Status::Incumbent => "incumbent"@,
            Status::Error => "error"@,
        }
    }

    /// The bytes a status is written as.
    pub open spec fn spelled(self) -> Seq<u8> {
        vstd::utf8::encode_utf8(self.word())
    }

    /// The bytes a status is written as.
    pub fn bytes(self) -> (r: Vec<u8>)
        ensures
            r@ == self.spelled(),
    {
        match self {
            Status::Ready => "ready".as_bytes_vec(),
            Status::Contended => "contended".as_bytes_vec(),
            Status::Incumbent => "incumbent".as_bytes_vec(),
            Status::Error => "error".as_bytes_vec(),
        }
    }
}

/// What a list of statuses says.
pub open spec fn status_views(statuses: Seq<Vec<u8>>) -> Seq<Seq<u8>> {
    Seq::new(statuses.len(), |i: int| statuses[i]@)
}

/// How many of the first `n` statuses are this one.
pub open spec fn count_of(statuses: Seq<Seq<u8>>, status: Status, n: int) -> nat
    decreases n,
{
    if n <= 0 {
        0
    } else {
        count_of(statuses, status, n - 1) + if statuses[n - 1] == status.spelled() {
            1nat
        } else {
            0
        }
    }
}

/// How many of the statuses are this one.
pub fn count_statuses(statuses: &Vec<Vec<u8>>, status: Status) -> (r: usize)
    ensures
        r == count_of(status_views(statuses@), status, statuses@.len() as int),
{
    let ghost views = status_views(statuses@);
    let wanted = status.bytes();
    let mut count: usize = 0;
    let mut i: usize = 0;
    while i < statuses.len()
        invariant
            i <= statuses@.len(),
            count <= i,
            views == status_views(statuses@),
            wanted@ == status.spelled(),
            count == count_of(views, status, i as int),
        decreases statuses@.len() - i,
    {
        assert(i < statuses.len());
        assert(views[i as int] == statuses@[i as int]@);
        if same_bytes(statuses[i].as_slice(), wanted.as_slice()) {
            count = count + 1;
        }
        i = i + 1;
    }
    count
}

// ---------------------------------------------------------------------------
// Actions, events and notes
// ---------------------------------------------------------------------------

/// What a client does next.
#[derive(Debug)]
pub enum Action {
    /// Draw a random number.
    Draw,
    /// Poll the election.
    Poll {
        /// For whom.
        participant: String,
        /// With which local state.
        brings: LocalInput,
        /// Whether the local state it returns is adopted.
        tracks: bool,
        /// Under which lease.
        lease_duration: Duration,
        /// For which incarnation.
        incarnation: u64,
        /// As which operation.
        op_num: u64,
        /// How long to wait before adopting a new observation.
        delay: Option<AdoptionDelay>,
    },
    /// Resign a leadership.
    Resign {
        /// Which one.
        token: Token,
        /// Whether the local state it leaves is adopted.
        tracks: bool,
        /// Under which lease.
        lease_duration: Duration,
        /// For which incarnation.
        incarnation: u64,
        /// As which operation.
        op_num: u64,
    },
    /// Write to the protected register at a rank that ought to be stale.
    StaleWrite {
        /// For whom.
        actor: String,
        /// At which rank.
        rank: u64,
        /// Under which lease.
        lease_duration: Duration,
        /// For which incarnation.
        incarnation: u64,
        /// As which operation.
        op_num: u64,
    },
    /// Read the election.
    Observe {
        /// For whom.
        actor: String,
        /// Under which lease.
        lease_duration: Duration,
        /// For which incarnation.
        incarnation: u64,
        /// As which operation.
        op_num: u64,
    },
    /// Read the election and the register together.
    Snapshot,
    /// Wait until an instant.
    Wait {
        /// Which one.
        until: Duration,
    },
    /// Let everybody else go first.
    Yield,
    /// Write this client's marker at a barrier.
    Mark {
        /// Which one.
        barrier: Barrier,
        /// What to write.
        status: Status,
        /// Whether this is another try, which comes a moment later.
        again: bool,
    },
    /// See whether every client has written its marker at a barrier.
    Await {
        /// Which one.
        barrier: Barrier,
        /// Whether this is another try, which comes a moment later.
        again: bool,
    },
    /// Read what every client wrote at a barrier.
    Collect {
        /// Which one.
        barrier: Barrier,
        /// Whether this is another try, which comes a moment later.
        again: bool,
    },
    /// Stop.
    Finish,
}

/// What an [`Action`] says.
pub enum ActionView {
    Draw,
    Poll {
        participant: Seq<char>,
        brings: LocalView,
        tracks: bool,
        lease_duration: nat,
        incarnation: u64,
        op_num: u64,
        delay: Option<AdoptionDelay>,
    },
    Resign {
        token: TokenView,
        tracks: bool,
        lease_duration: nat,
        incarnation: u64,
        op_num: u64,
    },
    StaleWrite {
        actor: Seq<char>,
        rank: u64,
        lease_duration: nat,
        incarnation: u64,
        op_num: u64,
    },
    Observe { actor: Seq<char>, lease_duration: nat, incarnation: u64, op_num: u64 },
    Snapshot,
    Wait { until: nat },
    Yield,
    Mark { barrier: Barrier, status: Status, again: bool },
    Await { barrier: Barrier, again: bool },
    Collect { barrier: Barrier, again: bool },
    Finish,
}

impl View for Action {
    type V = ActionView;

    open spec fn view(&self) -> ActionView {
        match *self {
            Action::Draw => ActionView::Draw,
            Action::Poll {
                participant,
                brings,
                tracks,
                lease_duration,
                incarnation,
                op_num,
                delay,
            } => ActionView::Poll {
                participant: participant@,
                brings: brings@,
                tracks,
                lease_duration: lease_duration@,
                incarnation,
                op_num,
                delay,
            },
            Action::Resign { token, tracks, lease_duration, incarnation, op_num } =>
            ActionView::Resign {
                token: token@,
                tracks,
                lease_duration: lease_duration@,
                incarnation,
                op_num,
            },
            Action::StaleWrite { actor, rank, lease_duration, incarnation, op_num } =>
            ActionView::StaleWrite {
                actor: actor@,
                rank,
                lease_duration: lease_duration@,
                incarnation,
                op_num,
            },
            Action::Observe { actor, lease_duration, incarnation, op_num } => ActionView::Observe {
                actor: actor@,
                lease_duration: lease_duration@,
                incarnation,
                op_num,
            },
            Action::Snapshot => ActionView::Snapshot,
            Action::Wait { until } => ActionView::Wait { until: until@ },
            Action::Yield => ActionView::Yield,
            Action::Mark { barrier, status, again } => ActionView::Mark { barrier, status, again },
            Action::Await { barrier, again } => ActionView::Await { barrier, again },
            Action::Collect { barrier, again } => ActionView::Collect { barrier, again },
            Action::Finish => ActionView::Finish,
        }
    }
}

/// What came of an action.
#[derive(Debug)]
pub enum Event {
    /// Nothing beyond that it was done.
    Elapsed,
    /// A random number was drawn.
    Drawn(u32),
    /// A poll ran.
    Polled(PollRun),
    /// A resignation released the election, a write committed, or every client has
    /// reached a barrier; or not.
    Settled(bool),
    /// The election and the register were read and do not fit each other.
    Incoherent,
    /// What every client wrote was read.
    Collected(Vec<Vec<u8>>),
    /// The action's transaction failed.
    Failed,
}

/// What an [`Event`] says.
pub enum EventView {
    Elapsed,
    Drawn(u32),
    Polled(RunView),
    Settled(bool),
    Incoherent,
    Collected(Seq<Seq<u8>>),
    Failed,
}

impl View for Event {
    type V = EventView;

    open spec fn view(&self) -> EventView {
        match *self {
            Event::Elapsed => EventView::Elapsed,
            Event::Drawn(random) => EventView::Drawn(random),
            Event::Polled(run) => EventView::Polled(run@),
            Event::Settled(done) => EventView::Settled(done),
            Event::Incoherent => EventView::Incoherent,
            Event::Collected(statuses) => EventView::Collected(status_views(statuses@)),
            Event::Failed => EventView::Failed,
        }
    }
}

impl EventView {
    /// The poll that ran; none where the event is anything else.
    pub open spec fn run(self) -> Option<RunView> {
        match self {
            EventView::Polled(run) => Some(run),
            _ => None,
        }
    }

    /// Whether the action took hold; nothing where the event does not say.
    pub open spec fn settled(self) -> Option<bool> {
        match self {
            EventView::Settled(done) => Some(done),
            _ => None,
        }
    }

    /// The number that was drawn.
    pub open spec fn drawn(self) -> u32 {
        match self {
            EventView::Drawn(random) => random,
            _ => 0,
        }
    }

    /// What every client wrote.
    pub open spec fn statuses(self) -> Option<Seq<Seq<u8>>> {
        match self {
            EventView::Collected(statuses) => Some(statuses),
            _ => None,
        }
    }
}

impl Event {
    fn into_run(self) -> (r: Option<PollRun>)
        ensures
            run_view(r) == self@.run(),
    {
        match self {
            Event::Polled(run) => Some(run),
            _ => None,
        }
    }

    fn into_settled(self) -> (r: Option<bool>)
        ensures
            r == self@.settled(),
    {
        match self {
            Event::Settled(done) => Some(done),
            _ => None,
        }
    }

    fn into_drawn(self) -> (r: u32)
        ensures
            r == self@.drawn(),
    {
        match self {
            Event::Drawn(random) => random,
            _ => 0,
        }
    }

    fn into_statuses(self) -> (r: Option<Vec<Vec<u8>>>)
        ensures
            match r {
                Some(statuses) => self@.statuses() == Some(status_views(statuses@)),
                None => self@.statuses() is None,
            },
    {
        match self {
            Event::Collected(statuses) => Some(statuses),
            _ => None,
        }
    }

    fn says_yes(&self) -> (r: bool)
        ensures
            r == (self@.settled() == Some(true)),
    {
        match self {
            Event::Settled(done) => *done,
            _ => false,
        }
    }

    fn is_failure(&self) -> (r: bool)
        ensures
            r == (self@ is Failed),
    {
        match self {
            Event::Failed => true,
            _ => false,
        }
    }
}

/// What can go wrong in a client.
#[derive(Debug, Clone, Copy, PartialEq, Eq, Structural)]
pub enum Mishap {
    Poll,
    ZeroRankStaleWrite,
    Observer,
    Resign,
    Snapshot,
    RaceInitialPoll,
    RacePoll,
    RaceStaleWrite,
    ForeignTakeoverPoll,
    CompletionPoll,
    StaleRenew,
    StaleResign,
    StaleWrite,
    ExactResign,
    FinalExactResign,
    MarkerWrite,
    MarkerRead,
    StatusRead,
}

impl Mishap {
    /// The event a failed transaction is traced as.
    pub fn failure_event(self) -> (r: &'static str)
        ensures
            r@ == (match self {
                Mishap::Poll => "PollRunFailed"@,
                Mishap::ZeroRankStaleWrite => "ZeroRankStaleWriteFailed"@,
                Mishap::Observer => "ObserverRunFailed"@,
                Mishap::Resign => "ResignRunFailed"@,
                Mishap::Snapshot => "ContinuousSnapshotFailed"@,
                Mishap::RaceInitialPoll => "RaceInitialPollFailed"@,
                Mishap::RacePoll => "RacePollFailed"@,
                Mishap::RaceStaleWrite => "RaceStaleWriteFailed"@,
                Mishap::ForeignTakeoverPoll => "ForeignTakeoverPollFailed"@,
                Mishap::CompletionPoll => "CompletionPollFailed"@,
                Mishap::StaleRenew => "StaleRenewRunFailed"@,
                Mishap::StaleResign => "StaleResignRunFailed"@,
                Mishap::StaleWrite => "StaleWriteRunFailed"@,
                Mishap::ExactResign => "ExactResignFailed"@,
                Mishap::FinalExactResign => "FinalExactResignFailed"@,
                Mishap::MarkerWrite => "PhaseMarkerWriteFailed"@,
                Mishap::MarkerRead => "PhaseMarkerReadFailed"@,
                Mishap::StatusRead => "PhaseStatusReadFailed"@,
            }),
    {
        match self {
            Mishap::Poll => "PollRunFailed",
            Mishap::ZeroRankStaleWrite => "ZeroRankStaleWriteFailed",
            Mishap::Observer => "ObserverRunFailed",
            Mishap::Resign => "ResignRunFailed",
            Mishap::Snapshot => "ContinuousSnapshotFailed",
            Mishap::RaceInitialPoll => "RaceInitialPollFailed",
            Mishap::RacePoll => "RacePollFailed",
            Mishap::RaceStaleWrite => "RaceStaleWriteFailed",
            Mishap::ForeignTakeoverPoll => "ForeignTakeoverPollFailed",
            Mishap::CompletionPoll => "CompletionPollFailed",
            Mishap::StaleRenew => "StaleRenewRunFailed",
            Mishap::StaleResign => "StaleResignRunFailed",
            Mishap::StaleWrite => "StaleWriteRunFailed",
            Mishap::ExactResign => "ExactResignFailed",
            Mishap::FinalExactResign => "FinalExactResignFailed",
            Mishap::MarkerWrite => "PhaseMarkerWriteFailed",
            Mishap::MarkerRead => "PhaseMarkerReadFailed",
            Mishap::StatusRead => "PhaseStatusReadFailed",
        }
    }
}

/// How the recipe can break its promise.
#[derive(Debug, Clone, Copy, PartialEq, Eq, Structural)]
pub enum Breach {
    ZeroRankStaleWriteCommitted,
    SnapshotInvariantFailed,
    RaceStaleWriteCommitted,
    StaleRenewSucceeded,
    StaleResignSucceeded,
    StaleWriteCommitted,
    FinalExactResignContended,
}

impl Breach {
    /// The event a breach is traced as.
    pub fn event(self) -> (r: &'static str)
        ensures
            r@ == (match self {
                Breach::ZeroRankStaleWriteCommitted => "ZeroRankStaleWriteCommitted"@,
                Breach::SnapshotInvariantFailed => "ContinuousSnapshotInvariantFailed"@,
                Breach::RaceStaleWriteCommitted => "RaceStaleWriteCommitted"@,
                Breach::StaleRenewSucceeded => "StaleRenewSucceeded"@,
                Breach::StaleResignSucceeded => "StaleResignSucceeded"@,
                Breach::StaleWriteCommitted => "StaleWriteCommitted"@,
                Breach::FinalExactResignContended => "FinalExactResignContended"@,
            }),
    {
        match self {
            Breach::ZeroRankStaleWriteCommitted => "ZeroRankStaleWriteCommitted",
            Breach::SnapshotInvariantFailed => "ContinuousSnapshotInvariantFailed",
            Breach::RaceStaleWriteCommitted => "RaceStaleWriteCommitted",
            Breach::StaleRenewSucceeded => "StaleRenewSucceeded",
            Breach::StaleResignSucceeded => "StaleResignSucceeded",
            Breach::StaleWriteCommitted => "StaleWriteCommitted",
            Breach::FinalExactResignContended => "FinalExactResignContended",
        }
    }

    /// What a breach means.
    pub fn meaning(self) -> (r: &'static str)
        ensures
            r@ == (match self {
                Breach::ZeroRankStaleWriteCommitted =>
                "a rank-zero ranked-register write committed after leadership began"@,
                Breach::SnapshotInvariantFailed =>
                "one-transaction public snapshot violated structural invariants"@,
                Breach::RaceStaleWriteCommitted =>
                "a takeover contender committed at the predecessor rank"@,
                Breach::StaleRenewSucceeded => "a stale leadership token changed durable state"@,
                Breach::StaleResignSucceeded => "a stale leadership token released durable state"@,
                Breach::StaleWriteCommitted => "a strictly stale ranked-register write committed"@,
                Breach::FinalExactResignContended =>
                "the deterministic exact-resignation witness was contended"@,
            }),
    {
        match self {
            Breach::ZeroRankStaleWriteCommitted =>
            "a rank-zero ranked-register write committed after leadership began",
            Breach::SnapshotInvariantFailed =>
            "one-transaction public snapshot violated structural invariants",
            Breach::RaceStaleWriteCommitted =>
            "a takeover contender committed at the predecessor rank",
            Breach::StaleRenewSucceeded => "a stale leadership token changed durable state",
            Breach::StaleResignSucceeded => "a stale leadership token released durable state",
            Breach::StaleWriteCommitted => "a strictly stale ranked-register write committed",
            Breach::FinalExactResignContended =>
            "the deterministic exact-resignation witness was contended",
        }
    }
}

/// What a client has to say about a step.
#[derive(Debug, Clone, Copy, PartialEq, Eq, Structural)]
pub enum Note {
    /// A transaction failed.
    Failure {
        /// Which one.
        mishap: Mishap,
        /// The operation's number.
        op_num: u64,
    },
    /// The recipe broke its promise.
    Broken {
        /// Which one.
        breach: Breach,
        /// The operation's number.
        op_num: u64,
    },
    /// The client lost its local state.
    LostLocalState {
        /// In which round.
        round: usize,
    },
    /// Somebody got in before a resignation.
    ResignContended {
        /// The operation's number.
        op_num: u64,
    },
}

// ---------------------------------------------------------------------------
// The state of a client
// ---------------------------------------------------------------------------

/// Where the script goes once a foreign takeover is over.
#[derive(Debug, Clone, Copy, PartialEq, Eq, Structural)]
pub enum AfterForeign {
    /// On with the round.
    Round,
    /// On with the completion phase.
    Phase,
}

/// Where the script goes once a stale token has been tried out.
#[derive(Debug, Clone, Copy, PartialEq, Eq, Structural)]
pub enum AfterStale {
    /// On with the round.
    Round,
    /// On to the resignation of the completion phase.
    Phase,
    /// Out of the foreign takeover.
    Foreign(AfterForeign),
}

/// Which answer the script is waiting for.
#[derive(Debug, Clone, Copy, PartialEq, Eq, Structural)]
pub enum Place {
    RoundWeight,
    RoundDelay,
    RoundPoll,
    RoundZeroWrite,
    RoundObserve,
    RoundResign,
    RoundSnapshot,
    RoundWait,
    ReadyMark,
    ReadyAwait,
    RaceFirst,
    RaceMarkObserved,
    RaceAwaitObserved,
    RaceWait,
    RaceMarkExpired,
    RaceAwaitExpired,
    RacePoll,
    RaceWrite,
    RaceMarkDone,
    RaceAwaitDone,
    RaceCollect,
    PhaseFirst,
    PhaseRenew,
    PhaseResign,
    PhaseReset,
    PhaseBefore,
    PhaseEarly,
    PhaseExact,
    PhaseDue,
    PhaseAfter,
    PhaseLate,
    FinalFirst,
    FinalFollower,
    FinalLast,
    ExactPoll,
    ExactWait,
    ExactRenew,
    ExactFollower,
    ExactResign,
    ForeignPoll(AfterForeign),
    ForeignFollow(AfterForeign),
    ForeignBefore(AfterForeign),
    ForeignEarly(AfterForeign),
    ForeignExact(AfterForeign),
    ForeignDue(AfterForeign),
    StalePoll(AfterStale),
    StaleWait(AfterStale),
    StaleResign(AfterStale),
    StaleWrite(AfterStale),
    Done,
}

/// Who a client is and what it knows.
#[derive(Debug)]
pub struct Who {
    /// The name it polls under.
    pub participant: String,
    /// How often it lost everything it knew.
    pub incarnation: u64,
    /// What it knows.
    pub local_state: LocalInput,
    /// The last leadership it held.
    pub last_leadership: Option<Token>,
    /// A leadership it held before a later one.
    pub stale_leadership: Option<Token>,
}

/// What a [`Who`] says.
pub struct WhoView {
    pub participant: Seq<char>,
    pub incarnation: u64,
    pub local_state: LocalView,
    pub last_leadership: Option<TokenView>,
    pub stale_leadership: Option<TokenView>,
}

impl View for Who {
    type V = WhoView;

    open spec fn view(&self) -> WhoView {
        WhoView {
            participant: self.participant@,
            incarnation: self.incarnation,
            local_state: self.local_state@,
            last_leadership: token_view(self.last_leadership),
            stale_leadership: token_view(self.stale_leadership),
        }
    }
}

/// What a client counts.
#[derive(Debug, Clone, Copy, PartialEq, Eq, Structural)]
pub struct Tally {
    /// The number of the next operation.
    pub op_num: u64,
    /// The number of the last operation.
    pub issued: u64,
    /// How often it polled in a round.
    pub poll_count: u64,
    /// How often that made it the leader.
    pub leader_count: u64,
    /// How many transactions failed.
    pub run_errors: u64,
    /// How many of those failed before the completion phases.
    pub errors_before_completion: u64,
    /// How many of those failed in the completion phases.
    pub completion_run_errors: u64,
    /// How many observations it adopted late.
    pub delayed_adoption_count: u64,
    /// How many of those within the lease.
    pub delayed_adoption_sub_lease_count: u64,
    /// How many of those at the end of the lease.
    pub delayed_adoption_exact_lease_count: u64,
    /// How many of those beyond the lease.
    pub delayed_adoption_over_lease_count: u64,
    /// Whether a write at rank zero was turned down.
    pub zero_stale_write_completed: bool,
    /// Whether a write at a stale rank was turned down.
    pub stale_actions_completed: bool,
    /// Whether it has paused across the boundary of a lease.
    pub expiry_pause_completed: bool,
    /// Whether the coordinated race ran to the end.
    pub coordinated_race_completed: bool,
    /// How many clients contended in it.
    pub coordinated_race_contenders: usize,
}

/// Where in its script a client is.
#[derive(Debug, Clone, Copy, PartialEq, Eq, Structural)]
pub struct Cursor {
    /// The round.
    pub round: usize,
    /// The round's weight.
    pub weight: u32,
    /// Whether the round ends in a pause across the boundary of a lease.
    pub forced_pause: bool,
    /// Whether the race's first poll failed.
    pub race_failed: bool,
    /// The rank of what the client observed for the race.
    pub race_rank: u64,
    /// What the client writes at the barrier it is at.
    pub status: Status,
    /// The completion phase.
    pub phase: usize,
    /// The delay of the poll that follows a foreign takeover.
    pub follower_delay: Option<AdoptionDelay>,
    /// The incarnation that led before the final resignation.
    pub leader_incarnation: u64,
}

/// The spans of time a client works with.
#[derive(Debug, Clone, Copy)]
pub struct Spans {
    /// The lease of the round.
    pub round: Duration,
    /// The lease of the completion phase.
    pub base: Duration,
    /// The lease of the polls under way.
    pub lease: Duration,
    /// When what the client observed runs out.
    pub expiry: Duration,
}

/// What a [`Spans`] says.
pub struct SpansView {
    pub round: nat,
    pub base: nat,
    pub lease: nat,
    pub expiry: nat,
}

impl View for Spans {
    type V = SpansView;

    open spec fn view(&self) -> SpansView {
        SpansView {
            round: self.round@,
            base: self.base@,
            lease: self.lease@,
            expiry: self.expiry@,
        }
    }
}

/// A client, between two actions.
#[derive(Debug)]
pub struct Driver {
    /// What it settled up front.
    pub plan: Plan,
    /// Who it is and what it knows.
    pub who: Who,
    /// What it counts.
    pub tally: Tally,
    /// Where in its script it is.
    pub cursor: Cursor,
    /// The spans of time it works with.
    pub spans: Spans,
    /// The leadership under trial.
    pub held: Option<Token>,
    /// The leadership about to be resigned.
    pub renewed: Option<Token>,
    /// The answer it is waiting for.
    pub place: Place,
    /// What it has to say about the last step.
    pub notes: Vec<Note>,
}

/// What a [`Driver`] says.
pub struct DriverView {
    pub plan: Plan,
    pub who: WhoView,
    pub tally: Tally,
    pub cursor: Cursor,
    pub spans: SpansView,
    pub held: Option<TokenView>,
    pub renewed: Option<TokenView>,
    pub place: Place,
    pub notes: Seq<Note>,
}

impl View for Driver {
    type V = DriverView;

    open spec fn view(&self) -> DriverView {
        DriverView {
            plan: self.plan,
            who: self.who@,
            tally: self.tally,
            cursor: self.cursor,
            spans: self.spans@,
            held: token_view(self.held),
            renewed: token_view(self.renewed),
            place: self.place,
            notes: self.notes@,
        }
    }
}

/// A client and the action it takes next.
pub struct Turn {
    pub driver: DriverView,
    pub action: ActionView,
}

/// One more, as far as a counter goes.
pub open spec fn next(n: u64) -> u64 {
    if n < u64::MAX {
        (n + 1) as u64
    } else {
        n
    }
}

fn counted(n: u64) -> (r: u64)
    ensures
        r == next(n),
{
    if n < u64::MAX {
        n + 1
    } else {
        n
    }
}

// ---------------------------------------------------------------------------
// Building blocks
// ---------------------------------------------------------------------------

/// A client that has something to say.
pub open spec fn noted(d: DriverView, note: Note) -> DriverView {
    DriverView { notes: d.notes.push(note), ..d }
}

/// A client whose transaction failed.
pub open spec fn failed(d: DriverView, mishap: Mishap, op_num: u64) -> DriverView {
    noted(
        DriverView { tally: Tally { run_errors: next(d.tally.run_errors), ..d.tally }, ..d },
        Note::Failure { mishap, op_num },
    )
}

/// A client that caught the recipe breaking its promise in its last operation.
pub open spec fn accused(d: DriverView, breach: Breach) -> DriverView {
    noted(d, Note::Broken { breach, op_num: d.tally.issued })
}

/// A client that lost everything it knew and polls under a new name.
pub open spec fn reborn(d: DriverView, label: Seq<char>) -> DriverView {
    let incarnation = next(d.who.incarnation);
    DriverView {
        who: WhoView {
            participant: lease_plan::incarnation_name(
                label,
                d.plan.client_id,
                d.plan.process_id,
                incarnation,
            ),
            incarnation,
            local_state: LocalView::Unknown,
            last_leadership: None,
            stale_leadership: None,
        },
        ..d
    }
}

/// A client whose local state is this.
pub open spec fn knowing(d: DriverView, local: LocalView) -> DriverView {
    DriverView { who: WhoView { local_state: local, ..d.who }, ..d }
}

/// A client that has taken the number of its next operation.
pub open spec fn numbered(d: DriverView) -> DriverView {
    DriverView {
        tally: Tally { op_num: next(d.tally.op_num), issued: d.tally.op_num, ..d.tally },
        ..d
    }
}

/// A client that waits for an answer at a place.
pub open spec fn at(d: DriverView, place: Place) -> DriverView {
    DriverView { place, ..d }
}

/// A client that adopted an observation late.
pub open spec fn with_delay(tally: Tally, delay: Option<AdoptionDelay>) -> Tally {
    match delay {
        None => tally,
        Some(delay) => {
            let counted = Tally {
                delayed_adoption_count: next(tally.delayed_adoption_count),
                ..tally
            };
            match delay {
                AdoptionDelay::Shorter => Tally {
                    delayed_adoption_sub_lease_count: next(tally.delayed_adoption_sub_lease_count),
                    ..counted
                },
                AdoptionDelay::Exact => Tally {
                    delayed_adoption_exact_lease_count: next(
                        tally.delayed_adoption_exact_lease_count,
                    ),
                    ..counted
                },
                AdoptionDelay::Longer => Tally {
                    delayed_adoption_over_lease_count: next(
                        tally.delayed_adoption_over_lease_count,
                    ),
                    ..counted
                },
            }
        },
    }
}

/// A client that adopted what a poll returned: a leadership it holds becomes its
/// last one, and makes the one before it stale where that was of a lower rank.
pub open spec fn adopting(who: WhoView, local: LocalView) -> WhoView {
    match leadership_of(local) {
        None => WhoView { local_state: local, ..who },
        Some(token) => WhoView {
            local_state: local,
            last_leadership: Some(token),
            stale_leadership: match who.last_leadership {
                Some(last) if last.rank < token.rank => Some(last),
                _ => who.stale_leadership,
            },
            ..who
        },
    }
}

/// A client that adopted what a poll returned.
pub open spec fn adopted(d: DriverView, run: RunView) -> DriverView {
    DriverView {
        tally: with_delay(d.tally, run.adoption_delay),
        who: adopting(d.who, run.next_state),
        ..d
    }
}

/// A client after a poll of its completion script: it adopted what the poll
/// returned, or lost everything where the poll failed.
pub open spec fn polled_once(d: DriverView, run: Option<RunView>) -> DriverView {
    match run {
        Some(run) => adopted(d, run),
        None => reborn(failed(d, Mishap::CompletionPoll, d.tally.issued), "completion-poll-error"@),
    }
}

/// A client that polls with what it knows.
pub open spec fn polling(
    d: DriverView,
    place: Place,
    lease: nat,
    delay: Option<AdoptionDelay>,
) -> Turn {
    Turn {
        driver: at(numbered(d), place),
        action: ActionView::Poll {
            participant: d.who.participant,
            brings: d.who.local_state,
            tracks: true,
            lease_duration: lease,
            incarnation: d.who.incarnation,
            op_num: d.tally.op_num,
            delay,
        },
    }
}

/// A client that resigns.
pub open spec fn resigning(
    d: DriverView,
    place: Place,
    token: TokenView,
    tracks: bool,
    lease: nat,
    incarnation: u64,
) -> Turn {
    Turn {
        driver: at(numbered(d), place),
        action: ActionView::Resign {
            token,
            tracks,
            lease_duration: lease,
            incarnation,
            op_num: d.tally.op_num,
        },
    }
}

/// A client that writes at a stale rank.
pub open spec fn writing(d: DriverView, place: Place, rank: u64, lease: nat) -> Turn {
    Turn {
        driver: at(numbered(d), place),
        action: ActionView::StaleWrite {
            actor: d.who.participant,
            rank,
            lease_duration: lease,
            incarnation: d.who.incarnation,
            op_num: d.tally.op_num,
        },
    }
}

/// A client that waits.
pub open spec fn waiting(d: DriverView, place: Place, until: nat) -> Turn {
    Turn { driver: at(d, place), action: ActionView::Wait { until } }
}

impl Driver {
    fn note(&mut self, note: Note)
        ensures
            final(self)@ == noted(old(self)@, note),
    {
        self.notes.push(note);
    }

    fn fail(&mut self, mishap: Mishap, op_num: u64)
        ensures
            final(self)@ == failed(old(self)@, mishap, op_num),
    {
        self.tally.run_errors = counted(self.tally.run_errors);
        self.note(Note::Failure { mishap, op_num });
    }

    fn fail_last(&mut self, mishap: Mishap)
        ensures
            final(self)@ == failed(old(self)@, mishap, old(self)@.tally.issued),
    {
        let op_num: u64 = self.tally.issued;
        self.fail(mishap, op_num);
    }

    fn accuse(&mut self, breach: Breach)
        ensures
            final(self)@ == accused(old(self)@, breach),
    {
        let op_num: u64 = self.tally.issued;
        self.note(Note::Broken { breach, op_num });
    }

    /// Starts a new incarnation that knows nothing.
    pub fn replace_incarnation(&mut self, label: &str)
        ensures
            final(self)@ == reborn(old(self)@, label@),
    {
        let incarnation: u64 = counted(self.who.incarnation);
        self.who = Who {
            participant: name_incarnation(
                label,
                self.plan.client_id,
                self.plan.process_id,
                incarnation,
            ),
            incarnation,
            local_state: LocalInput::Unknown,
            last_leadership: None,
            stale_leadership: None,
        };
    }

    fn know(&mut self, local: LocalInput)
        ensures
            final(self)@ == knowing(old(self)@, local@),
    {
        self.who.local_state = local;
    }

    /// Takes the number of the next operation.
    pub fn next_op_num(&mut self) -> (r: u64)
        ensures
            r == old(self)@.tally.op_num,
            final(self)@ == numbered(old(self)@),
    {
        let op_num: u64 = self.tally.op_num;
        self.tally.op_num = counted(op_num);
        self.tally.issued = op_num;
        op_num
    }

    fn go(&mut self, place: Place)
        ensures
            final(self)@ == at(old(self)@, place),
    {
        self.place = place;
    }

    /// Counts an observation that was adopted late, if one was.
    pub fn record_delayed_adoption(&mut self, delay: Option<AdoptionDelay>)
        ensures
            final(self)@ == (DriverView {
                tally: with_delay(old(self)@.tally, delay),
                ..old(self)@
            }),
    {
        match delay {
            None => {},
            Some(delay) => {
                self.tally.delayed_adoption_count = counted(self.tally.delayed_adoption_count);
                match delay {
                    AdoptionDelay::Shorter => {
                        self.tally.delayed_adoption_sub_lease_count =
                        counted(self.tally.delayed_adoption_sub_lease_count);
                    },
                    AdoptionDelay::Exact => {
                        self.tally.delayed_adoption_exact_lease_count =
                        counted(self.tally.delayed_adoption_exact_lease_count);
                    },
                    AdoptionDelay::Longer => {
                        self.tally.delayed_adoption_over_lease_count =
                        counted(self.tally.delayed_adoption_over_lease_count);
                    },
                }
            },
        }
    }

    fn adopt(&mut self, run: PollRun) -> (r: Option<Token>)
        ensures
            final(self)@ == adopted(old(self)@, run@),
            token_view(r) == leadership_of(run@.next_state),
    {
        self.record_delayed_adoption(run.adoption_delay);
        let token = token_of(&run.next_state);
        match &token {
            None => {},
            Some(held) => {
                let passed = match &self.who.last_leadership {
                    Some(last) => last.rank < held.rank,
                    None => false,
                };
                if passed {
                    self.who.stale_leadership = clone_token(&self.who.last_leadership);
                }
                self.who.last_leadership = Some(held.clone());
            },
        }
        self.who.local_state = run.next_state;
        token
    }

    fn poll_once(&mut self, run: Option<PollRun>) -> (r: Option<Token>)
        ensures
            final(self)@ == polled_once(old(self)@, run_view(run)),
            token_view(r) == won(run_view(run)),
    {
        match run {
            Some(run) => self.adopt(run),
            None => {
                self.fail_last(Mishap::CompletionPoll);
                self.replace_incarnation("completion-poll-error");
                None
            },
        }
    }

    fn poll(&mut self, place: Place, lease: Duration, delay: Option<AdoptionDelay>) -> (r: Action)
        ensures
            (Turn { driver: final(self)@, action: r@ }) == polling(
                old(self)@,
                place,
                lease@,
                delay,
            ),
    {
        let participant = self.who.participant.clone();
        let brings = self.who.local_state.clone();
        let incarnation: u64 = self.who.incarnation;
        let op_num: u64 = self.next_op_num();
        self.go(place);
        Action::Poll {
            participant,
            brings,
            tracks: true,
            lease_duration: lease,
            incarnation,
            op_num,
            delay,
        }
    }

    fn resign(
        &mut self,
        place: Place,
        token: Token,
        tracks: bool,
        lease: Duration,
        incarnation: u64,
    ) -> (r: Action)
        ensures
            (Turn { driver: final(self)@, action: r@ }) == resigning(
                old(self)@,
                place,
                token@,
                tracks,
                lease@,
                incarnation,
            ),
    {
        let op_num: u64 = self.next_op_num();
        self.go(place);
        Action::Resign { token, tracks, lease_duration: lease, incarnation, op_num }
    }

    fn write(&mut self, place: Place, rank: u64, lease: Duration) -> (r: Action)
        ensures
            (Turn { driver: final(self)@, action: r@ }) == writing(old(self)@, place, rank, lease@),
    {
        let actor = self.who.participant.clone();
        let incarnation: u64 = self.who.incarnation;
        let op_num: u64 = self.next_op_num();
        self.go(place);
        Action::StaleWrite { actor, rank, lease_duration: lease, incarnation, op_num }
    }

    fn wait(&mut self, place: Place, until: Duration) -> (r: Action)
        ensures
            (Turn { driver: final(self)@, action: r@ }) == waiting(old(self)@, place, until@),
    {
        self.go(place);
        Action::Wait { until }
    }
}

// ---------------------------------------------------------------------------
// A round
// ---------------------------------------------------------------------------

/// The next round, or the end of the rounds.
#[verifier::opaque]
pub open spec fn round_begun(d: DriverView) -> Turn {
    if d.cursor.round < d.plan.operation_count {
        Turn { driver: at(d, Place::RoundWeight), action: ActionView::Draw }
    } else {
        marking(d, Place::ReadyMark, Barrier::Ready, Status::Ready)
    }
}

/// A round whose weight was drawn: it polls, or goes on without.
#[verifier::opaque]
pub open spec fn round_weighed(d: DriverView, random: u32, now: nat) -> Turn {
    let weight = random % 100;
    let weighed = DriverView {
        cursor: Cursor { weight, forced_pause: false, ..d.cursor },
        spans: SpansView {
            round: if d.plan.changes_lease(weight) {
                d.plan.round_lease(d.cursor.round)
            } else {
                d.plan.lease_duration@
            },
            ..d.spans
        },
        ..d
    };
    let counted = DriverView {
        tally: Tally { poll_count: next(d.tally.poll_count), ..d.tally },
        ..weighed
    };
    if !d.plan.polls(d.cursor.round, weight) {
        round_polled(weighed, now)
    } else if d.plan.opts(OPTIONAL_DELAYED_ADOPTION) {
        Turn { driver: at(counted, Place::RoundDelay), action: ActionView::Draw }
    } else {
        polling(counted, Place::RoundPoll, counted.spans.round, None)
    }
}

/// A round whose adoption delay was drawn polls.
#[verifier::opaque]
pub open spec fn round_delayed(d: DriverView, random: u32) -> Turn {
    polling(d, Place::RoundPoll, d.spans.round, Some(AdoptionDelay::numbered(random as int)))
}

/// A round that led: it is counted, it ends in a pause across the boundary of the
/// lease unless one was made before.
pub open spec fn round_led(d: DriverView) -> DriverView {
    DriverView {
        tally: Tally { leader_count: next(d.tally.leader_count), ..d.tally },
        cursor: Cursor { forced_pause: !d.tally.expiry_pause_completed, ..d.cursor },
        ..d
    }
}

/// A round whose poll came back. A leader tries a write at rank zero unless one
/// was turned down before.
#[verifier::opaque]
pub open spec fn round_answered(d: DriverView, run: Option<RunView>, now: nat) -> Turn {
    match run {
        None => round_polled(reborn(failed(d, Mishap::Poll, d.tally.issued), "poll-error"@), now),
        Some(run) => {
            let after = adopted(d, run);
            if leadership_of(run.next_state) is None {
                round_polled(after, now)
            } else if after.tally.zero_stale_write_completed {
                round_polled(round_led(after), now)
            } else {
                writing(round_led(after), Place::RoundZeroWrite, 0, after.spans.round)
            }
        },
    }
}

/// A round whose write at rank zero came back.
#[verifier::opaque]
pub open spec fn round_zero_written(d: DriverView, committed: Option<bool>, now: nat) -> Turn {
    round_polled(
        match committed {
            Some(true) => accused(d, Breach::ZeroRankStaleWriteCommitted),
            Some(false) => DriverView {
                tally: Tally { zero_stale_write_completed: true, ..d.tally },
                ..d
            },
            None => failed(d, Mishap::ZeroRankStaleWrite, d.tally.issued),
        },
        now,
    )
}

/// A round that is done polling observes, where its weight has it so.
#[verifier::opaque]
pub open spec fn round_polled(d: DriverView, now: nat) -> Turn {
    if d.plan.opts(OPTIONAL_OBSERVER) && d.plan.observes(d.cursor.weight) {
        Turn {
            driver: at(numbered(d), Place::RoundObserve),
            action: ActionView::Observe {
                actor: d.who.participant,
                lease_duration: d.plan.lease_duration@,
                incarnation: d.who.incarnation,
                op_num: d.tally.op_num,
            },
        }
    } else {
        round_observed(d, now)
    }
}

/// A round that is done observing resigns, where its weight has it so and it
/// leads.
#[verifier::opaque]
pub open spec fn round_observed(d: DriverView, now: nat) -> Turn {
    match leadership_of(d.who.local_state) {
        Some(token) if d.plan.opts(OPTIONAL_RESIGN) && d.plan.resigns(d.cursor.weight) => resigning(
            d,
            Place::RoundResign,
            token,
            true,
            d.spans.round,
            d.who.incarnation,
        ),
        _ => round_resigned(d, now),
    }
}

/// A round whose resignation came back.
#[verifier::opaque]
pub open spec fn round_released(d: DriverView, released: Option<bool>, now: nat) -> Turn {
    match released {
        Some(true) => foreign_begun(
            knowing(d, LocalView::Unknown),
            AfterForeign::Round,
            d.spans.round,
            if d.plan.opts(OPTIONAL_DELAYED_ADOPTION) {
                Some(AdoptionDelay::Longer)
            } else {
                None
            },
        ),
        Some(false) => round_resigned(d, now),
        None => round_resigned(
            reborn(failed(d, Mishap::Resign, d.tally.issued), "resign-error"@),
            now,
        ),
    }
}

/// A round that is done resigning tries a stale token, where its weight has it so
/// and it has one that was not tried before.
#[verifier::opaque]
pub open spec fn round_resigned(d: DriverView, now: nat) -> Turn {
    match d.who.stale_leadership {
        Some(token) if d.plan.goes_stale(d.cursor.weight) && !d.tally.stale_actions_completed =>
        stale_begun(d, AfterStale::Round, token),
        _ => round_tried(d, now),
    }
}

/// A round that is done with stale tokens loses its local state, where its weight
/// has it so, and every third takes a snapshot.
#[verifier::opaque]
pub open spec fn round_tried(d: DriverView, now: nat) -> Turn {
    let after = if d.plan.drops(d.cursor.weight) {
        noted(reborn(d, "dropped"@), Note::LostLocalState { round: d.cursor.round })
    } else {
        d
    };
    if d.cursor.round % 3 == 0 {
        Turn { driver: at(after, Place::RoundSnapshot), action: ActionView::Snapshot }
    } else {
        round_paused(after, now)
    }
}

/// A round whose snapshot came back.
#[verifier::opaque]
pub open spec fn round_checked(d: DriverView, event: EventView, now: nat) -> Turn {
    round_paused(
        match event {
            EventView::Failed => failed(d, Mishap::Snapshot, d.tally.op_num),
            EventView::Incoherent => noted(
                d,
                Note::Broken {
                    breach: Breach::SnapshotInvariantFailed,
                    op_num: d.tally.op_num,
                },
            ),
            _ => d,
        },
        now,
    )
}

/// A round ends in a pause: across the boundary of a lease, where the round led
/// for the first time or its weight has it so, and until the next round is due
/// otherwise.
#[verifier::opaque]
pub open spec fn round_paused(d: DriverView, now: nat) -> Turn {
    let local = d.who.local_state;
    if d.cursor.forced_pause {
        waiting(
            DriverView { tally: Tally { expiry_pause_completed: true, ..d.tally }, ..d },
            Place::RoundWait,
            Plan::boundary_at(local, now),
        )
    } else if d.plan.opts(OPTIONAL_PAUSE) && d.plan.changes_lease(d.cursor.weight) {
        waiting(d, Place::RoundWait, Plan::boundary_at(local, now))
    } else {
        waiting(d, Place::RoundWait, d.plan.next_round_at(d.cursor.round, local, now))
    }
}

/// A round that is over gives way to the next.
#[verifier::opaque]
pub open spec fn round_ended(d: DriverView) -> Turn {
    if d.cursor.round < d.plan.operation_count {
        round_begun(
            DriverView { cursor: Cursor { round: (d.cursor.round + 1) as usize, ..d.cursor }, ..d },
        )
    } else {
        round_begun(d)
    }
}

// ---------------------------------------------------------------------------
// The coordinated race
// ---------------------------------------------------------------------------

/// A client that writes its marker at a barrier.
pub open spec fn marking(d: DriverView, place: Place, barrier: Barrier, status: Status) -> Turn {
    Turn {
        driver: at(DriverView { cursor: Cursor { status, ..d.cursor }, ..d }, place),
        action: ActionView::Mark { barrier, status, again: false },
    }
}

/// A marker came back: it is written again until it is there, and then the others
/// are waited for.
#[verifier::opaque]
pub open spec fn barrier_marked(d: DriverView, place: Place, barrier: Barrier, event: EventView) -> Turn {
    if event is Failed {
        Turn {
            driver: failed(d, Mishap::MarkerWrite, d.tally.op_num),
            action: ActionView::Mark { barrier, status: d.cursor.status, again: true },
        }
    } else {
        Turn { driver: at(d, place), action: ActionView::Await { barrier, again: false } }
    }
}

/// A client that is still waiting at a barrier.
#[verifier::opaque]
pub open spec fn barrier_awaited(d: DriverView, barrier: Barrier, event: EventView) -> Turn {
    Turn {
        driver: if event.settled() is None {
            failed(d, Mishap::MarkerRead, d.tally.op_num)
        } else {
            d
        },
        action: ActionView::Await { barrier, again: true },
    }
}

/// The race begins with a poll of an incarnation that knows nothing.
#[verifier::opaque]
pub open spec fn race_begun(d: DriverView) -> Turn {
    let racer = reborn(d, "race"@);
    polling(
        DriverView { cursor: Cursor { race_failed: false, ..d.cursor }, ..racer },
        Place::RaceFirst,
        d.plan.lease_duration@,
        None,
    )
}

/// The race's first poll came back.
#[verifier::opaque]
pub open spec fn race_entered(d: DriverView, run: Option<RunView>) -> Turn {
    let after = match run {
        Some(run) => knowing(d, run.next_state),
        None => {
            let lost = reborn(
                failed(d, Mishap::RaceInitialPoll, d.tally.issued),
                "race-initial-poll-error"@,
            );
            DriverView { cursor: Cursor { race_failed: true, ..d.cursor }, ..lost }
        },
    };
    marking(after, Place::RaceMarkObserved, Barrier::Observed, Status::Ready)
}

/// Every client has polled: one that observed a leader waits its lease out.
#[verifier::opaque]
pub open spec fn race_watched(d: DriverView) -> Turn {
    match d.who.local_state {
        LocalView::Observation { rank, lease_duration, observed_at, .. } => waiting(
            DriverView { cursor: Cursor { race_rank: rank, ..d.cursor }, ..d },
            Place::RaceWait,
            lease_oracle::span_sum(observed_at, lease_duration),
        ),
        _ => marking(d, Place::RaceMarkExpired, Barrier::Expired, Status::Ready),
    }
}

/// A client that is done racing says how it went.
#[verifier::opaque]
pub open spec fn race_over(d: DriverView, status: Status) -> Turn {
    marking(d, Place::RaceMarkDone, Barrier::Done, status)
}

/// Every lease has run out: a client that observed a leader bids.
#[verifier::opaque]
pub open spec fn race_started(d: DriverView) -> Turn {
    if d.cursor.race_failed {
        race_over(d, Status::Error)
    } else if d.who.local_state is Observation {
        polling(d, Place::RacePoll, d.plan.lease_duration@, None)
    } else {
        race_over(d, Status::Incumbent)
    }
}

/// A bid came back: whoever won, a write at the predecessor's rank must fail.
#[verifier::opaque]
pub open spec fn race_answered(d: DriverView, run: Option<RunView>) -> Turn {
    match run {
        Some(run) => writing(
            knowing(d, run.next_state),
            Place::RaceWrite,
            d.cursor.race_rank,
            d.plan.lease_duration@,
        ),
        None => race_over(
            reborn(failed(d, Mishap::RacePoll, d.tally.issued), "race-poll-error"@),
            Status::Error,
        ),
    }
}

/// A contender's stale write came back.
#[verifier::opaque]
pub open spec fn race_written(d: DriverView, committed: Option<bool>) -> Turn {
    match committed {
        Some(false) => race_over(d, Status::Contended),
        Some(true) => race_over(accused(d, Breach::RaceStaleWriteCommitted), Status::Error),
        None => race_over(failed(d, Mishap::RaceStaleWrite, d.tally.issued), Status::Error),
    }
}

/// Every client has raced: the first one counts, the others are done.
#[verifier::opaque]
pub open spec fn race_closed(d: DriverView) -> Turn {
    if d.plan.client_id == 0 {
        Turn {
            driver: at(d, Place::RaceCollect),
            action: ActionView::Collect { barrier: Barrier::Done, again: false },
        }
    } else {
        finished(d)
    }
}

/// The race ran to the end where at least two contended and nobody failed; what they
/// wrote is read until it was.
#[verifier::opaque]
pub open spec fn race_counted(d: DriverView, statuses: Option<Seq<Seq<u8>>>) -> Turn {
    match statuses {
        Some(statuses) => {
            let contenders = count_of(statuses, Status::Contended, statuses.len() as int);
            let errors = count_of(statuses, Status::Error, statuses.len() as int);
            completion_begun(
                DriverView {
                    tally: Tally {
                        coordinated_race_contenders: contenders as usize,
                        coordinated_race_completed: contenders >= 2 && errors == 0,
                        errors_before_completion: d.tally.run_errors,
                        ..d.tally
                    },
                    ..d
                },
            )
        },
        None => Turn {
            driver: failed(d, Mishap::StatusRead, d.tally.op_num),
            action: ActionView::Collect { barrier: Barrier::Done, again: true },
        },
    }
}

/// The end of the script.
#[verifier::opaque]
pub open spec fn finished(d: DriverView) -> Turn {
    Turn { driver: at(d, Place::Done), action: ActionView::Finish }
}

// ---------------------------------------------------------------------------
// Trying out a stale token
// ---------------------------------------------------------------------------

/// A poll with a token that ought to be stale.
#[verifier::opaque]
pub open spec fn stale_begun(d: DriverView, then: AfterStale, token: TokenView) -> Turn {
    Turn {
        driver: DriverView { held: Some(token), ..at(numbered(d), Place::StalePoll(then)) },
        action: ActionView::Poll {
            participant: d.who.participant,
            brings: token.local(),
            tracks: false,
            lease_duration: d.plan.lease_duration@,
            incarnation: d.who.incarnation,
            op_num: d.tally.op_num,
            delay: None,
        },
    }
}

/// The poll came back: it must not have renewed anything. Then the token's lease
/// is waited out.
#[verifier::opaque]
pub open spec fn stale_polled(d: DriverView, then: AfterStale, run: Option<RunView>, now: nat) -> Turn {
    let after = match run {
        Some(run) => if run.transition == PollTransition::Renewed {
            accused(d, Breach::StaleRenewSucceeded)
        } else {
            d
        },
        None => failed(d, Mishap::StaleRenew, d.tally.issued),
    };
    match d.held {
        Some(token) => waiting(
            after,
            Place::StaleWait(then),
            lease_oracle::span_sum(
                lease_oracle::span_sum(token.renewed_at, token.lease_duration),
                1_000_000,
            ),
        ),
        None => stale_over(after, then, now),
    }
}

/// The token is resigned.
#[verifier::opaque]
pub open spec fn stale_waited(d: DriverView, then: AfterStale, now: nat) -> Turn {
    match d.held {
        Some(token) => resigning(
            d,
            Place::StaleResign(then),
            token,
            false,
            d.plan.lease_duration@,
            d.who.incarnation,
        ),
        None => stale_over(d, then, now),
    }
}

/// The resignation came back: it must not have released anything. Then a write at
/// the token's rank is tried.
#[verifier::opaque]
pub open spec fn stale_resigned(
    d: DriverView,
    then: AfterStale,
    released: Option<bool>,
    now: nat,
) -> Turn {
    let after = match released {
        Some(true) => accused(d, Breach::StaleResignSucceeded),
        Some(false) => d,
        None => failed(d, Mishap::StaleResign, d.tally.issued),
    };
    match d.held {
        Some(token) => writing(
            after,
            Place::StaleWrite(then),
            token.rank,
            d.plan.lease_duration@,
        ),
        None => stale_over(after, then, now),
    }
}

/// The write came back: it must not have committed.
#[verifier::opaque]
pub open spec fn stale_written(
    d: DriverView,
    then: AfterStale,
    committed: Option<bool>,
    now: nat,
) -> Turn {
    stale_over(
        match committed {
            Some(true) => accused(d, Breach::StaleWriteCommitted),
            Some(false) => DriverView {
                tally: Tally { stale_actions_completed: true, ..d.tally },
                ..d
            },
            None => failed(d, Mishap::StaleWrite, d.tally.issued),
        },
        then,
        now,
    )
}

/// Where the script goes once a stale token has been tried out.
#[verifier::opaque]
pub open spec fn stale_over(d: DriverView, then: AfterStale, now: nat) -> Turn {
    match then {
        AfterStale::Round => round_tried(d, now),
        AfterStale::Phase => phase_resigning(d),
        AfterStale::Foreign(then) => foreign_over(d, then, now),
    }
}

// ---------------------------------------------------------------------------
// A foreign takeover
// ---------------------------------------------------------------------------

/// A stranger polls under a lease two seconds longer.
#[verifier::opaque]
pub open spec fn foreign_begun(
    d: DriverView,
    then: AfterForeign,
    lease: nat,
    delay: Option<AdoptionDelay>,
) -> Turn {
    Turn {
        driver: DriverView {
            spans: SpansView { lease, ..d.spans },
            cursor: Cursor { follower_delay: delay, ..d.cursor },
            ..at(numbered(d), Place::ForeignPoll(then))
        },
        action: ActionView::Poll {
            participant: lease_plan::incarnation_name(
                "foreign"@,
                d.plan.client_id,
                d.plan.process_id,
                d.who.incarnation,
            ),
            brings: LocalView::Unknown,
            tracks: false,
            lease_duration: lease_oracle::span_sum(lease, 2_000_000_000),
            incarnation: d.who.incarnation,
            op_num: d.tally.op_num,
            delay: None,
        },
    }
}

/// The stranger's poll came back: where it leads, the client follows it.
#[verifier::opaque]
pub open spec fn foreign_polled(
    d: DriverView,
    then: AfterForeign,
    run: Option<RunView>,
    now: nat,
) -> Turn {
    match run {
        None => foreign_over(failed(d, Mishap::ForeignTakeoverPoll, d.tally.issued), then, now),
        Some(run) => match leadership_of(run.next_state) {
            None => foreign_over(d, then, now),
            Some(token) => polling(
                DriverView { held: Some(token), ..knowing(d, LocalView::Unknown) },
                Place::ForeignFollow(then),
                d.spans.lease,
                d.cursor.follower_delay,
            ),
        },
    }
}

/// Whether a client watches somebody else under the lease of the token it holds
/// against them.
pub open spec fn watches_a_stranger(d: DriverView) -> bool {
    match (d.who.local_state, d.held) {
        (LocalView::Observation { owner, lease_duration, .. }, Some(token)) => owner
            != d.who.participant && lease_duration == token.lease_duration,
        _ => false,
    }
}

/// The client watches the stranger's lease run out to the last millisecond.
#[verifier::opaque]
pub open spec fn foreign_followed(
    d: DriverView,
    then: AfterForeign,
    run: Option<RunView>,
    now: nat,
) -> Turn {
    let after = polled_once(d, run);
    match expiry_of(after.who.local_state) {
        Some(expiry) if watches_a_stranger(after) => waiting(
            DriverView { spans: SpansView { expiry, ..d.spans }, ..after },
            Place::ForeignBefore(then),
            lease_oracle::elapsed(1_000_000, expiry),
        ),
        _ => foreign_over(after, then, now),
    }
}

/// Just before the lease runs out the client polls.
#[verifier::opaque]
pub open spec fn foreign_early(d: DriverView, then: AfterForeign) -> Turn {
    polling(d, Place::ForeignEarly(then), d.spans.lease, None)
}

/// It waits for the very end of the lease.
#[verifier::opaque]
pub open spec fn foreign_waited(d: DriverView, then: AfterForeign, run: Option<RunView>) -> Turn {
    waiting(polled_once(d, run), Place::ForeignExact(then), d.spans.expiry)
}

/// It polls again.
#[verifier::opaque]
pub open spec fn foreign_due(d: DriverView, then: AfterForeign) -> Turn {
    polling(d, Place::ForeignDue(then), d.spans.lease, None)
}

/// Where the client took over, the stranger's token is stale and is tried out.
#[verifier::opaque]
pub open spec fn foreign_taken(
    d: DriverView,
    then: AfterForeign,
    run: Option<RunView>,
    now: nat,
) -> Turn {
    let after = polled_once(d, run);
    match (won(run), d.held) {
        (Some(token), Some(held)) if token.rank > held.rank => stale_begun(
            after,
            AfterStale::Foreign(then),
            held,
        ),
        _ => foreign_over(after, then, now),
    }
}

/// Where the script goes once a foreign takeover is over.
#[verifier::opaque]
pub open spec fn foreign_over(d: DriverView, then: AfterForeign, now: nat) -> Turn {
    match then {
        AfterForeign::Round => round_resigned(d, now),
        AfterForeign::Phase => phase_resetting(d),
    }
}

// ---------------------------------------------------------------------------
// The completion phases
// ---------------------------------------------------------------------------

/// The completion phases begin with an incarnation that knows nothing.
#[verifier::opaque]
pub open spec fn completion_begun(d: DriverView) -> Turn {
    phase_begun(
        DriverView { cursor: Cursor { phase: 0, ..d.cursor }, ..reborn(d, "replacement"@) },
    )
}

/// The delay of the phase a client is in.
pub open spec fn phase_delay(d: DriverView) -> Option<AdoptionDelay> {
    Some(AdoptionDelay::numbered(d.cursor.phase as int))
}

/// The round that a phase stands for where leases change from round to round:
/// phases go on counting where the rounds end, and start over beyond the last
/// number.
pub open spec fn phase_round(d: DriverView, phase: int) -> usize {
    if d.plan.operation_count + phase > usize::MAX {
        (d.plan.operation_count + phase - usize::MAX - 1) as usize
    } else {
        (d.plan.operation_count + phase) as usize
    }
}

/// A phase begins with a poll under the phase's lease; after the last phase come
/// the final witnesses.
#[verifier::opaque]
pub open spec fn phase_begun(d: DriverView) -> Turn {
    if d.cursor.phase < 3 {
        let base = d.plan.round_lease(phase_round(d, d.cursor.phase as int));
        polling(
            DriverView { spans: SpansView { base, ..d.spans }, ..d },
            Place::PhaseFirst,
            base,
            phase_delay(d),
        )
    } else {
        final_begun(d)
    }
}

/// Where the client leads, it renews under the next phase's lease.
#[verifier::opaque]
pub open spec fn phase_led(d: DriverView, run: Option<RunView>) -> Turn {
    let after = polled_once(d, run);
    match won(run) {
        Some(token) => {
            let lease = d.plan.round_lease(phase_round(d, d.cursor.phase + 1));
            polling(
                DriverView {
                    held: Some(token),
                    spans: SpansView { lease, ..d.spans },
                    ..after
                },
                Place::PhaseRenew,
                lease,
                phase_delay(d),
            )
        },
        None => phase_watching(after),
    }
}

/// Where it renewed at a higher rank, the token it had before is tried out.
#[verifier::opaque]
pub open spec fn phase_renewed(d: DriverView, run: Option<RunView>) -> Turn {
    let after = polled_once(d, run);
    match won(run) {
        None => phase_resetting(after),
        Some(token) => {
            let renewed = DriverView { renewed: Some(token), ..after };
            match d.held {
                Some(first) if first.rank < token.rank => stale_begun(
                    renewed,
                    AfterStale::Phase,
                    first,
                ),
                _ => phase_resigning(renewed),
            }
        },
    }
}

/// It resigns what it renewed.
#[verifier::opaque]
pub open spec fn phase_resigning(d: DriverView) -> Turn {
    match d.renewed {
        Some(token) => resigning(
            d,
            Place::PhaseResign,
            token,
            true,
            d.spans.lease,
            d.who.incarnation,
        ),
        None => phase_resetting(d),
    }
}

/// Where that released the election, a stranger takes it.
#[verifier::opaque]
pub open spec fn phase_released(d: DriverView, released: Option<bool>) -> Turn {
    match released {
        Some(true) => foreign_begun(
            knowing(d, LocalView::Unknown),
            AfterForeign::Phase,
            d.spans.lease,
            phase_delay(d),
        ),
        Some(false) => phase_resetting(
            noted(d, Note::ResignContended { op_num: d.tally.issued }),
        ),
        None => phase_resetting(
            reborn(failed(d, Mishap::ExactResign, d.tally.issued), "exact-resign-error"@),
        ),
    }
}

/// A new incarnation polls.
#[verifier::opaque]
pub open spec fn phase_resetting(d: DriverView) -> Turn {
    polling(reborn(d, "completion-reset"@), Place::PhaseReset, d.spans.lease, phase_delay(d))
}

/// Where the client watches somebody, it waits until the lease has almost run
/// out.
#[verifier::opaque]
pub open spec fn phase_watching(d: DriverView) -> Turn {
    match expiry_of(d.who.local_state) {
        Some(expiry) => waiting(
            DriverView { spans: SpansView { expiry, ..d.spans }, ..d },
            Place::PhaseBefore,
            lease_oracle::elapsed(1_000_000, expiry),
        ),
        None => phase_expiring(d),
    }
}

/// Where it leads, it waits until its own lease has run out.
#[verifier::opaque]
pub open spec fn phase_expiring(d: DriverView) -> Turn {
    match leadership_of(d.who.local_state) {
        Some(token) => waiting(
            d,
            Place::PhaseAfter,
            lease_oracle::span_sum(
                lease_oracle::span_sum(token.renewed_at, token.lease_duration),
                1_000_000,
            ),
        ),
        None => phase_ended(d),
    }
}

/// A phase that is over gives way to the next.
#[verifier::opaque]
pub open spec fn phase_ended(d: DriverView) -> Turn {
    if d.cursor.phase < 3 {
        phase_begun(
            DriverView { cursor: Cursor { phase: (d.cursor.phase + 1) as usize, ..d.cursor }, ..d },
        )
    } else {
        phase_begun(d)
    }
}

// ---------------------------------------------------------------------------
// The final witnesses
// ---------------------------------------------------------------------------

/// A new incarnation polls, to adopt late what it observes.
#[verifier::opaque]
pub open spec fn final_begun(d: DriverView) -> Turn {
    let base = d.plan.round_lease(phase_round(d, 3));
    polling(
        DriverView {
            spans: SpansView { base, ..d.spans },
            ..reborn(d, "final-delayed-adoption"@)
        },
        Place::FinalFirst,
        base,
        Some(AdoptionDelay::Longer),
    )
}

/// Where it leads instead, another one follows it.
#[verifier::opaque]
pub open spec fn final_followed(d: DriverView, run: Option<RunView>) -> Turn {
    let after = polled_once(d, run);
    if after.who.local_state is Leadership {
        polling(
            reborn(after, "final-delayed-adoption-follower"@),
            Place::FinalFollower,
            d.spans.base,
            Some(AdoptionDelay::Longer),
        )
    } else {
        final_adopted(after)
    }
}

/// What was adopted late is brought to one more poll.
#[verifier::opaque]
pub open spec fn final_adopted(d: DriverView) -> Turn {
    if d.who.local_state is Observation {
        polling(d, Place::FinalLast, d.spans.base, None)
    } else {
        exact_begun(d)
    }
}

/// The lease under which the final leader polls: a second short of the longest.
pub open spec fn final_lease() -> nat {
    (duration::longest() - 1_000_000_000) as nat
}

/// A new incarnation polls until it leads.
#[verifier::opaque]
pub open spec fn exact_begun(d: DriverView) -> Turn {
    exact_polling(reborn(d, "final-exact-resign"@))
}

/// It polls under a lease that no jump of the clock outlasts.
#[verifier::opaque]
pub open spec fn exact_polling(d: DriverView) -> Turn {
    polling(
        DriverView { spans: SpansView { lease: final_lease(), ..d.spans }, ..d },
        Place::ExactPoll,
        final_lease(),
        None,
    )
}

/// Where it leads, it renews under a lease a second longer; where it does not, it
/// waits out whoever does.
#[verifier::opaque]
pub open spec fn exact_polled(d: DriverView, run: Option<RunView>) -> Turn {
    let after = polled_once(d, run);
    match won(run) {
        Some(token) => {
            let lease = lease_oracle::span_sum(token.lease_duration, 1_000_000_000);
            polling(
                DriverView {
                    spans: SpansView { lease, ..d.spans },
                    cursor: Cursor { leader_incarnation: after.who.incarnation, ..d.cursor },
                    ..after
                },
                Place::ExactRenew,
                lease,
                None,
            )
        },
        None => match expiry_of(after.who.local_state) {
            Some(expiry) => waiting(after, Place::ExactWait, lease_oracle::span_sum(expiry, 1)),
            None => Turn { driver: at(after, Place::ExactWait), action: ActionView::Yield },
        },
    }
}

/// A follower sees the lease change.
#[verifier::opaque]
pub open spec fn exact_renewed(d: DriverView, run: Option<RunView>) -> Turn {
    let after = polled_once(d, run);
    match won(run) {
        None => completed(after),
        Some(token) => polling(
            reborn(
                DriverView { renewed: Some(token), ..after },
                "final-duration-reset-follower"@,
            ),
            Place::ExactFollower,
            d.spans.lease,
            None,
        ),
    }
}

/// The leader resigns.
#[verifier::opaque]
pub open spec fn exact_resigning(d: DriverView, run: Option<RunView>) -> Turn {
    let after = polled_once(d, run);
    match d.renewed {
        Some(token) => resigning(
            after,
            Place::ExactResign,
            token,
            true,
            d.spans.lease,
            d.cursor.leader_incarnation,
        ),
        None => completed(after),
    }
}

/// The final resignation came back: nobody can have got in before it.
#[verifier::opaque]
pub open spec fn exact_resigned(d: DriverView, released: Option<bool>) -> Turn {
    completed(
        match released {
            Some(true) => d,
            Some(false) => accused(d, Breach::FinalExactResignContended),
            None => failed(d, Mishap::FinalExactResign, d.tally.issued),
        },
    )
}

/// The end of the completion phases: what failed in them is counted apart.
#[verifier::opaque]
pub open spec fn completed(d: DriverView) -> Turn {
    finished(
        DriverView {
            tally: Tally {
                completion_run_errors: if d.tally.run_errors
                    >= d.tally.errors_before_completion {
                    (d.tally.run_errors - d.tally.errors_before_completion) as u64
                } else {
                    0
                },
                ..d.tally
            },
            ..d
        },
    )
}

// ---------------------------------------------------------------------------
// The script
// ---------------------------------------------------------------------------

/// Where a round, or the wait for its end, goes.
#[verifier::opaque]
pub open spec fn after_round(d: DriverView, event: EventView, now: nat) -> Turn {
    match d.place {
        Place::RoundWeight => round_weighed(d, event.drawn(), now),
        Place::RoundDelay => round_delayed(d, event.drawn()),
        Place::RoundPoll => round_answered(d, event.run(), now),
        Place::RoundZeroWrite => round_zero_written(d, event.settled(), now),
        Place::RoundObserve => round_observed(
            if event is Failed {
                failed(d, Mishap::Observer, d.tally.issued)
            } else {
                d
            },
            now,
        ),
        Place::RoundResign => round_released(d, event.settled(), now),
        Place::RoundSnapshot => round_checked(d, event, now),
        _ => round_ended(d),
    }
}

/// Where the race goes.
#[verifier::opaque]
pub open spec fn after_race(d: DriverView, event: EventView) -> Turn {
    match d.place {
        Place::ReadyMark => barrier_marked(d, Place::ReadyAwait, Barrier::Ready, event),
        Place::ReadyAwait => if event.settled() == Some(true) {
            race_begun(d)
        } else {
            barrier_awaited(d, Barrier::Ready, event)
        },
        Place::RaceFirst => race_entered(d, event.run()),
        Place::RaceMarkObserved => barrier_marked(
            d,
            Place::RaceAwaitObserved,
            Barrier::Observed,
            event,
        ),
        Place::RaceAwaitObserved => if event.settled() == Some(true) {
            race_watched(d)
        } else {
            barrier_awaited(d, Barrier::Observed, event)
        },
        Place::RaceWait => marking(
            d,
            Place::RaceMarkExpired,
            Barrier::Expired,
            Status::Ready,
        ),
        Place::RaceMarkExpired => barrier_marked(
            d,
            Place::RaceAwaitExpired,
            Barrier::Expired,
            event,
        ),
        Place::RaceAwaitExpired => if event.settled() == Some(true) {
            race_started(d)
        } else {
            barrier_awaited(d, Barrier::Expired, event)
        },
        Place::RacePoll => race_answered(d, event.run()),
        Place::RaceWrite => race_written(d, event.settled()),
        Place::RaceMarkDone => barrier_marked(d, Place::RaceAwaitDone, Barrier::Done, event),
        Place::RaceAwaitDone => if event.settled() == Some(true) {
            race_closed(d)
        } else {
            barrier_awaited(d, Barrier::Done, event)
        },
        _ => race_counted(d, event.statuses()),
    }
}

/// Where the completion phases go.
#[verifier::opaque]
pub open spec fn after_phase(d: DriverView, event: EventView) -> Turn {
    match d.place {
        Place::PhaseFirst => phase_led(d, event.run()),
        Place::PhaseRenew => phase_renewed(d, event.run()),
        Place::PhaseResign => phase_released(d, event.settled()),
        Place::PhaseReset => phase_watching(polled_once(d, event.run())),
        Place::PhaseBefore => polling(d, Place::PhaseEarly, d.spans.base, phase_delay(d)),
        Place::PhaseEarly => waiting(
            polled_once(d, event.run()),
            Place::PhaseExact,
            d.spans.expiry,
        ),
        Place::PhaseExact => polling(d, Place::PhaseDue, d.spans.base, phase_delay(d)),
        Place::PhaseDue => phase_expiring(polled_once(d, event.run())),
        Place::PhaseAfter => polling(d, Place::PhaseLate, d.spans.base, phase_delay(d)),
        _ => phase_ended(polled_once(d, event.run())),
    }
}

/// Where the final witnesses go.
#[verifier::opaque]
pub open spec fn after_final(d: DriverView, event: EventView) -> Turn {
    match d.place {
        Place::FinalFirst => final_followed(d, event.run()),
        Place::FinalFollower => final_adopted(polled_once(d, event.run())),
        Place::FinalLast => exact_begun(polled_once(d, event.run())),
        Place::ExactPoll => exact_polled(d, event.run()),
        Place::ExactWait => exact_polling(d),
        Place::ExactRenew => exact_renewed(d, event.run()),
        Place::ExactFollower => exact_resigning(d, event.run()),
        _ => exact_resigned(d, event.settled()),
    }
}

/// What a client does, given what came of its last action: the whole script. An
/// answer of the wrong kind counts as a failure of the action.
pub open spec fn stepped(before: DriverView, event: EventView, now: nat) -> Turn {
    let d = DriverView { notes: Seq::empty(), ..before };
    match d.place {
        Place::RoundWeight
        | Place::RoundDelay
        | Place::RoundPoll
        | Place::RoundZeroWrite
        | Place::RoundObserve
        | Place::RoundResign
        | Place::RoundSnapshot
        | Place::RoundWait => after_round(d, event, now),
        Place::ReadyMark
        | Place::ReadyAwait
        | Place::RaceFirst
        | Place::RaceMarkObserved
        | Place::RaceAwaitObserved
        | Place::RaceWait
        | Place::RaceMarkExpired
        | Place::RaceAwaitExpired
        | Place::RacePoll
        | Place::RaceWrite
        | Place::RaceMarkDone
        | Place::RaceAwaitDone
        | Place::RaceCollect => after_race(d, event),
        Place::PhaseFirst
        | Place::PhaseRenew
        | Place::PhaseResign
        | Place::PhaseReset
        | Place::PhaseBefore
        | Place::PhaseEarly
        | Place::PhaseExact
        | Place::PhaseDue
        | Place::PhaseAfter
        | Place::PhaseLate => after_phase(d, event),
        Place::FinalFirst
        | Place::FinalFollower
        | Place::FinalLast
        | Place::ExactPoll
        | Place::ExactWait
        | Place::ExactRenew
        | Place::ExactFollower
        | Place::ExactResign => after_final(d, event),
        Place::ForeignPoll(then) => foreign_polled(d, then, event.run(), now),
        Place::ForeignFollow(then) => foreign_followed(d, then, event.run(), now),
        Place::ForeignBefore(then) => foreign_early(d, then),
        Place::ForeignEarly(then) => foreign_waited(d, then, event.run()),
        Place::ForeignExact(then) => foreign_due(d, then),
        Place::ForeignDue(then) => foreign_taken(d, then, event.run(), now),
        Place::StalePoll(then) => stale_polled(d, then, event.run(), now),
        Place::StaleWait(then) => stale_waited(d, then, now),
        Place::StaleResign(then) => stale_resigned(d, then, event.settled(), now),
        Place::StaleWrite(then) => stale_written(d, then, event.settled(), now),
        Place::Done => finished(d),
    }
}

impl Driver {
    fn begin_round(&mut self) -> (r: Action)
        ensures
            (Turn { driver: final(self)@, action: r@ }) == round_begun(old(self)@),
    {
        proof {
            reveal(round_begun);
        }
        if self.cursor.round < self.plan.operation_count {
            self.go(Place::RoundWeight);
            Action::Draw
        } else {
            self.mark(Place::ReadyMark, Barrier::Ready, Status::Ready)
        }
    }

    fn weigh_round(&mut self, random: u32, now: Duration) -> (r: Action)
        ensures
            (Turn { driver: final(self)@, action: r@ }) == round_weighed(old(self)@, random, now@),
    {
        proof {
            reveal(round_weighed);
        }
        let weight: u32 = random % 100;
        let round: usize = self.cursor.round;
        self.cursor.weight = weight;
        self.cursor.forced_pause = false;
        self.spans.round = if self.plan.is_lease_change(weight) {
            self.plan.lease_duration_for_round(round)
        } else {
            self.plan.lease_duration
        };
        if !self.plan.is_poll(round, weight) {
            return self.finish_polling(now);
        }
        self.tally.poll_count = counted(self.tally.poll_count);
        if self.plan.has(OPTIONAL_DELAYED_ADOPTION) {
            self.go(Place::RoundDelay);
            Action::Draw
        } else {
            let lease = self.spans.round;
            self.poll(Place::RoundPoll, lease, None)
        }
    }

    fn delay_round(&mut self, random: u32) -> (r: Action)
        ensures
            (Turn { driver: final(self)@, action: r@ }) == round_delayed(old(self)@, random),
    {
        proof {
            reveal(round_delayed);
        }
        let lease = self.spans.round;
        self.poll(Place::RoundPoll, lease, Some(AdoptionDelay::from_random(random)))
    }

    fn answer_round(&mut self, run: Option<PollRun>, now: Duration) -> (r: Action)
        ensures
            (Turn { driver: final(self)@, action: r@ }) == round_answered(
                old(self)@,
                run_view(run),
                now@,
            ),
    {
        proof {
            reveal(round_answered);
        }
        match run {
            None => {
                self.fail_last(Mishap::Poll);
                self.replace_incarnation("poll-error");
                self.finish_polling(now)
            },
            Some(run) => {
                if self.adopt(run).is_none() {
                    return self.finish_polling(now);
                }
                self.tally.leader_count = counted(self.tally.leader_count);
                self.cursor.forced_pause = !self.tally.expiry_pause_completed;
                if self.tally.zero_stale_write_completed {
                    self.finish_polling(now)
                } else {
                    let lease = self.spans.round;
                    self.write(Place::RoundZeroWrite, 0, lease)
                }
            },
        }
    }

    fn settle_zero_write(&mut self, committed: Option<bool>, now: Duration) -> (r: Action)
        ensures
            (Turn { driver: final(self)@, action: r@ }) == round_zero_written(
                old(self)@,
                committed,
                now@,
            ),
    {
        proof {
            reveal(round_zero_written);
        }
        match committed {
            Some(true) => self.accuse(Breach::ZeroRankStaleWriteCommitted),
            Some(false) => {
                self.tally.zero_stale_write_completed = true;
            },
            None => self.fail_last(Mishap::ZeroRankStaleWrite),
        }
        self.finish_polling(now)
    }

    fn finish_polling(&mut self, now: Duration) -> (r: Action)
        ensures
            (Turn { driver: final(self)@, action: r@ }) == round_polled(old(self)@, now@),
    {
        proof {
            reveal(round_polled);
        }
        let weight: u32 = self.cursor.weight;
        if self.plan.has(OPTIONAL_OBSERVER) && self.plan.is_observation(weight) {
            let actor = self.who.participant.clone();
            let incarnation: u64 = self.who.incarnation;
            let lease_duration = self.plan.lease_duration;
            let op_num: u64 = self.next_op_num();
            self.go(Place::RoundObserve);
            Action::Observe { actor, lease_duration, incarnation, op_num }
        } else {
            self.finish_observing(now)
        }
    }

    fn finish_observing(&mut self, now: Duration) -> (r: Action)
        ensures
            (Turn { driver: final(self)@, action: r@ }) == round_observed(old(self)@, now@),
    {
        proof {
            reveal(round_observed);
        }
        let weight: u32 = self.cursor.weight;
        if self.plan.has(OPTIONAL_RESIGN) && self.plan.is_resignation(weight) {
            match token_of(&self.who.local_state) {
                Some(token) => {
                    let lease = self.spans.round;
                    let incarnation: u64 = self.who.incarnation;
                    return self.resign(Place::RoundResign, token, true, lease, incarnation);
                },
                None => {},
            }
        }
        self.finish_resigning(now)
    }

    fn settle_round_resign(&mut self, released: Option<bool>, now: Duration) -> (r: Action)
        ensures
            (Turn { driver: final(self)@, action: r@ }) == round_released(
                old(self)@,
                released,
                now@,
            ),
    {
        proof {
            reveal(round_released);
        }
        match released {
            Some(true) => {
                self.know(LocalInput::Unknown);
                let lease = self.spans.round;
                let delay = if self.plan.has(OPTIONAL_DELAYED_ADOPTION) {
                    Some(AdoptionDelay::Longer)
                } else {
                    None
                };
                self.begin_foreign(AfterForeign::Round, lease, delay)
            },
            Some(false) => self.finish_resigning(now),
            None => {
                self.fail_last(Mishap::Resign);
                self.replace_incarnation("resign-error");
                self.finish_resigning(now)
            },
        }
    }

    fn finish_resigning(&mut self, now: Duration) -> (r: Action)
        ensures
            (Turn { driver: final(self)@, action: r@ }) == round_resigned(old(self)@, now@),
    {
        proof {
            reveal(round_resigned);
        }
        let weight: u32 = self.cursor.weight;
        if self.plan.is_stale_attempt(weight) && !self.tally.stale_actions_completed {
            match clone_token(&self.who.stale_leadership) {
                Some(token) => {
                    return self.begin_stale(AfterStale::Round, token);
                },
                None => {},
            }
        }
        self.finish_trying(now)
    }

    fn finish_trying(&mut self, now: Duration) -> (r: Action)
        ensures
            (Turn { driver: final(self)@, action: r@ }) == round_tried(old(self)@, now@),
    {
        proof {
            reveal(round_tried);
        }
        let weight: u32 = self.cursor.weight;
        let round: usize = self.cursor.round;
        if self.plan.is_drop(weight) {
            self.replace_incarnation("dropped");
            self.note(Note::LostLocalState { round });
        }
        if round % 3 == 0 {
            self.go(Place::RoundSnapshot);
            Action::Snapshot
        } else {
            self.pause_round(now)
        }
    }

    fn check_round(&mut self, event: &Event, now: Duration) -> (r: Action)
        ensures
            (Turn { driver: final(self)@, action: r@ }) == round_checked(
                old(self)@,
                event@,
                now@,
            ),
    {
        proof {
            reveal(round_checked);
        }
        let op_num: u64 = self.tally.op_num;
        match event {
            Event::Failed => self.fail(Mishap::Snapshot, op_num),
            Event::Incoherent => self.note(
                Note::Broken { breach: Breach::SnapshotInvariantFailed, op_num },
            ),
            _ => {},
        }
        self.pause_round(now)
    }

    fn pause_round(&mut self, now: Duration) -> (r: Action)
        ensures
            (Turn { driver: final(self)@, action: r@ }) == round_paused(old(self)@, now@),
    {
        proof {
            reveal(round_paused);
        }
        let weight: u32 = self.cursor.weight;
        let round: usize = self.cursor.round;
        let boundary = Plan::boundary_target(&self.who.local_state, now);
        if self.cursor.forced_pause {
            self.tally.expiry_pause_completed = true;
            self.wait(Place::RoundWait, boundary)
        } else if self.plan.has(OPTIONAL_PAUSE) && self.plan.is_lease_change(weight) {
            self.wait(Place::RoundWait, boundary)
        } else {
            let due = self.plan.inter_round_target(round, &self.who.local_state, now);
            self.wait(Place::RoundWait, due)
        }
    }

    fn end_round(&mut self) -> (r: Action)
        ensures
            (Turn { driver: final(self)@, action: r@ }) == round_ended(old(self)@),
    {
        proof {
            reveal(round_ended);
        }
        if self.cursor.round < self.plan.operation_count {
            self.cursor.round = self.cursor.round + 1;
        }
        self.begin_round()
    }

    fn mark(&mut self, place: Place, barrier: Barrier, status: Status) -> (r: Action)
        ensures
            (Turn { driver: final(self)@, action: r@ }) == marking(
                old(self)@,
                place,
                barrier,
                status,
            ),
    {
        self.cursor.status = status;
        self.go(place);
        Action::Mark { barrier, status, again: false }
    }

    fn after_mark(&mut self, place: Place, barrier: Barrier, event: &Event) -> (r: Action)
        ensures
            (Turn { driver: final(self)@, action: r@ }) == barrier_marked(
                old(self)@,
                place,
                barrier,
                event@,
            ),
    {
        proof {
            reveal(barrier_marked);
        }
        if event.is_failure() {
            let op_num: u64 = self.tally.op_num;
            self.fail(Mishap::MarkerWrite, op_num);
            Action::Mark { barrier, status: self.cursor.status, again: true }
        } else {
            self.go(place);
            Action::Await { barrier, again: false }
        }
    }

    fn await_again(&mut self, barrier: Barrier, event: Event) -> (r: Action)
        ensures
            (Turn { driver: final(self)@, action: r@ }) == barrier_awaited(
                old(self)@,
                barrier,
                event@,
            ),
    {
        proof {
            reveal(barrier_awaited);
        }
        match event.into_settled() {
            Some(_) => {},
            None => {
                let op_num: u64 = self.tally.op_num;
                self.fail(Mishap::MarkerRead, op_num);
            },
        }
        Action::Await { barrier, again: true }
    }

    fn begin_race(&mut self) -> (r: Action)
        ensures
            (Turn { driver: final(self)@, action: r@ }) == race_begun(old(self)@),
    {
        proof {
            reveal(race_begun);
        }
        self.replace_incarnation("race");
        self.cursor.race_failed = false;
        let lease = self.plan.lease_duration;
        self.poll(Place::RaceFirst, lease, None)
    }

    fn enter_race(&mut self, run: Option<PollRun>) -> (r: Action)
        ensures
            (Turn { driver: final(self)@, action: r@ }) == race_entered(old(self)@, run_view(run)),
    {
        proof {
            reveal(race_entered);
        }
        match run {
            Some(run) => self.know(run.next_state),
            None => {
                self.fail_last(Mishap::RaceInitialPoll);
                self.replace_incarnation("race-initial-poll-error");
                self.cursor.race_failed = true;
            },
        }
        self.mark(Place::RaceMarkObserved, Barrier::Observed, Status::Ready)
    }

    fn watch_race(&mut self) -> (r: Action)
        ensures
            (Turn { driver: final(self)@, action: r@ }) == race_watched(old(self)@),
    {
        proof {
            reveal(race_watched);
        }
        let seen = match &self.who.local_state {
            LocalInput::Observation { rank, lease_duration, observed_at, .. } => Some(
                (*rank, observed_at.saturating_add(*lease_duration)),
            ),
            _ => None,
        };
        match seen {
            Some((rank, expiry)) => {
                self.cursor.race_rank = rank;
                self.wait(Place::RaceWait, expiry)
            },
            None => self.mark(Place::RaceMarkExpired, Barrier::Expired, Status::Ready),
        }
    }

    fn end_race(&mut self, status: Status) -> (r: Action)
        ensures
            (Turn { driver: final(self)@, action: r@ }) == race_over(old(self)@, status),
    {
        proof {
            reveal(race_over);
        }
        self.mark(Place::RaceMarkDone, Barrier::Done, status)
    }

    fn start_race(&mut self) -> (r: Action)
        ensures
            (Turn { driver: final(self)@, action: r@ }) == race_started(old(self)@),
    {
        proof {
            reveal(race_started);
        }
        let observes = match &self.who.local_state {
            LocalInput::Observation { .. } => true,
            _ => false,
        };
        if self.cursor.race_failed {
            self.end_race(Status::Error)
        } else if observes {
            let lease = self.plan.lease_duration;
            self.poll(Place::RacePoll, lease, None)
        } else {
            self.end_race(Status::Incumbent)
        }
    }

    fn answer_race(&mut self, run: Option<PollRun>) -> (r: Action)
        ensures
            (Turn { driver: final(self)@, action: r@ }) == race_answered(old(self)@, run_view(run)),
    {
        proof {
            reveal(race_answered);
        }
        match run {
            Some(run) => {
                self.know(run.next_state);
                let rank: u64 = self.cursor.race_rank;
                let lease = self.plan.lease_duration;
                self.write(Place::RaceWrite, rank, lease)
            },
            None => {
                self.fail_last(Mishap::RacePoll);
                self.replace_incarnation("race-poll-error");
                self.end_race(Status::Error)
            },
        }
    }

    fn settle_race_write(&mut self, committed: Option<bool>) -> (r: Action)
        ensures
            (Turn { driver: final(self)@, action: r@ }) == race_written(old(self)@, committed),
    {
        proof {
            reveal(race_written);
        }
        match committed {
            Some(false) => self.end_race(Status::Contended),
            Some(true) => {
                self.accuse(Breach::RaceStaleWriteCommitted);
                self.end_race(Status::Error)
            },
            None => {
                self.fail_last(Mishap::RaceStaleWrite);
                self.end_race(Status::Error)
            },
        }
    }

    fn close_race(&mut self) -> (r: Action)
        ensures
            (Turn { driver: final(self)@, action: r@ }) == race_closed(old(self)@),
    {
        proof {
            reveal(race_closed);
        }
        if self.plan.client_id == 0 {
            self.go(Place::RaceCollect);
            Action::Collect { barrier: Barrier::Done, again: false }
        } else {
            self.finish()
        }
    }

    fn count_race(&mut self, event: Event) -> (r: Action)
        ensures
            (Turn { driver: final(self)@, action: r@ }) == race_counted(
                old(self)@,
                event@.statuses(),
            ),
    {
        proof {
            reveal(race_counted);
        }
        match event.into_statuses() {
            Some(statuses) => {
                let contenders: usize = count_statuses(&statuses, Status::Contended);
                let errors: usize = count_statuses(&statuses, Status::Error);
                self.tally.coordinated_race_contenders = contenders;
                self.tally.coordinated_race_completed = contenders >= 2 && errors == 0;
                self.tally.errors_before_completion = self.tally.run_errors;
                self.begin_completion()
            },
            None => {
                let op_num: u64 = self.tally.op_num;
                self.fail(Mishap::StatusRead, op_num);
                Action::Collect { barrier: Barrier::Done, again: true }
            },
        }
    }

    fn finish(&mut self) -> (r: Action)
        ensures
            (Turn { driver: final(self)@, action: r@ }) == finished(old(self)@),
    {
        proof {
            reveal(finished);
        }
        self.go(Place::Done);
        Action::Finish
    }

    fn begin_stale(&mut self, after: AfterStale, token: Token) -> (r: Action)
        ensures
            (Turn { driver: final(self)@, action: r@ }) == stale_begun(old(self)@, after, token@),
    {
        proof {
            reveal(stale_begun);
        }
        let participant = self.who.participant.clone();
        let incarnation: u64 = self.who.incarnation;
        let lease_duration = self.plan.lease_duration;
        let brings = LocalInput::Leadership {
            participant: token.participant.clone(),
            rank: token.rank,
            lease_duration: token.lease_duration,
            renewed_at: token.renewed_at,
        };
        let op_num: u64 = self.next_op_num();
        self.go(Place::StalePoll(after));
        self.held = Some(token);
        Action::Poll {
            participant,
            brings,
            tracks: false,
            lease_duration,
            incarnation,
            op_num,
            delay: None,
        }
    }

    fn answer_stale(&mut self, after: AfterStale, run: Option<PollRun>, now: Duration) -> (r: Action)
        ensures
            (Turn { driver: final(self)@, action: r@ }) == stale_polled(
                old(self)@,
                after,
                run_view(run),
                now@,
            ),
    {
        proof {
            reveal(stale_polled);
        }
        match &run {
            Some(run) => {
                let renewed = match run.transition {
                    PollTransition::Renewed => true,
                    _ => false,
                };
                if renewed {
                    self.accuse(Breach::StaleRenewSucceeded);
                }
            },
            None => self.fail_last(Mishap::StaleRenew),
        }
        let until = match &self.held {
            Some(token) => Some(
                token.renewed_at.saturating_add(token.lease_duration).saturating_add(
                    Duration::from_millis(1),
                ),
            ),
            None => None,
        };
        match until {
            Some(until) => self.wait(Place::StaleWait(after), until),
            None => self.end_stale(after, now),
        }
    }

    fn resign_stale(&mut self, after: AfterStale, now: Duration) -> (r: Action)
        ensures
            (Turn { driver: final(self)@, action: r@ }) == stale_waited(old(self)@, after, now@),
    {
        proof {
            reveal(stale_waited);
        }
        match clone_token(&self.held) {
            Some(token) => {
                let lease = self.plan.lease_duration;
                let incarnation: u64 = self.who.incarnation;
                self.resign(Place::StaleResign(after), token, false, lease, incarnation)
            },
            None => self.end_stale(after, now),
        }
    }

    fn settle_stale_resign(
        &mut self,
        after: AfterStale,
        released: Option<bool>,
        now: Duration,
    ) -> (r: Action)
        ensures
            (Turn { driver: final(self)@, action: r@ }) == stale_resigned(
                old(self)@,
                after,
                released,
                now@,
            ),
    {
        proof {
            reveal(stale_resigned);
        }
        match released {
            Some(true) => self.accuse(Breach::StaleResignSucceeded),
            Some(false) => {},
            None => self.fail_last(Mishap::StaleResign),
        }
        let rank = match &self.held {
            Some(token) => Some(token.rank),
            None => None,
        };
        match rank {
            Some(rank) => {
                let lease = self.plan.lease_duration;
                self.write(Place::StaleWrite(after), rank, lease)
            },
            None => self.end_stale(after, now),
        }
    }

    fn settle_stale_write(
        &mut self,
        after: AfterStale,
        committed: Option<bool>,
        now: Duration,
    ) -> (r: Action)
        ensures
            (Turn { driver: final(self)@, action: r@ }) == stale_written(
                old(self)@,
                after,
                committed,
                now@,
            ),
    {
        proof {
            reveal(stale_written);
        }
        match committed {
            Some(true) => self.accuse(Breach::StaleWriteCommitted),
            Some(false) => {
                self.tally.stale_actions_completed = true;
            },
            None => self.fail_last(Mishap::StaleWrite),
        }
        self.end_stale(after, now)
    }

    fn end_stale(&mut self, after: AfterStale, now: Duration) -> (r: Action)
        ensures
            (Turn { driver: final(self)@, action: r@ }) == stale_over(old(self)@, after, now@),
    {
        proof {
            reveal(stale_over);
        }
        match after {
            AfterStale::Round => self.finish_trying(now),
            AfterStale::Phase => self.resign_phase(),
            AfterStale::Foreign(after) => self.end_foreign(after, now),
        }
    }

    fn begin_foreign(
        &mut self,
        after: AfterForeign,
        lease: Duration,
        delay: Option<AdoptionDelay>,
    ) -> (r: Action)
        ensures
            (Turn { driver: final(self)@, action: r@ }) == foreign_begun(
                old(self)@,
                after,
                lease@,
                delay,
            ),
    {
        proof {
            reveal(foreign_begun);
        }
        let incarnation: u64 = self.who.incarnation;
        let participant = name_incarnation(
            "foreign",
            self.plan.client_id,
            self.plan.process_id,
            incarnation,
        );
        let op_num: u64 = self.next_op_num();
        self.go(Place::ForeignPoll(after));
        self.spans.lease = lease;
        self.cursor.follower_delay = delay;
        Action::Poll {
            participant,
            brings: LocalInput::Unknown,
            tracks: false,
            lease_duration: lease.saturating_add(Duration::from_secs(2)),
            incarnation,
            op_num,
            delay: None,
        }
    }

    fn answer_foreign(
        &mut self,
        after: AfterForeign,
        run: Option<PollRun>,
        now: Duration,
    ) -> (r: Action)
        ensures
            (Turn { driver: final(self)@, action: r@ }) == foreign_polled(
                old(self)@,
                after,
                run_view(run),
                now@,
            ),
    {
        proof {
            reveal(foreign_polled);
        }
        match run {
            None => {
                self.fail_last(Mishap::ForeignTakeoverPoll);
                self.end_foreign(after, now)
            },
            Some(run) => match token_of(&run.next_state) {
                None => self.end_foreign(after, now),
                Some(token) => {
                    self.know(LocalInput::Unknown);
                    self.held = Some(token);
                    let lease = self.spans.lease;
                    let delay = self.cursor.follower_delay;
                    self.poll(Place::ForeignFollow(after), lease, delay)
                },
            },
        }
    }

    fn sees_a_stranger(&self) -> (r: bool)
        ensures
            r == watches_a_stranger(self@),
    {
        match (&self.who.local_state, &self.held) {
            (LocalInput::Observation { owner, lease_duration, .. }, Some(token)) => !same_text(
                owner.as_str(),
                self.who.participant.as_str(),
            ) && lease_duration.same_as(&token.lease_duration),
            _ => false,
        }
    }

    fn follow_foreign(
        &mut self,
        after: AfterForeign,
        run: Option<PollRun>,
        now: Duration,
    ) -> (r: Action)
        ensures
            (Turn { driver: final(self)@, action: r@ }) == foreign_followed(
                old(self)@,
                after,
                run_view(run),
                now@,
            ),
    {
        proof {
            reveal(foreign_followed);
        }
        self.poll_once(run);
        if self.sees_a_stranger() {
            match observed_expiry(&self.who.local_state) {
                Some(expiry) => {
                    self.spans.expiry = expiry;
                    return self.wait(
                        Place::ForeignBefore(after),
                        expiry.saturating_sub(Duration::from_millis(1)),
                    );
                },
                None => {},
            }
        }
        self.end_foreign(after, now)
    }

    fn wait_foreign(&mut self, after: AfterForeign, run: Option<PollRun>) -> (r: Action)
        ensures
            (Turn { driver: final(self)@, action: r@ }) == foreign_waited(
                old(self)@,
                after,
                run_view(run),
            ),
    {
        proof {
            reveal(foreign_waited);
        }
        self.poll_once(run);
        let expiry = self.spans.expiry;
        self.wait(Place::ForeignExact(after), expiry)
    }

    fn take_foreign(&mut self, after: AfterForeign, run: Option<PollRun>, now: Duration) -> (r:
        Action)
        ensures
            (Turn { driver: final(self)@, action: r@ }) == foreign_taken(
                old(self)@,
                after,
                run_view(run),
                now@,
            ),
    {
        proof {
            reveal(foreign_taken);
        }
        match self.poll_once(run) {
            Some(token) => match clone_token(&self.held) {
                Some(held) => {
                    if token.rank > held.rank {
                        return self.begin_stale(AfterStale::Foreign(after), held);
                    }
                },
                None => {},
            },
            None => {},
        }
        self.end_foreign(after, now)
    }

    fn end_foreign(&mut self, after: AfterForeign, now: Duration) -> (r: Action)
        ensures
            (Turn { driver: final(self)@, action: r@ }) == foreign_over(old(self)@, after, now@),
    {
        proof {
            reveal(foreign_over);
        }
        match after {
            AfterForeign::Round => self.finish_resigning(now),
            AfterForeign::Phase => self.reset_phase(),
        }
    }

    fn begin_completion(&mut self) -> (r: Action)
        ensures
            (Turn { driver: final(self)@, action: r@ }) == completion_begun(old(self)@),
    {
        proof {
            reveal(completion_begun);
        }
        self.replace_incarnation("replacement");
        self.cursor.phase = 0;
        self.begin_phase()
    }

    fn delay_of_phase(&self) -> (r: Option<AdoptionDelay>)
        ensures
            r == phase_delay(self@),
    {
        let turn: usize = self.cursor.phase % 3;
        Some(AdoptionDelay::for_completion_phase(turn))
    }

    fn lease_of_phase(&self, phase: usize) -> (r: Duration)
        ensures
            r@ == self@.plan.round_lease(phase_round(self@, phase as int)),
    {
        self.plan.lease_duration_for_round(self.plan.operation_count.wrapping_add(phase))
    }

    fn begin_phase(&mut self) -> (r: Action)
        ensures
            (Turn { driver: final(self)@, action: r@ }) == phase_begun(old(self)@),
    {
        proof {
            reveal(phase_begun);
        }
        let phase: usize = self.cursor.phase;
        if phase < 3 {
            let base = self.lease_of_phase(phase);
            let delay = self.delay_of_phase();
            self.spans.base = base;
            self.poll(Place::PhaseFirst, base, delay)
        } else {
            self.begin_final()
        }
    }

    fn lead_phase(&mut self, run: Option<PollRun>) -> (r: Action)
        requires
            old(self).cursor.phase < 3,
        ensures
            (Turn { driver: final(self)@, action: r@ }) == phase_led(old(self)@, run_view(run)),
    {
        proof {
            reveal(phase_led);
        }
        match self.poll_once(run) {
            Some(token) => {
                let lease = self.lease_of_phase(self.cursor.phase + 1);
                let delay = self.delay_of_phase();
                self.held = Some(token);
                self.spans.lease = lease;
                self.poll(Place::PhaseRenew, lease, delay)
            },
            None => self.watch_phase(),
        }
    }

    fn renew_phase(&mut self, run: Option<PollRun>) -> (r: Action)
        ensures
            (Turn { driver: final(self)@, action: r@ }) == phase_renewed(old(self)@, run_view(run)),
    {
        proof {
            reveal(phase_renewed);
        }
        match self.poll_once(run) {
            None => self.reset_phase(),
            Some(token) => {
                let rank: u64 = token.rank;
                self.renewed = Some(token);
                match clone_token(&self.held) {
                    Some(first) => {
                        if first.rank < rank {
                            return self.begin_stale(AfterStale::Phase, first);
                        }
                    },
                    None => {},
                }
                self.resign_phase()
            },
        }
    }

    fn resign_phase(&mut self) -> (r: Action)
        ensures
            (Turn { driver: final(self)@, action: r@ }) == phase_resigning(old(self)@),
    {
        proof {
            reveal(phase_resigning);
        }
        match clone_token(&self.renewed) {
            Some(token) => {
                let lease = self.spans.lease;
                let incarnation: u64 = self.who.incarnation;
                self.resign(Place::PhaseResign, token, true, lease, incarnation)
            },
            None => self.reset_phase(),
        }
    }

    fn settle_phase_resign(&mut self, released: Option<bool>) -> (r: Action)
        ensures
            (Turn { driver: final(self)@, action: r@ }) == phase_released(old(self)@, released),
    {
        proof {
            reveal(phase_released);
        }
        match released {
            Some(true) => {
                self.know(LocalInput::Unknown);
                let lease = self.spans.lease;
                let delay = self.delay_of_phase();
                self.begin_foreign(AfterForeign::Phase, lease, delay)
            },
            Some(false) => {
                let op_num: u64 = self.tally.issued;
                self.note(Note::ResignContended { op_num });
                self.reset_phase()
            },
            None => {
                self.fail_last(Mishap::ExactResign);
                self.replace_incarnation("exact-resign-error");
                self.reset_phase()
            },
        }
    }

    fn reset_phase(&mut self) -> (r: Action)
        ensures
            (Turn { driver: final(self)@, action: r@ }) == phase_resetting(old(self)@),
    {
        proof {
            reveal(phase_resetting);
        }
        self.replace_incarnation("completion-reset");
        let lease = self.spans.lease;
        let delay = self.delay_of_phase();
        self.poll(Place::PhaseReset, lease, delay)
    }

    fn watch_phase(&mut self) -> (r: Action)
        ensures
            (Turn { driver: final(self)@, action: r@ }) == phase_watching(old(self)@),
    {
        proof {
            reveal(phase_watching);
        }
        match observed_expiry(&self.who.local_state) {
            Some(expiry) => {
                self.spans.expiry = expiry;
                self.wait(Place::PhaseBefore, expiry.saturating_sub(Duration::from_millis(1)))
            },
            None => self.expire_phase(),
        }
    }

    fn expire_phase(&mut self) -> (r: Action)
        ensures
            (Turn { driver: final(self)@, action: r@ }) == phase_expiring(old(self)@),
    {
        proof {
            reveal(phase_expiring);
        }
        match token_of(&self.who.local_state) {
            Some(token) => self.wait(
                Place::PhaseAfter,
                token.renewed_at.saturating_add(token.lease_duration).saturating_add(
                    Duration::from_millis(1),
                ),
            ),
            None => self.end_phase(),
        }
    }

    fn end_phase(&mut self) -> (r: Action)
        ensures
            (Turn { driver: final(self)@, action: r@ }) == phase_ended(old(self)@),
    {
        proof {
            reveal(phase_ended);
        }
        if self.cursor.phase < 3 {
            self.cursor.phase = self.cursor.phase + 1;
        }
        self.begin_phase()
    }

    fn begin_final(&mut self) -> (r: Action)
        ensures
            (Turn { driver: final(self)@, action: r@ }) == final_begun(old(self)@),
    {
        proof {
            reveal(final_begun);
        }
        let base = self.lease_of_phase(3);
        self.replace_incarnation("final-delayed-adoption");
        self.spans.base = base;
        self.poll(Place::FinalFirst, base, Some(AdoptionDelay::Longer))
    }

    fn follow_final(&mut self, run: Option<PollRun>) -> (r: Action)
        ensures
            (Turn { driver: final(self)@, action: r@ }) == final_followed(
                old(self)@,
                run_view(run),
            ),
    {
        proof {
            reveal(final_followed);
        }
        self.poll_once(run);
        if token_of(&self.who.local_state).is_some() {
            self.replace_incarnation("final-delayed-adoption-follower");
            let lease = self.spans.base;
            self.poll(Place::FinalFollower, lease, Some(AdoptionDelay::Longer))
        } else {
            self.adopt_final()
        }
    }

    fn adopt_final(&mut self) -> (r: Action)
        ensures
            (Turn { driver: final(self)@, action: r@ }) == final_adopted(old(self)@),
    {
        proof {
            reveal(final_adopted);
        }
        if observed_expiry(&self.who.local_state).is_some() {
            let lease = self.spans.base;
            self.poll(Place::FinalLast, lease, None)
        } else {
            self.begin_exact()
        }
    }

    fn begin_exact(&mut self) -> (r: Action)
        ensures
            (Turn { driver: final(self)@, action: r@ }) == exact_begun(old(self)@),
    {
        proof {
            reveal(exact_begun);
        }
        self.replace_incarnation("final-exact-resign");
        self.poll_exact()
    }

    fn poll_exact(&mut self) -> (r: Action)
        ensures
            (Turn { driver: final(self)@, action: r@ }) == exact_polling(old(self)@),
    {
        proof {
            reveal(exact_polling);
        }
        let lease = Duration::new(u64::MAX - 1, 999_999_999);
        self.spans.lease = lease;
        self.poll(Place::ExactPoll, lease, None)
    }

    fn answer_exact(&mut self, run: Option<PollRun>) -> (r: Action)
        ensures
            (Turn { driver: final(self)@, action: r@ }) == exact_polled(old(self)@, run_view(run)),
    {
        proof {
            reveal(exact_polled);
        }
        match self.poll_once(run) {
            Some(token) => {
                let lease = token.lease_duration.saturating_add(Duration::from_secs(1));
                self.spans.lease = lease;
                self.cursor.leader_incarnation = self.who.incarnation;
                self.poll(Place::ExactRenew, lease, None)
            },
            None => match observed_expiry(&self.who.local_state) {
                Some(expiry) => self.wait(
                    Place::ExactWait,
                    expiry.saturating_add(Duration::from_nanos(1)),
                ),
                None => {
                    self.go(Place::ExactWait);
                    Action::Yield
                },
            },
        }
    }

    fn renew_exact(&mut self, run: Option<PollRun>) -> (r: Action)
        ensures
            (Turn { driver: final(self)@, action: r@ }) == exact_renewed(old(self)@, run_view(run)),
    {
        proof {
            reveal(exact_renewed);
        }
        match self.poll_once(run) {
            None => self.complete(),
            Some(token) => {
                self.renewed = Some(token);
                self.replace_incarnation("final-duration-reset-follower");
                let lease = self.spans.lease;
                self.poll(Place::ExactFollower, lease, None)
            },
        }
    }

    fn resign_exact(&mut self, run: Option<PollRun>) -> (r: Action)
        ensures
            (Turn { driver: final(self)@, action: r@ }) == exact_resigning(
                old(self)@,
                run_view(run),
            ),
    {
        proof {
            reveal(exact_resigning);
        }
        self.poll_once(run);
        match clone_token(&self.renewed) {
            Some(token) => {
                let lease = self.spans.lease;
                let incarnation: u64 = self.cursor.leader_incarnation;
                self.resign(Place::ExactResign, token, true, lease, incarnation)
            },
            None => self.complete(),
        }
    }

    fn settle_exact_resign(&mut self, released: Option<bool>) -> (r: Action)
        ensures
            (Turn { driver: final(self)@, action: r@ }) == exact_resigned(old(self)@, released),
    {
        proof {
            reveal(exact_resigned);
        }
        match released {
            Some(true) => {},
            Some(false) => self.accuse(Breach::FinalExactResignContended),
            None => self.fail_last(Mishap::FinalExactResign),
        }
        self.complete()
    }

    fn complete(&mut self) -> (r: Action)
        ensures
            (Turn { driver: final(self)@, action: r@ }) == completed(old(self)@),
    {
        proof {
            reveal(completed);
        }
        self.tally.completion_run_errors = self.tally.run_errors.saturating_sub(
            self.tally.errors_before_completion,
        );
        self.finish()
    }
}

// ---------------------------------------------------------------------------
// Running the script
// ---------------------------------------------------------------------------

/// A client before its first round.
pub open spec fn fresh(plan: Plan, name: Seq<char>) -> DriverView {
    DriverView {
        plan,
        who: WhoView {
            participant: name,
            incarnation: 0,
            local_state: LocalView::Unknown,
            last_leadership: None,
            stale_leadership: None,
        },
        tally: Tally {
            op_num: 0,
            issued: 0,
            poll_count: 0,
            leader_count: 0,
            run_errors: 0,
            errors_before_completion: 0,
            completion_run_errors: 0,
            delayed_adoption_count: 0,
            delayed_adoption_sub_lease_count: 0,
            delayed_adoption_exact_lease_count: 0,
            delayed_adoption_over_lease_count: 0,
            zero_stale_write_completed: false,
            stale_actions_completed: false,
            expiry_pause_completed: false,
            coordinated_race_completed: false,
            coordinated_race_contenders: 0,
        },
        cursor: Cursor {
            round: 0,
            weight: 0,
            forced_pause: false,
            race_failed: false,
            race_rank: 0,
            phase: 0,
            follower_delay: None,
            leader_incarnation: 0,
            status: Status::Ready,
        },
        spans: SpansView { round: 0, base: 0, lease: 0, expiry: 0 },
        held: None,
        renewed: None,
        place: Place::Done,
        notes: Seq::empty(),
    }
}

/// Whether a client's script can take another step: it is in one of the phases
/// there are, and neither its operations nor its incarnations have run out of
/// numbers.
pub open spec fn in_hand(d: DriverView) -> bool {
    d.cursor.phase <= 3 && (d.place == Place::PhaseFirst ==> d.cursor.phase < 3) && d.tally.op_num
        < u64::MAX && d.who.incarnation < u64::MAX - 2
}

impl Driver {
    /// A client before its first round.
    pub fn new(plan: Plan, name_random: u32) -> (r: Driver)
        ensures
            r@ == fresh(
                plan,
                lease_plan::first_name(name_random, plan.client_id, plan.process_id),
            ),
    {
        Driver {
            plan,
            who: Who {
                participant: participant_text(name_random, plan.client_id, plan.process_id),
                incarnation: 0,
                local_state: LocalInput::Unknown,
                last_leadership: None,
                stale_leadership: None,
            },
            tally: Tally {
                op_num: 0,
                issued: 0,
                poll_count: 0,
                leader_count: 0,
                run_errors: 0,
                errors_before_completion: 0,
                completion_run_errors: 0,
                delayed_adoption_count: 0,
                delayed_adoption_sub_lease_count: 0,
                delayed_adoption_exact_lease_count: 0,
                delayed_adoption_over_lease_count: 0,
                zero_stale_write_completed: false,
                stale_actions_completed: false,
                expiry_pause_completed: false,
                coordinated_race_completed: false,
                coordinated_race_contenders: 0,
            },
            cursor: Cursor {
                round: 0,
                weight: 0,
                forced_pause: false,
                race_failed: false,
                race_rank: 0,
                phase: 0,
                follower_delay: None,
                leader_incarnation: 0,
                status: Status::Ready,
            },
            spans: Spans {
                round: Duration::zero(),
                base: Duration::zero(),
                lease: Duration::zero(),
                expiry: Duration::zero(),
            },
            held: None,
            renewed: None,
            place: Place::Done,
            notes: Vec::new(),
        }
    }

    /// Begins the script.
    pub fn start(&mut self) -> (r: Action)
        ensures
            (Turn { driver: final(self)@, action: r@ }) == round_begun(old(self)@),
    {
        proof {
            reveal(round_begun);
        }
        self.begin_round()
    }

    /// Whether the script can take another step.
    pub fn can_step(&self) -> (r: bool)
        ensures
            r == in_hand(self@),
    {
        let first = match self.place {
            Place::PhaseFirst => true,
            _ => false,
        };
        self.cursor.phase <= 3 && (!first || self.cursor.phase < 3) && self.tally.op_num
            < u64::MAX && self.who.incarnation < u64::MAX - 2
    }

    fn step_round(&mut self, event: Event, now: Duration) -> (r: Action)
        ensures
            (Turn { driver: final(self)@, action: r@ }) == after_round(old(self)@, event@, now@),
    {
        proof {
            reveal(after_round);
        }
        match self.place {
            Place::RoundWeight => self.weigh_round(event.into_drawn(), now),
            Place::RoundDelay => self.delay_round(event.into_drawn()),
            Place::RoundPoll => self.answer_round(event.into_run(), now),
            Place::RoundZeroWrite => self.settle_zero_write(event.into_settled(), now),
            Place::RoundObserve => {
                if event.is_failure() {
                    self.fail_last(Mishap::Observer);
                }
                self.finish_observing(now)
            },
            Place::RoundResign => self.settle_round_resign(event.into_settled(), now),
            Place::RoundSnapshot => self.check_round(&event, now),
            _ => self.end_round(),
        }
    }

    fn step_race(&mut self, event: Event) -> (r: Action)
        ensures
            (Turn { driver: final(self)@, action: r@ }) == after_race(old(self)@, event@),
    {
        proof {
            reveal(after_race);
        }
        match self.place {
            Place::ReadyMark => self.after_mark(Place::ReadyAwait, Barrier::Ready, &event),
            Place::ReadyAwait => if event.says_yes() {
                self.begin_race()
            } else {
                self.await_again(Barrier::Ready, event)
            },
            Place::RaceFirst => self.enter_race(event.into_run()),
            Place::RaceMarkObserved => self.after_mark(
                Place::RaceAwaitObserved,
                Barrier::Observed,
                &event,
            ),
            Place::RaceAwaitObserved => if event.says_yes() {
                self.watch_race()
            } else {
                self.await_again(Barrier::Observed, event)
            },
            Place::RaceWait => self.mark(
                Place::RaceMarkExpired,
                Barrier::Expired,
                Status::Ready,
            ),
            Place::RaceMarkExpired => self.after_mark(
                Place::RaceAwaitExpired,
                Barrier::Expired,
                &event,
            ),
            Place::RaceAwaitExpired => if event.says_yes() {
                self.start_race()
            } else {
                self.await_again(Barrier::Expired, event)
            },
            Place::RacePoll => self.answer_race(event.into_run()),
            Place::RaceWrite => self.settle_race_write(event.into_settled()),
            Place::RaceMarkDone => self.after_mark(Place::RaceAwaitDone, Barrier::Done, &event),
            Place::RaceAwaitDone => if event.says_yes() {
                self.close_race()
            } else {
                self.await_again(Barrier::Done, event)
            },
            _ => self.count_race(event),
        }
    }

    fn step_phase(&mut self, event: Event) -> (r: Action)
        requires
            in_hand(old(self)@),
        ensures
            (Turn { driver: final(self)@, action: r@ }) == after_phase(old(self)@, event@),
    {
        proof {
            reveal(after_phase);
        }
        let base = self.spans.base;
        let delay = self.delay_of_phase();
        match self.place {
            Place::PhaseFirst => self.lead_phase(event.into_run()),
            Place::PhaseRenew => self.renew_phase(event.into_run()),
            Place::PhaseResign => self.settle_phase_resign(event.into_settled()),
            Place::PhaseReset => {
                self.poll_once(event.into_run());
                self.watch_phase()
            },
            Place::PhaseBefore => self.poll(Place::PhaseEarly, base, delay),
            Place::PhaseEarly => {
                self.poll_once(event.into_run());
                let expiry = self.spans.expiry;
                self.wait(Place::PhaseExact, expiry)
            },
            Place::PhaseExact => self.poll(Place::PhaseDue, base, delay),
            Place::PhaseDue => {
                self.poll_once(event.into_run());
                self.expire_phase()
            },
            Place::PhaseAfter => self.poll(Place::PhaseLate, base, delay),
            _ => {
                self.poll_once(event.into_run());
                self.end_phase()
            },
        }
    }

    fn step_final(&mut self, event: Event) -> (r: Action)
        ensures
            (Turn { driver: final(self)@, action: r@ }) == after_final(old(self)@, event@),
    {
        proof {
            reveal(after_final);
        }
        match self.place {
            Place::FinalFirst => self.follow_final(event.into_run()),
            Place::FinalFollower => {
                self.poll_once(event.into_run());
                self.adopt_final()
            },
            Place::FinalLast => {
                self.poll_once(event.into_run());
                self.begin_exact()
            },
            Place::ExactPoll => self.answer_exact(event.into_run()),
            Place::ExactWait => self.poll_exact(),
            Place::ExactRenew => self.renew_exact(event.into_run()),
            Place::ExactFollower => self.resign_exact(event.into_run()),
            _ => self.settle_exact_resign(event.into_settled()),
        }
    }

    /// Tells the client what came of its last action, and when; it answers with
    /// the next one.
    pub fn step(&mut self, event: Event, now: Duration) -> (r: Action)
        requires
            in_hand(old(self)@),
        ensures
            (Turn { driver: final(self)@, action: r@ }) == stepped(old(self)@, event@, now@),
    {
        proof {
            reveal(foreign_early);
            reveal(foreign_due);
        }
        self.notes = Vec::new();
        match self.place {
            Place::RoundWeight
            | Place::RoundDelay
            | Place::RoundPoll
            | Place::RoundZeroWrite
            | Place::RoundObserve
            | Place::RoundResign
            | Place::RoundSnapshot
            | Place::RoundWait => self.step_round(event, now),
            Place::ReadyMark
            | Place::ReadyAwait
            | Place::RaceFirst
            | Place::RaceMarkObserved
            | Place::RaceAwaitObserved
            | Place::RaceWait
            | Place::RaceMarkExpired
            | Place::RaceAwaitExpired
            | Place::RacePoll
            | Place::RaceWrite
            | Place::RaceMarkDone
            | Place::RaceAwaitDone
            | Place::RaceCollect => self.step_race(event),
            Place::PhaseFirst
            | Place::PhaseRenew
            | Place::PhaseResign
            | Place::PhaseReset
            | Place::PhaseBefore
            | Place::PhaseEarly
            | Place::PhaseExact
            | Place::PhaseDue
            | Place::PhaseAfter
            | Place::PhaseLate => self.step_phase(event),
            Place::FinalFirst
            | Place::FinalFollower
            | Place::FinalLast
            | Place::ExactPoll
            | Place::ExactWait
            | Place::ExactRenew
            | Place::ExactFollower
            | Place::ExactResign => self.step_final(event),
            Place::ForeignPoll(after) => self.answer_foreign(after, event.into_run(), now),
            Place::ForeignFollow(after) => self.follow_foreign(after, event.into_run(), now),
            Place::ForeignBefore(after) => {
                let lease = self.spans.lease;
                self.poll(Place::ForeignEarly(after), lease, None)
            },
            Place::ForeignEarly(after) => self.wait_foreign(after, event.into_run()),
            Place::ForeignExact(after) => {
                let lease = self.spans.lease;
                self.poll(Place::ForeignDue(after), lease, None)
            },
            Place::ForeignDue(after) => self.take_foreign(after, event.into_run(), now),
            Place::StalePoll(after) => self.answer_stale(after, event.into_run(), now),
            Place::StaleWait(after) => self.resign_stale(after, now),
            Place::StaleResign(after) => self.settle_stale_resign(after, event.into_settled(), now),
            Place::StaleWrite(after) => self.settle_stale_write(after, event.into_settled(), now),
            Place::Done => self.finish(),
        }
    }
}

// ---------------------------------------------------------------------------
// What holds of every step
// ---------------------------------------------------------------------------

/// The number of the operation an action runs, if it runs one.
pub open spec fn operation_of(action: ActionView) -> Option<u64> {
    match action {
        ActionView::Poll { op_num, .. } => Some(op_num),
        ActionView::Resign { op_num, .. } => Some(op_num),
        ActionView::StaleWrite { op_num, .. } => Some(op_num),
        ActionView::Observe { op_num, .. } => Some(op_num),
        _ => None,
    }
}

/// Whether an operation took the next number and left the one after it, and any
/// other action left the next number alone.
pub open spec fn numbers_properly(before: DriverView, turn: Turn) -> bool {
    match operation_of(turn.action) {
        Some(op_num) => op_num == before.tally.op_num && turn.driver.tally.op_num == next(
            before.tally.op_num,
        ),
        None => turn.driver.tally.op_num == before.tally.op_num,
    }
}

/// Whether a client kept its incarnation and its name, or went on to a later
/// incarnation.
pub open spec fn grows(before: WhoView, after: WhoView) -> bool {
    &&& after.incarnation >= before.incarnation
    &&& after.incarnation < u64::MAX && after.incarnation == before.incarnation
        ==> after.participant == before.participant
}

/// Whether a poll whose local state is adopted is made for the client itself,
/// with what it knows.
pub open spec fn polls_as_itself(turn: Turn) -> bool {
    turn.action matches ActionView::Poll { participant, brings, tracks, incarnation, .. }
        ==> tracks ==> {
        &&& participant == turn.driver.who.participant
        &&& brings == turn.driver.who.local_state
        &&& incarnation == turn.driver.who.incarnation
    }
}

/// What holds of every step.
pub open spec fn proper(before: DriverView, turn: Turn) -> bool {
    &&& turn.driver.plan == before.plan
    &&& numbers_properly(before, turn)
    &&& grows(before.who, turn.driver.who)
    &&& polls_as_itself(turn)
    &&& turn.driver.cursor.phase <= 3
    &&& turn.driver.place == Place::PhaseFirst ==> turn.driver.cursor.phase < 3
}

proof fn proper_round_begun()
    ensures
        forall|d: DriverView|
            d.cursor.phase <= 3 ==> proper(d, #[trigger] round_begun(d)),
{
    assert forall|d: DriverView|
        d.cursor.phase <= 3 implies proper(d, #[trigger] round_begun(d)) by {
        reveal(round_begun);
    }
}

proof fn proper_round_weighed()
    ensures
        forall|d: DriverView, random: u32, now: nat|
            d.cursor.phase <= 3 ==> proper(d, #[trigger] round_weighed(d, random, now)),
{
    proper_round_polled();
    assert forall|d: DriverView, random: u32, now: nat|
        d.cursor.phase <= 3 implies proper(d, #[trigger] round_weighed(d, random, now)) by {
        reveal(round_weighed);
    }
}

proof fn proper_round_delayed()
    ensures
        forall|d: DriverView, random: u32|
            d.cursor.phase <= 3 ==> proper(d, #[trigger] round_delayed(d, random)),
{
    assert forall|d: DriverView, random: u32|
        d.cursor.phase <= 3 implies proper(d, #[trigger] round_delayed(d, random)) by {
        reveal(round_delayed);
    }
}

proof fn proper_round_answered()
    ensures
        forall|d: DriverView, run: Option<RunView>, now: nat|
            d.cursor.phase <= 3 ==> proper(d, #[trigger] round_answered(d, run, now)),
{
    proper_round_polled();
    assert forall|d: DriverView, run: Option<RunView>, now: nat|
        d.cursor.phase <= 3 implies proper(d, #[trigger] round_answered(d, run, now)) by {
        reveal(round_answered);
    }
}

proof fn proper_round_zero_written()
    ensures
        forall|d: DriverView, committed: Option<bool>, now: nat|
            d.cursor.phase <= 3 ==> proper(d, #[trigger] round_zero_written(d, committed, now)),
{
    proper_round_polled();
    assert forall|d: DriverView, committed: Option<bool>, now: nat|
        d.cursor.phase <= 3 implies proper(d, #[trigger] round_zero_written(d, committed, now)) by {
        reveal(round_zero_written);
    }
}

proof fn proper_round_polled()
    ensures
        forall|d: DriverView, now: nat|
            d.cursor.phase <= 3 ==> proper(d, #[trigger] round_polled(d, now)),
{
    proper_round_observed();
    assert forall|d: DriverView, now: nat|
        d.cursor.phase <= 3 implies proper(d, #[trigger] round_polled(d, now)) by {
        reveal(round_polled);
    }
}

proof fn proper_round_observed()
    ensures
        forall|d: DriverView, now: nat|
            d.cursor.phase <= 3 ==> proper(d, #[trigger] round_observed(d, now)),
{
    proper_round_resigned();
    assert forall|d: DriverView, now: nat|
        d.cursor.phase <= 3 implies proper(d, #[trigger] round_observed(d, now)) by {
        reveal(round_observed);
    }
}

proof fn proper_round_released()
    ensures
        forall|d: DriverView, released: Option<bool>, now: nat|
            d.cursor.phase <= 3 ==> proper(d, #[trigger] round_released(d, released, now)),
{
    proper_round_resigned();
    proper_foreign_begun();
    assert forall|d: DriverView, released: Option<bool>, now: nat|
        d.cursor.phase <= 3 implies proper(d, #[trigger] round_released(d, released, now)) by {
        reveal(round_released);
    }
}

proof fn proper_round_resigned()
    ensures
        forall|d: DriverView, now: nat|
            d.cursor.phase <= 3 ==> proper(d, #[trigger] round_resigned(d, now)),
{
    proper_round_tried();
    proper_stale_begun();
    assert forall|d: DriverView, now: nat|
        d.cursor.phase <= 3 implies proper(d, #[trigger] round_resigned(d, now)) by {
        reveal(round_resigned);
    }
}

proof fn proper_round_tried()
    ensures
        forall|d: DriverView, now: nat|
            d.cursor.phase <= 3 ==> proper(d, #[trigger] round_tried(d, now)),
{
    proper_round_paused();
    assert forall|d: DriverView, now: nat|
        d.cursor.phase <= 3 implies proper(d, #[trigger] round_tried(d, now)) by {
        reveal(round_tried);
    }
}

proof fn proper_round_checked()
    ensures
        forall|d: DriverView, event: EventView, now: nat|
            d.cursor.phase <= 3 ==> proper(d, #[trigger] round_checked(d, event, now)),
{
    proper_round_paused();
    assert forall|d: DriverView, event: EventView, now: nat|
        d.cursor.phase <= 3 implies proper(d, #[trigger] round_checked(d, event, now)) by {
        reveal(round_checked);
    }
}

proof fn proper_round_paused()
    ensures
        forall|d: DriverView, now: nat|
            d.cursor.phase <= 3 ==> proper(d, #[trigger] round_paused(d, now)),
{
    assert forall|d: DriverView, now: nat|
        d.cursor.phase <= 3 implies proper(d, #[trigger] round_paused(d, now)) by {
        reveal(round_paused);
    }
}

proof fn proper_round_ended()
    ensures
        forall|d: DriverView|
            d.cursor.phase <= 3 ==> proper(d, #[trigger] round_ended(d)),
{
    proper_round_begun();
    assert forall|d: DriverView|
        d.cursor.phase <= 3 implies proper(d, #[trigger] round_ended(d)) by {
        reveal(round_ended);
    }
}

proof fn proper_barrier_marked()
    ensures
        forall|d: DriverView, place: Place, barrier: Barrier, event: EventView|
            d.cursor.phase <= 3 && d.place != Place::PhaseFirst && place != Place::PhaseFirst
                ==> proper(d, #[trigger] barrier_marked(d, place, barrier, event)),
{
    assert forall|d: DriverView, place: Place, barrier: Barrier, event: EventView|
        d.cursor.phase <= 3 && d.place != Place::PhaseFirst && place
            != Place::PhaseFirst implies proper(
        d,
        #[trigger] barrier_marked(d, place, barrier, event),
    ) by {
        reveal(barrier_marked);
    }
}

proof fn proper_barrier_awaited()
    ensures
        forall|d: DriverView, barrier: Barrier, event: EventView|
            d.cursor.phase <= 3 && d.place != Place::PhaseFirst ==> proper(
                d,
                #[trigger] barrier_awaited(d, barrier, event),
            ),
{
    assert forall|d: DriverView, barrier: Barrier, event: EventView|
        d.cursor.phase <= 3 && d.place != Place::PhaseFirst implies proper(
        d,
        #[trigger] barrier_awaited(d, barrier, event),
    ) by {
        reveal(barrier_awaited);
    }
}

proof fn proper_race_begun()
    ensures
        forall|d: DriverView|
            d.cursor.phase <= 3 ==> proper(d, #[trigger] race_begun(d)),
{
    assert forall|d: DriverView|
        d.cursor.phase <= 3 implies proper(d, #[trigger] race_begun(d)) by {
        reveal(race_begun);
    }
}

proof fn proper_race_entered()
    ensures
        forall|d: DriverView, run: Option<RunView>|
            d.cursor.phase <= 3 ==> proper(d, #[trigger] race_entered(d, run)),
{
    assert forall|d: DriverView, run: Option<RunView>|
        d.cursor.phase <= 3 implies proper(d, #[trigger] race_entered(d, run)) by {
        reveal(race_entered);
    }
}

proof fn proper_race_watched()
    ensures
        forall|d: DriverView|
            d.cursor.phase <= 3 ==> proper(d, #[trigger] race_watched(d)),
{
    assert forall|d: DriverView|
        d.cursor.phase <= 3 implies proper(d, #[trigger] race_watched(d)) by {
        reveal(race_watched);
    }
}

proof fn proper_race_over()
    ensures
        forall|d: DriverView, status: Status|
            d.cursor.phase <= 3 ==> proper(d, #[trigger] race_over(d, status)),
{
    assert forall|d: DriverView, status: Status|
        d.cursor.phase <= 3 implies proper(d, #[trigger] race_over(d, status)) by {
        reveal(race_over);
    }
}

proof fn proper_race_started()
    ensures
        forall|d: DriverView|
            d.cursor.phase <= 3 ==> proper(d, #[trigger] race_started(d)),
{
    proper_race_over();
    assert forall|d: DriverView|
        d.cursor.phase <= 3 implies proper(d, #[trigger] race_started(d)) by {
        reveal(race_started);
    }
}

proof fn proper_race_answered()
    ensures
        forall|d: DriverView, run: Option<RunView>|
            d.cursor.phase <= 3 ==> proper(d, #[trigger] race_answered(d, run)),
{
    proper_race_over();
    assert forall|d: DriverView, run: Option<RunView>|
        d.cursor.phase <= 3 implies proper(d, #[trigger] race_answered(d, run)) by {
        reveal(race_answered);
    }
}

proof fn proper_race_written()
    ensures
        forall|d: DriverView, committed: Option<bool>|
            d.cursor.phase <= 3 ==> proper(d, #[trigger] race_written(d, committed)),
{
    proper_race_over();
    assert forall|d: DriverView, committed: Option<bool>|
        d.cursor.phase <= 3 implies proper(d, #[trigger] race_written(d, committed)) by {
        reveal(race_written);
    }
}

proof fn proper_race_closed()
    ensures
        forall|d: DriverView|
            d.cursor.phase <= 3 ==> proper(d, #[trigger] race_closed(d)),
{
    proper_finished();
    assert forall|d: DriverView|
        d.cursor.phase <= 3 implies proper(d, #[trigger] race_closed(d)) by {
        reveal(race_closed);
    }
}

proof fn proper_race_counted()
    ensures
        forall|d: DriverView, statuses: Option<Seq<Seq<u8>>>|
            d.cursor.phase <= 3 && d.place != Place::PhaseFirst ==> proper(
                d,
                #[trigger] race_counted(d, statuses),
            ),
{
    proper_completion_begun();
    assert forall|d: DriverView, statuses: Option<Seq<Seq<u8>>>|
        d.cursor.phase <= 3 && d.place != Place::PhaseFirst implies proper(
        d,
        #[trigger] race_counted(d, statuses),
    ) by {
        reveal(race_counted);
    }
}

proof fn proper_finished()
    ensures
        forall|d: DriverView|
            d.cursor.phase <= 3 ==> proper(d, #[trigger] finished(d)),
{
    assert forall|d: DriverView|
        d.cursor.phase <= 3 implies proper(d, #[trigger] finished(d)) by {
        reveal(finished);
    }
}

proof fn proper_stale_begun()
    ensures
        forall|d: DriverView, then: AfterStale, token: TokenView|
            d.cursor.phase <= 3 ==> proper(d, #[trigger] stale_begun(d, then, token)),
{
    assert forall|d: DriverView, then: AfterStale, token: TokenView|
        d.cursor.phase <= 3 implies proper(d, #[trigger] stale_begun(d, then, token)) by {
        reveal(stale_begun);
    }
}

proof fn proper_stale_polled()
    ensures
        forall|d: DriverView, then: AfterStale, run: Option<RunView>, now: nat|
            d.cursor.phase <= 3 ==> proper(d, #[trigger] stale_polled(d, then, run, now)),
{
    proper_stale_over();
    assert forall|d: DriverView, then: AfterStale, run: Option<RunView>, now: nat|
        d.cursor.phase <= 3 implies proper(d, #[trigger] stale_polled(d, then, run, now)) by {
        reveal(stale_polled);
    }
}

proof fn proper_stale_waited()
    ensures
        forall|d: DriverView, then: AfterStale, now: nat|
            d.cursor.phase <= 3 ==> proper(d, #[trigger] stale_waited(d, then, now)),
{
    proper_stale_over();
    assert forall|d: DriverView, then: AfterStale, now: nat|
        d.cursor.phase <= 3 implies proper(d, #[trigger] stale_waited(d, then, now)) by {
        reveal(stale_waited);
    }
}

proof fn proper_stale_resigned()
    ensures
        forall|d: DriverView, then: AfterStale, released: Option<bool>, now: nat|
            d.cursor.phase <= 3 ==> proper(d, #[trigger] stale_resigned(d, then, released, now)),
{
    proper_stale_over();
    assert forall|d: DriverView, then: AfterStale, released: Option<bool>, now: nat|
        d.cursor.phase <= 3 implies proper(d, #[trigger] stale_resigned(d, then, released, now)) by {
        reveal(stale_resigned);
    }
}

proof fn proper_stale_written()
    ensures
        forall|d: DriverView, then: AfterStale, committed: Option<bool>, now: nat|
            d.cursor.phase <= 3 ==> proper(d, #[trigger] stale_written(d, then, committed, now)),
{
    proper_stale_over();
    assert forall|d: DriverView, then: AfterStale, committed: Option<bool>, now: nat|
        d.cursor.phase <= 3 implies proper(d, #[trigger] stale_written(d, then, committed, now)) by {
        reveal(stale_written);
    }
}

proof fn proper_stale_over()
    ensures
        forall|d: DriverView, then: AfterStale, now: nat|
            d.cursor.phase <= 3 ==> proper(d, #[trigger] stale_over(d, then, now)),
{
    proper_round_tried();
    proper_foreign_over();
    proper_phase_resigning();
    assert forall|d: DriverView, then: AfterStale, now: nat|
        d.cursor.phase <= 3 implies proper(d, #[trigger] stale_over(d, then, now)) by {
        reveal(stale_over);
    }
}

proof fn proper_foreign_begun()
    ensures
        forall|d: DriverView, then: AfterForeign, lease: nat, delay: Option<AdoptionDelay>|
            d.cursor.phase <= 3 ==> proper(d, #[trigger] foreign_begun(d, then, lease, delay)),
{
    assert forall|d: DriverView, then: AfterForeign, lease: nat, delay: Option<AdoptionDelay>|
        d.cursor.phase <= 3 implies proper(d, #[trigger] foreign_begun(d, then, lease, delay)) by {
        reveal(foreign_begun);
    }
}

proof fn proper_foreign_polled()
    ensures
        forall|d: DriverView, then: AfterForeign, run: Option<RunView>, now: nat|
            d.cursor.phase <= 3 ==> proper(d, #[trigger] foreign_polled(d, then, run, now)),
{
    proper_foreign_over();
    assert forall|d: DriverView, then: AfterForeign, run: Option<RunView>, now: nat|
        d.cursor.phase <= 3 implies proper(d, #[trigger] foreign_polled(d, then, run, now)) by {
        reveal(foreign_polled);
    }
}

proof fn proper_foreign_followed()
    ensures
        forall|d: DriverView, then: AfterForeign, run: Option<RunView>, now: nat|
            d.cursor.phase <= 3 ==> proper(d, #[trigger] foreign_followed(d, then, run, now)),
{
    proper_foreign_over();
    assert forall|d: DriverView, then: AfterForeign, run: Option<RunView>, now: nat|
        d.cursor.phase <= 3 implies proper(d, #[trigger] foreign_followed(d, then, run, now)) by {
        reveal(foreign_followed);
    }
}

proof fn proper_foreign_early()
    ensures
        forall|d: DriverView, then: AfterForeign|
            d.cursor.phase <= 3 ==> proper(d, #[trigger] foreign_early(d, then)),
{
    assert forall|d: DriverView, then: AfterForeign|
        d.cursor.phase <= 3 implies proper(d, #[trigger] foreign_early(d, then)) by {
        reveal(foreign_early);
    }
}

proof fn proper_foreign_waited()
    ensures
        forall|d: DriverView, then: AfterForeign, run: Option<RunView>|
            d.cursor.phase <= 3 ==> proper(d, #[trigger] foreign_waited(d, then, run)),
{
    assert forall|d: DriverView, then: AfterForeign, run: Option<RunView>|
        d.cursor.phase <= 3 implies proper(d, #[trigger] foreign_waited(d, then, run)) by {
        reveal(foreign_waited);
    }
}

proof fn proper_foreign_due()
    ensures
        forall|d: DriverView, then: AfterForeign|
            d.cursor.phase <= 3 ==> proper(d, #[trigger] foreign_due(d, then)),
{
    assert forall|d: DriverView, then: AfterForeign|
        d.cursor.phase <= 3 implies proper(d, #[trigger] foreign_due(d, then)) by {
        reveal(foreign_due);
    }
}

proof fn proper_foreign_taken()
    ensures
        forall|d: DriverView, then: AfterForeign, run: Option<RunView>, now: nat|
            d.cursor.phase <= 3 ==> proper(d, #[trigger] foreign_taken(d, then, run, now)),
{
    proper_stale_begun();
    proper_foreign_over();
    assert forall|d: DriverView, then: AfterForeign, run: Option<RunView>, now: nat|
        d.cursor.phase <= 3 implies proper(d, #[trigger] foreign_taken(d, then, run, now)) by {
        reveal(foreign_taken);
    }
}

proof fn proper_foreign_over()
    ensures
        forall|d: DriverView, then: AfterForeign, now: nat|
            d.cursor.phase <= 3 ==> proper(d, #[trigger] foreign_over(d, then, now)),
{
    proper_round_resigned();
    proper_phase_resetting();
    assert forall|d: DriverView, then: AfterForeign, now: nat|
        d.cursor.phase <= 3 implies proper(d, #[trigger] foreign_over(d, then, now)) by {
        reveal(foreign_over);
    }
}

proof fn proper_completion_begun()
    ensures
        forall|d: DriverView|
            d.cursor.phase <= 3 ==> proper(d, #[trigger] completion_begun(d)),
{
    proper_phase_begun();
    assert forall|d: DriverView|
        d.cursor.phase <= 3 implies proper(d, #[trigger] completion_begun(d)) by {
        reveal(completion_begun);
    }
}

proof fn proper_phase_begun()
    ensures
        forall|d: DriverView|
            d.cursor.phase <= 3 ==> proper(d, #[trigger] phase_begun(d)),
{
    proper_final_begun();
    assert forall|d: DriverView|
        d.cursor.phase <= 3 implies proper(d, #[trigger] phase_begun(d)) by {
        reveal(phase_begun);
    }
}

proof fn proper_phase_led()
    ensures
        forall|d: DriverView, run: Option<RunView>|
            d.cursor.phase <= 3 ==> proper(d, #[trigger] phase_led(d, run)),
{
    proper_phase_watching();
    assert forall|d: DriverView, run: Option<RunView>|
        d.cursor.phase <= 3 implies proper(d, #[trigger] phase_led(d, run)) by {
        reveal(phase_led);
    }
}

proof fn proper_phase_renewed()
    ensures
        forall|d: DriverView, run: Option<RunView>|
            d.cursor.phase <= 3 ==> proper(d, #[trigger] phase_renewed(d, run)),
{
    proper_stale_begun();
    proper_phase_resigning();
    proper_phase_resetting();
    assert forall|d: DriverView, run: Option<RunView>|
        d.cursor.phase <= 3 implies proper(d, #[trigger] phase_renewed(d, run)) by {
        reveal(phase_renewed);
    }
}

proof fn proper_phase_resigning()
    ensures
        forall|d: DriverView|
            d.cursor.phase <= 3 ==> proper(d, #[trigger] phase_resigning(d)),
{
    proper_phase_resetting();
    assert forall|d: DriverView|
        d.cursor.phase <= 3 implies proper(d, #[trigger] phase_resigning(d)) by {
        reveal(phase_resigning);
    }
}

proof fn proper_phase_released()
    ensures
        forall|d: DriverView, released: Option<bool>|
            d.cursor.phase <= 3 ==> proper(d, #[trigger] phase_released(d, released)),
{
    proper_foreign_begun();
    proper_phase_resetting();
    assert forall|d: DriverView, released: Option<bool>|
        d.cursor.phase <= 3 implies proper(d, #[trigger] phase_released(d, released)) by {
        reveal(phase_released);
    }
}

proof fn proper_phase_resetting()
    ensures
        forall|d: DriverView|
            d.cursor.phase <= 3 ==> proper(d, #[trigger] phase_resetting(d)),
{
    assert forall|d: DriverView|
        d.cursor.phase <= 3 implies proper(d, #[trigger] phase_resetting(d)) by {
        reveal(phase_resetting);
    }
}

proof fn proper_phase_watching()
    ensures
        forall|d: DriverView|
            d.cursor.phase <= 3 ==> proper(d, #[trigger] phase_watching(d)),
{
    proper_phase_expiring();
    assert forall|d: DriverView|
        d.cursor.phase <= 3 implies proper(d, #[trigger] phase_watching(d)) by {
        reveal(phase_watching);
    }
}

proof fn proper_phase_expiring()
    ensures
        forall|d: DriverView|
            d.cursor.phase <= 3 ==> proper(d, #[trigger] phase_expiring(d)),
{
    proper_phase_ended();
    assert forall|d: DriverView|
        d.cursor.phase <= 3 implies proper(d, #[trigger] phase_expiring(d)) by {
        reveal(phase_expiring);
    }
}

proof fn proper_phase_ended()
    ensures
        forall|d: DriverView|
            d.cursor.phase <= 3 ==> proper(d, #[trigger] phase_ended(d)),
{
    proper_phase_begun();
    assert forall|d: DriverView|
        d.cursor.phase <= 3 implies proper(d, #[trigger] phase_ended(d)) by {
        reveal(phase_ended);
    }
}

proof fn proper_final_begun()
    ensures
        forall|d: DriverView|
            d.cursor.phase <= 3 ==> proper(d, #[trigger] final_begun(d)),
{
    assert forall|d: DriverView|
        d.cursor.phase <= 3 implies proper(d, #[trigger] final_begun(d)) by {
        reveal(final_begun);
    }
}

proof fn proper_final_followed()
    ensures
        forall|d: DriverView, run: Option<RunView>|
            d.cursor.phase <= 3 ==> proper(d, #[trigger] final_followed(d, run)),
{
    proper_final_adopted();
    assert forall|d: DriverView, run: Option<RunView>|
        d.cursor.phase <= 3 implies proper(d, #[trigger] final_followed(d, run)) by {
        reveal(final_followed);
    }
}

proof fn proper_final_adopted()
    ensures
        forall|d: DriverView|
            d.cursor.phase <= 3 ==> proper(d, #[trigger] final_adopted(d)),
{
    proper_exact_begun();
    assert forall|d: DriverView|
        d.cursor.phase <= 3 implies proper(d, #[trigger] final_adopted(d)) by {
        reveal(final_adopted);
    }
}

proof fn proper_exact_begun()
    ensures
        forall|d: DriverView|
            d.cursor.phase <= 3 ==> proper(d, #[trigger] exact_begun(d)),
{
    proper_exact_polling();
    assert forall|d: DriverView|
        d.cursor.phase <= 3 implies proper(d, #[trigger] exact_begun(d)) by {
        reveal(exact_begun);
    }
}

proof fn proper_exact_polling()
    ensures
        forall|d: DriverView|
            d.cursor.phase <= 3 ==> proper(d, #[trigger] exact_polling(d)),
{
    assert forall|d: DriverView|
        d.cursor.phase <= 3 implies proper(d, #[trigger] exact_polling(d)) by {
        reveal(exact_polling);
    }
}

proof fn proper_exact_polled()
    ensures
        forall|d: DriverView, run: Option<RunView>|
            d.cursor.phase <= 3 ==> proper(d, #[trigger] exact_polled(d, run)),
{
    assert forall|d: DriverView, run: Option<RunView>|
        d.cursor.phase <= 3 implies proper(d, #[trigger] exact_polled(d, run)) by {
        reveal(exact_polled);
    }
}

proof fn proper_exact_renewed()
    ensures
        forall|d: DriverView, run: Option<RunView>|
            d.cursor.phase <= 3 ==> proper(d, #[trigger] exact_renewed(d, run)),
{
    proper_completed();
    assert forall|d: DriverView, run: Option<RunView>|
        d.cursor.phase <= 3 implies proper(d, #[trigger] exact_renewed(d, run)) by {
        reveal(exact_renewed);
    }
}

proof fn proper_exact_resigning()
    ensures
        forall|d: DriverView, run: Option<RunView>|
            d.cursor.phase <= 3 ==> proper(d, #[trigger] exact_resigning(d, run)),
{
    proper_completed();
    assert forall|d: DriverView, run: Option<RunView>|
        d.cursor.phase <= 3 implies proper(d, #[trigger] exact_resigning(d, run)) by {
        reveal(exact_resigning);
    }
}

proof fn proper_exact_resigned()
    ensures
        forall|d: DriverView, released: Option<bool>|
            d.cursor.phase <= 3 ==> proper(d, #[trigger] exact_resigned(d, released)),
{
    proper_completed();
    assert forall|d: DriverView, released: Option<bool>|
        d.cursor.phase <= 3 implies proper(d, #[trigger] exact_resigned(d, released)) by {
        reveal(exact_resigned);
    }
}

proof fn proper_completed()
    ensures
        forall|d: DriverView|
            d.cursor.phase <= 3 ==> proper(d, #[trigger] completed(d)),
{
    proper_finished();
    assert forall|d: DriverView|
        d.cursor.phase <= 3 implies proper(d, #[trigger] completed(d)) by {
        reveal(completed);
    }
}

proof fn proper_after_round()
    ensures
        forall|d: DriverView, event: EventView, now: nat|
            d.cursor.phase <= 3 ==> proper(d, #[trigger] after_round(d, event, now)),
{
    proper_round_weighed();
    proper_round_delayed();
    proper_round_answered();
    proper_round_zero_written();
    proper_round_observed();
    proper_round_released();
    proper_round_checked();
    proper_round_ended();
    assert forall|d: DriverView, event: EventView, now: nat|
        d.cursor.phase <= 3 implies proper(d, #[trigger] after_round(d, event, now)) by {
        reveal(after_round);
    }
}

proof fn proper_after_race()
    ensures
        forall|d: DriverView, event: EventView|
            d.cursor.phase <= 3 && d.place != Place::PhaseFirst ==> proper(
                d,
                #[trigger] after_race(d, event),
            ),
{
    proper_barrier_marked();
    proper_barrier_awaited();
    proper_race_begun();
    proper_race_entered();
    proper_race_watched();
    proper_race_started();
    proper_race_answered();
    proper_race_written();
    proper_race_closed();
    proper_race_counted();
    assert forall|d: DriverView, event: EventView|
        d.cursor.phase <= 3 && d.place != Place::PhaseFirst implies proper(
        d,
        #[trigger] after_race(d, event),
    ) by {
        reveal(after_race);
    }
}

proof fn proper_after_phase()
    ensures
        forall|d: DriverView, event: EventView|
            d.cursor.phase <= 3 ==> proper(d, #[trigger] after_phase(d, event)),
{
    proper_phase_led();
    proper_phase_renewed();
    proper_phase_released();
    proper_phase_watching();
    proper_phase_expiring();
    proper_phase_ended();
    assert forall|d: DriverView, event: EventView|
        d.cursor.phase <= 3 implies proper(d, #[trigger] after_phase(d, event)) by {
        reveal(after_phase);
    }
}

proof fn proper_after_final()
    ensures
        forall|d: DriverView, event: EventView|
            d.cursor.phase <= 3 ==> proper(d, #[trigger] after_final(d, event)),
{
    proper_final_followed();
    proper_final_adopted();
    proper_exact_begun();
    proper_exact_polling();
    proper_exact_polled();
    proper_exact_renewed();
    proper_exact_resigning();
    proper_exact_resigned();
    assert forall|d: DriverView, event: EventView|
        d.cursor.phase <= 3 implies proper(d, #[trigger] after_final(d, event)) by {
        reveal(after_final);
    }
}

/// Every step of a script in hand is proper. No operation number is used twice,
/// no incarnation is taken up again, the plan stands, and a poll whose local state
/// is adopted is made for the client itself with what it knows.
#[verifier::spinoff_prover]
pub proof fn a_step_is_proper(d: DriverView, event: EventView, now: nat)
    requires
        d.cursor.phase <= 3,
    ensures
        proper(d, stepped(d, event, now)),
{
    let quiet = DriverView { notes: Seq::empty(), ..d };
    let turn = stepped(d, event, now);
    match d.place {
        Place::ForeignPoll(_)
        | Place::ForeignFollow(_)
        | Place::ForeignBefore(_)
        | Place::ForeignEarly(_)
        | Place::ForeignExact(_)
        | Place::ForeignDue(_) => proper_foreign(d, event, now),
        Place::StalePoll(_)
        | Place::StaleWait(_)
        | Place::StaleResign(_)
        | Place::StaleWrite(_) => proper_stale(d, event, now),
        Place::Done => {
            assert(proper(quiet, turn)) by {
                proper_finished();
            }
        },
        _ => proper_script(d, event, now),
    }
    proper_whatever_was_noted(d, turn);
}

proof fn proper_whatever_was_noted(d: DriverView, turn: Turn)
    requires
        proper(DriverView { notes: Seq::empty(), ..d }, turn),
    ensures
        proper(d, turn),
{
}

proof fn proper_script(d: DriverView, event: EventView, now: nat)
    requires
        d.cursor.phase <= 3,
        !(d.place is ForeignPoll || d.place is ForeignFollow || d.place is ForeignBefore
            || d.place is ForeignEarly || d.place is ForeignExact || d.place is ForeignDue),
        !(d.place is StalePoll || d.place is StaleWait || d.place is StaleResign
            || d.place is StaleWrite),
        !(d.place is Done),
    ensures
        proper(DriverView { notes: Seq::empty(), ..d }, stepped(d, event, now)),
{
    let quiet = DriverView { notes: Seq::empty(), ..d };
    assert(proper(quiet, after_round(quiet, event, now))) by {
        proper_after_round();
    }
    assert(d.place != Place::PhaseFirst ==> proper(quiet, after_race(quiet, event))) by {
        proper_after_race();
    }
    assert(proper(quiet, after_phase(quiet, event))) by {
        proper_after_phase();
    }
    assert(proper(quiet, after_final(quiet, event))) by {
        proper_after_final();
    }
}

proof fn proper_foreign(d: DriverView, event: EventView, now: nat)
    requires
        d.cursor.phase <= 3,
        d.place is ForeignPoll || d.place is ForeignFollow || d.place is ForeignBefore
            || d.place is ForeignEarly || d.place is ForeignExact || d.place is ForeignDue,
    ensures
        proper(DriverView { notes: Seq::empty(), ..d }, stepped(d, event, now)),
{
    let quiet = DriverView { notes: Seq::empty(), ..d };
    let turn = stepped(d, event, now);
    match d.place {
        Place::ForeignPoll(_) => {
            assert(proper(quiet, turn)) by {
                proper_foreign_polled();
            }
        },
        Place::ForeignFollow(_) => {
            assert(proper(quiet, turn)) by {
                proper_foreign_followed();
            }
        },
        Place::ForeignBefore(_) => {
            assert(proper(quiet, turn)) by {
                proper_foreign_early();
            }
        },
        Place::ForeignEarly(_) => {
            assert(proper(quiet, turn)) by {
                proper_foreign_waited();
            }
        },
        Place::ForeignExact(_) => {
            assert(proper(quiet, turn)) by {
                proper_foreign_due();
            }
        },
        _ => {
            assert(proper(quiet, turn)) by {
                proper_foreign_taken();
            }
        },
    }
}

proof fn proper_stale(d: DriverView, event: EventView, now: nat)
    requires
        d.cursor.phase <= 3,
        d.place is StalePoll || d.place is StaleWait || d.place is StaleResign
            || d.place is StaleWrite,
    ensures
        proper(DriverView { notes: Seq::empty(), ..d }, stepped(d, event, now)),
{
    let quiet = DriverView { notes: Seq::empty(), ..d };
    let turn = stepped(d, event, now);
    match d.place {
        Place::StalePoll(_) => {
            assert(proper(quiet, turn)) by {
                proper_stale_polled();
            }
        },
        Place::StaleWait(_) => {
            assert(proper(quiet, turn)) by {
                proper_stale_waited();
            }
        },
        Place::StaleResign(_) => {
            assert(proper(quiet, turn)) by {
                proper_stale_resigned();
            }
        },
        _ => {
            assert(proper(quiet, turn)) by {
                proper_stale_written();
            }
        },
    }
}

/// A script in hand stays in hand until it runs out of numbers.
pub proof fn a_script_stays_in_hand(d: DriverView, event: EventView, now: nat)
    requires
        in_hand(d),
    ensures
        ({
            let after = stepped(d, event, now).driver;
            after.tally.op_num < u64::MAX && after.who.incarnation < u64::MAX - 2 ==> in_hand(after)
        }),
{
    a_step_is_proper(d, event, now);
}

/// A client that is done stays done.
pub proof fn the_end_is_the_end(d: DriverView, event: EventView, now: nat)
    requires
        d.place == Place::Done,
    ensures
        stepped(d, event, now).driver.place == Place::Done,
        stepped(d, event, now).action is Finish,
{
    reveal(finished);
}

} // verus!
