//! What the nemesis-driven election workload does, and when it says it does it.
//!
//! A client plays a handful of processes. A roll of the dice picks what one of
//! them does next, and another may bend the time it claims to do it at.

use crate::duration;
use crate::duration::Duration;
use crate::lease_oracle;
use crate::log_schema;
use crate::log_schema::KeySpace;
use crate::text::same_text;
use foundationdb_tuple::Subspace;
use vstd::prelude::*;
use vstd::string::*;

verus! {

// ---------------------------------------------------------------------------
// Rolls
// ---------------------------------------------------------------------------

/// What an ordinary step does.
#[derive(Debug, Clone, Copy, PartialEq, Eq, Structural)]
pub enum NormalOp {
    /// Sends a heartbeat.
    Heartbeat,
    /// Tries to become the leader.
    TryBecomeLeader,
    /// Asks who leads.
    GetCurrentLeader,
    /// Asks whether it leads.
    IsLeader,
}

/// What an ordinary step does, by a roll of 0 to 69: thirty heartbeats, twenty-five
/// attempts to lead, ten questions who leads, and five whether oneself does.
pub fn normal_op(roll: u32) -> (r: NormalOp)
    ensures
        r == (if roll <= 29 {
            NormalOp::Heartbeat
        } else if roll <= 54 {
            NormalOp::TryBecomeLeader
        } else if roll <= 64 {
            NormalOp::GetCurrentLeader
        } else {
            NormalOp::IsLeader
        }),
{
    if roll <= 29 {
        NormalOp::Heartbeat
    } else if roll <= 54 {
        NormalOp::TryBecomeLeader
    } else if roll <= 64 {
        NormalOp::GetCurrentLeader
    } else {
        NormalOp::IsLeader
    }
}

/// What a step in the life of a process does.
#[derive(Debug, Clone, Copy, PartialEq, Eq, Structural)]
pub enum LifecycleOp {
    /// Registers a new process.
    Register,
    /// Lets one die.
    Die,
}

/// What a step in the life of a process does, by a roll of 0 to 14: ten births and
/// five deaths.
pub fn lifecycle_op(roll: u32) -> (r: LifecycleOp)
    ensures
        r == (if roll < 10 {
            LifecycleOp::Register
        } else {
            LifecycleOp::Die
        }),
{
    if roll < 10 {
        LifecycleOp::Register
    } else {
        LifecycleOp::Die
    }
}

/// What the nemesis does.
#[derive(Debug, Clone, Copy, PartialEq, Eq, Structural)]
pub enum NemesisOp {
    /// Switches elections off.
    Disable,
    /// Switches elections on.
    Enable,
    /// Changes the heartbeat timeout.
    ModifyTimeout,
    /// Clears the leader state.
    ClearLeader,
    /// Kills a process.
    Kill,
}

/// What the nemesis does, by a roll of 0 to 9.
pub fn nemesis_op(roll: u32) -> (r: NemesisOp)
    ensures
        r == (if roll <= 2 {
            NemesisOp::Disable
        } else if roll <= 5 {
            NemesisOp::Enable
        } else if roll <= 7 {
            NemesisOp::ModifyTimeout
        } else if roll == 8 {
            NemesisOp::ClearLeader
        } else {
            NemesisOp::Kill
        }),
{
    if roll <= 2 {
        NemesisOp::Disable
    } else if roll <= 5 {
        NemesisOp::Enable
    } else if roll <= 7 {
        NemesisOp::ModifyTimeout
    } else if roll == 8 {
        NemesisOp::ClearLeader
    } else {
        NemesisOp::Kill
    }
}

/// The name the leader state is kept under.
pub const LEADER_STATE: &'static str = "leader_state";

/// The name the processes are kept under.
pub const PROCESSES: &'static str = "processes";

/// Calls `Subspace::pack` on one name. The key is the prefix and the packed name. Both
/// are counted in a `u32`, and the call panics where that does not do.
#[verifier::external_body]
fn pack_name(prefix: &[u8], name: &str) -> (r: Vec<u8>)
    requires
        prefix@.len() <= u32::MAX,
        log_schema::name_prefix(name.spec_bytes()).len() <= u32::MAX,
    ensures
        r@ == prefix@ + log_schema::name_prefix(name.spec_bytes()),
{
    Subspace::from_bytes(prefix).pack(&(name,))
}

/// Calls `Subspace::pack` on two names. The key is the prefix and the two packed names.
/// The prefix is counted in a `u32`, and so are the two names together; the call panics
/// where that does not do.
#[verifier::external_body]
fn pack_names(prefix: &[u8], first: &str, second: &str) -> (r: Vec<u8>)
    requires
        prefix@.len() <= u32::MAX,
        log_schema::name_prefix(first.spec_bytes()).len() + log_schema::name_prefix(
            second.spec_bytes(),
        ).len() <= u32::MAX,
    ensures
        r@ == prefix@ + log_schema::name_prefix(first.spec_bytes()) + log_schema::name_prefix(
            second.spec_bytes(),
        ),
{
    Subspace::from_bytes(prefix).pack(&(first, second))
}

/// The key that the nemesis clears to take the leader away.
pub fn leader_state_key(space: &KeySpace) -> (r: Vec<u8>)
    requires
        space@.len() <= u32::MAX,
    ensures
        r@ == space@ + log_schema::name_prefix(LEADER_STATE.spec_bytes()),
{
    proof {
        reveal_strlit("leader_state");
        log_schema::a_short_name_has_a_short_prefix(LEADER_STATE);
    }
    pack_name(space.prefix.as_slice(), LEADER_STATE)
}

/// The key that the nemesis clears to kill a process.
pub fn process_key(space: &KeySpace, uuid: &str) -> (r: Vec<u8>)
    requires
        space@.len() <= u32::MAX,
        log_schema::name_prefix(PROCESSES.spec_bytes()).len() + log_schema::name_prefix(
            uuid.spec_bytes(),
        ).len() <= u32::MAX,
    ensures
        r@ == space@ + log_schema::name_prefix(PROCESSES.spec_bytes()) + log_schema::name_prefix(
            uuid.spec_bytes(),
        ),
{
    pack_names(space.prefix.as_slice(), PROCESSES, uuid)
}

/// The heartbeat timeout that a roll of 0 to 20 picks: 5 to 25 seconds.
pub fn new_timeout(roll: u32) -> (r: Duration)
    requires
        roll <= 20,
    ensures
        r@ == (roll + 5) * 1_000_000_000,
{
    Duration::from_secs((roll + 5) as u64)
}

// ---------------------------------------------------------------------------
// Bent time
// ---------------------------------------------------------------------------

/// How the time of an operation is bent.
#[derive(Debug, Clone, Copy, PartialEq, Eq, Structural)]
pub enum TimeAnomaly {
    /// Not at all.
    Normal,
    /// Up to a minute back.
    Stale,
    /// Up to a minute ahead.
    Future,
    /// At the instant the heartbeat times out.
    ExactlyAtTimeout,
    /// A nanosecond before that.
    JustBeforeTimeout,
    /// A nanosecond after that.
    JustAfterTimeout,
    /// No time at all.
    Zero,
    /// A second before the last heartbeat.
    TimeReversal,
}

/// How time is bent, by a roll of 0 to 999.
pub open spec fn anomaly_at(roll: u32) -> TimeAnomaly {
    if roll <= 699 {
        TimeAnomaly::Normal
    } else if roll <= 819 {
        TimeAnomaly::Stale
    } else if roll <= 899 {
        TimeAnomaly::Future
    } else if roll <= 929 {
        TimeAnomaly::ExactlyAtTimeout
    } else if roll <= 959 {
        TimeAnomaly::JustBeforeTimeout
    } else if roll <= 989 {
        TimeAnomaly::JustAfterTimeout
    } else if roll <= 994 {
        TimeAnomaly::Zero
    } else {
        TimeAnomaly::TimeReversal
    }
}

/// How time is bent, by a roll of 0 to 999.
pub fn select_time_anomaly(roll: u32) -> (r: TimeAnomaly)
    ensures
        r == anomaly_at(roll),
{
    if roll <= 699 {
        TimeAnomaly::Normal
    } else if roll <= 819 {
        TimeAnomaly::Stale
    } else if roll <= 899 {
        TimeAnomaly::Future
    } else if roll <= 929 {
        TimeAnomaly::ExactlyAtTimeout
    } else if roll <= 959 {
        TimeAnomaly::JustBeforeTimeout
    } else if roll <= 989 {
        TimeAnomaly::JustAfterTimeout
    } else if roll <= 994 {
        TimeAnomaly::Zero
    } else {
        TimeAnomaly::TimeReversal
    }
}

impl TimeAnomaly {
    /// Whether time is bent at all.
    pub fn is_anomalous(self) -> (r: bool)
        ensures
            r == (self != TimeAnomaly::Normal),
    {
        match self {
            TimeAnomaly::Normal => false,
            _ => true,
        }
    }

    /// Whether bending time takes another roll.
    pub fn takes_a_roll(self) -> (r: bool)
        ensures
            r == (self == TimeAnomaly::Stale || self == TimeAnomaly::Future),
    {
        match self {
            TimeAnomaly::Stale => true,
            TimeAnomaly::Future => true,
            _ => false,
        }
    }
}

/// A bent time. A roll of 0 to 59 picks how far a stale or a future time is off, in
/// whole seconds from one. Where there was no heartbeat the anomalies that need one
/// leave the time alone, but for a reversal, which goes back to one second.
pub open spec fn bent(
    base: nat,
    anomaly: TimeAnomaly,
    last_heartbeat: Option<nat>,
    timeout: nat,
    roll: u32,
) -> nat {
    let offset = (roll + 1) as nat * 1_000_000_000;
    match anomaly {
        TimeAnomaly::Normal => base,
        TimeAnomaly::Stale => lease_oracle::elapsed(offset, base),
        TimeAnomaly::Future => base + offset,
        TimeAnomaly::ExactlyAtTimeout => match last_heartbeat {
            Some(last) => last + timeout,
            None => base,
        },
        TimeAnomaly::JustBeforeTimeout => match last_heartbeat {
            Some(last) => (last + timeout - 1) as nat,
            None => base,
        },
        TimeAnomaly::JustAfterTimeout => match last_heartbeat {
            Some(last) => last + timeout + 1,
            None => base,
        },
        TimeAnomaly::Zero => 0,
        TimeAnomaly::TimeReversal => match last_heartbeat {
            Some(last) => lease_oracle::elapsed(1_000_000_000, last),
            None => 1_000_000_000,
        },
    }
}

/// What an optional span says.
pub open spec fn span(d: Option<Duration>) -> Option<nat> {
    match d {
        Some(d) => Some(d@),
        None => None,
    }
}

/// A bent time. The time bent forwards must still be a time, and there must be a
/// nanosecond before the timeout for a time just before it.
pub fn apply_time_anomaly(
    base_time: Duration,
    anomaly: TimeAnomaly,
    last_heartbeat: Option<Duration>,
    heartbeat_timeout: Duration,
    roll: u32,
) -> (r: Duration)
    requires
        bent(base_time@, anomaly, span(last_heartbeat), heartbeat_timeout@, roll)
            <= duration::longest(),
        anomaly == TimeAnomaly::JustBeforeTimeout && last_heartbeat is Some ==> 0
            < last_heartbeat->Some_0@ + heartbeat_timeout@ <= duration::longest(),
    ensures
        r@ == bent(base_time@, anomaly, span(last_heartbeat), heartbeat_timeout@, roll),
{
    let offset = Duration::from_secs(roll as u64 + 1);
    match anomaly {
        TimeAnomaly::Normal => base_time,
        TimeAnomaly::Stale => base_time.saturating_sub(offset),
        TimeAnomaly::Future => base_time.saturating_add(offset),
        TimeAnomaly::ExactlyAtTimeout => match last_heartbeat {
            Some(last) => last.saturating_add(heartbeat_timeout),
            None => base_time,
        },
        TimeAnomaly::JustBeforeTimeout => match last_heartbeat {
            Some(last) => last.saturating_add(heartbeat_timeout).saturating_sub(
                Duration::from_nanos(1),
            ),
            None => base_time,
        },
        TimeAnomaly::JustAfterTimeout => match last_heartbeat {
            Some(last) => last.saturating_add(heartbeat_timeout).saturating_add(
                Duration::from_nanos(1),
            ),
            None => base_time,
        },
        TimeAnomaly::Zero => Duration::zero(),
        TimeAnomaly::TimeReversal => match last_heartbeat {
            Some(last) => last.saturating_sub(Duration::from_secs(1)),
            None => Duration::from_secs(1),
        },
    }
}

/// The three anomalies around a timeout straddle it by one nanosecond each way.
pub proof fn anomalies_straddle_the_timeout(base: nat, last: nat, timeout: nat, roll: u32)
    requires
        last + timeout > 0,
    ensures
        bent(base, TimeAnomaly::JustBeforeTimeout, Some(last), timeout, roll) + 1 == bent(
            base,
            TimeAnomaly::ExactlyAtTimeout,
            Some(last),
            timeout,
            roll,
        ),
        bent(base, TimeAnomaly::JustAfterTimeout, Some(last), timeout, roll) == bent(
            base,
            TimeAnomaly::ExactlyAtTimeout,
            Some(last),
            timeout,
            roll,
        ) + 1,
{
}

// ---------------------------------------------------------------------------
// Processes
// ---------------------------------------------------------------------------

/// One process a client plays.
#[derive(Debug)]
pub struct ProcessState {
    /// Its name.
    pub uuid: String,
    /// When it last sent a heartbeat.
    pub last_heartbeat: Duration,
    /// Whether it is alive.
    pub is_alive: bool,
}

/// What a [`ProcessState`] says.
#[verifier::ext_equal]
pub struct ProcessView {
    pub uuid: Seq<char>,
    pub last_heartbeat: nat,
    pub is_alive: bool,
}

impl View for ProcessState {
    type V = ProcessView;

    open spec fn view(&self) -> ProcessView {
        ProcessView {
            uuid: self.uuid@,
            last_heartbeat: self.last_heartbeat@,
            is_alive: self.is_alive,
        }
    }
}

/// What a list of processes says.
pub open spec fn views(processes: Seq<ProcessState>) -> Seq<ProcessView> {
    Seq::new(processes.len(), |i: int| processes[i]@)
}

/// The processes a client plays, in the order they were registered.
#[derive(Debug)]
pub struct Processes {
    list: Vec<ProcessState>,
}

impl View for Processes {
    type V = Seq<ProcessView>;

    closed spec fn view(&self) -> Seq<ProcessView> {
        views(self.list@)
    }
}

/// The place of the process of a name at or after `from`.
pub open spec fn place_of(list: Seq<ProcessView>, uuid: Seq<char>, from: int) -> Option<int>
    decreases list.len() - from,
{
    if from < 0 || from >= list.len() {
        None
    } else if list[from].uuid == uuid {
        Some(from)
    } else {
        place_of(list, uuid, from + 1)
    }
}

/// The places of those of the first `n` processes that are alive.
pub open spec fn living(list: Seq<ProcessView>, n: int) -> Seq<int>
    decreases n,
{
    if n <= 0 {
        Seq::empty()
    } else if list[n - 1].is_alive {
        living(list, n - 1).push(n - 1)
    } else {
        living(list, n - 1)
    }
}

proof fn living_are_alive(list: Seq<ProcessView>, n: int)
    requires
        0 <= n <= list.len(),
    ensures
        forall|k: int|
            0 <= k < living(list, n).len() ==> 0 <= #[trigger] living(list, n)[k] < n
                && list[living(list, n)[k]].is_alive,
        living(list, n).len() <= n,
    decreases n,
{
    if n > 0 {
        living_are_alive(list, n - 1);
    }
}

impl Processes {
    /// No processes.
    pub fn new() -> (r: Processes)
        ensures
            r@ == Seq::<ProcessView>::empty(),
    {
        let r = Processes { list: Vec::new() };
        assert(r@ =~= Seq::<ProcessView>::empty());
        r
    }

    fn find(&self, uuid: &str) -> (r: Option<usize>)
        ensures
            match r {
                Some(i) => place_of(self@, uuid@, 0) == Some(i as int) && i < self.list@.len(),
                None => place_of(self@, uuid@, 0) is None,
            },
    {
        let ghost list = self@;
        let mut i: usize = 0;
        while i < self.list.len()
            invariant
                i <= self.list@.len(),
                list == views(self.list@),
                place_of(list, uuid@, 0) == place_of(list, uuid@, i as int),
            decreases self.list@.len() - i,
        {
            assert(list[i as int] == self.list@[i as int]@);
            if same_text(self.list[i].uuid.as_str(), uuid) {
                return Some(i);
            }
            i = i + 1;
        }
        None
    }

    /// Adds a living process that last sent a heartbeat at `at`; one of that name is
    /// replaced.
    pub fn register(&mut self, uuid: String, at: Duration)
        ensures
            ({
                let fresh = ProcessView { uuid: uuid@, last_heartbeat: at@, is_alive: true };
                match place_of(old(self)@, uuid@, 0) {
                    Some(i) => final(self)@ == old(self)@.update(i, fresh),
                    None => final(self)@ == old(self)@.push(fresh),
                }
            }),
    {
        let ghost before = self@;
        match self.find(uuid.as_str()) {
            Some(i) => {
                self.list.set(
                    i,
                    ProcessState { uuid, last_heartbeat: at, is_alive: true },
                );
                assert(self@ =~= before.update(
                    i as int,
                    ProcessView { uuid: uuid@, last_heartbeat: at@, is_alive: true },
                ));
            },
            None => {
                self.list.push(ProcessState { uuid, last_heartbeat: at, is_alive: true });
                assert(self@ =~= before.push(
                    ProcessView { uuid: uuid@, last_heartbeat: at@, is_alive: true },
                ));
            },
        }
    }

    /// How many processes are alive.
    pub fn living_count(&self) -> (r: usize)
        ensures
            r == living(self@, self@.len() as int).len(),
    {
        let ghost list = self@;
        let mut count: usize = 0;
        let mut i: usize = 0;
        while i < self.list.len()
            invariant
                i <= self.list@.len(),
                count <= i,
                list == views(self.list@),
                count == living(list, i as int).len(),
            decreases self.list@.len() - i,
        {
            assert(i < self.list.len());
            assert(list[i as int] == self.list@[i as int]@);
            if self.list[i].is_alive {
                count = count + 1;
            }
            i = i + 1;
        }
        count
    }

    /// The name and the last heartbeat of the living process of a number, counted in
    /// the order of the list.
    pub fn living_process(&self, number: usize) -> (r: Option<(String, Duration)>)
        ensures
            match r {
                Some((uuid, last)) => number < living(self@, self@.len() as int).len() && ({
                    let p = self@[living(self@, self@.len() as int)[number as int]];
                    p.is_alive && p.uuid == uuid@ && p.last_heartbeat == last@
                }),
                None => number >= living(self@, self@.len() as int).len(),
            },
    {
        let ghost list = self@;
        let ghost whole = living(list, list.len() as int);
        let mut count: usize = 0;
        let mut i: usize = 0;
        while i < self.list.len()
            invariant
                i <= self.list@.len(),
                count <= i,
                count <= number,
                list == views(self.list@),
                whole == living(list, list.len() as int),
                count == living(list, i as int).len(),
            decreases self.list@.len() - i,
        {
            assert(i < self.list.len());
            assert(list[i as int] == self.list@[i as int]@);
            if self.list[i].is_alive {
                if count == number {
                    proof {
                        living_extends(list, i as int + 1, list.len() as int);
                        assert(living(list, i as int + 1)[number as int] == i);
                        living_are_alive(list, list.len() as int);
                    }
                    return Some((self.list[i].uuid.clone(), self.list[i].last_heartbeat));
                }
                count = count + 1;
            }
            i = i + 1;
        }
        None
    }

    /// Notes a heartbeat of a process.
    pub fn heartbeat(&mut self, uuid: &str, at: Duration)
        ensures
            final(self)@ == (match place_of(old(self)@, uuid@, 0) {
                Some(i) => old(self)@.update(
                    i,
                    ProcessView { last_heartbeat: at@, ..old(self)@[i] },
                ),
                None => old(self)@,
            }),
    {
        let ghost before = self@;
        match self.find(uuid) {
            Some(i) => {
                let p = ProcessState {
                    uuid: self.list[i].uuid.clone(),
                    last_heartbeat: at,
                    is_alive: self.list[i].is_alive,
                };
                assert(before[i as int] == self.list@[i as int]@);
                self.list.set(i, p);
                assert(self@ =~= before.update(
                    i as int,
                    ProcessView { last_heartbeat: at@, ..before[i as int] },
                ));
            },
            None => {},
        }
    }

    /// Notes the death of a process.
    pub fn die(&mut self, uuid: &str)
        ensures
            final(self)@ == (match place_of(old(self)@, uuid@, 0) {
                Some(i) => old(self)@.update(i, ProcessView { is_alive: false, ..old(self)@[i] }),
                None => old(self)@,
            }),
    {
        let ghost before = self@;
        match self.find(uuid) {
            Some(i) => {
                let p = ProcessState {
                    uuid: self.list[i].uuid.clone(),
                    last_heartbeat: self.list[i].last_heartbeat,
                    is_alive: false,
                };
                assert(before[i as int] == self.list@[i as int]@);
                self.list.set(i, p);
                assert(self@ =~= before.update(
                    i as int,
                    ProcessView { is_alive: false, ..before[i as int] },
                ));
            },
            None => {},
        }
    }
}

proof fn living_extends(list: Seq<ProcessView>, i: int, n: int)
    requires
        0 <= i <= n <= list.len(),
    ensures
        living(list, i).len() <= living(list, n).len(),
        forall|k: int| 0 <= k < living(list, i).len() ==> living(list, i)[k] == living(list, n)[k],
    decreases n - i,
{
    if i < n {
        living_extends(list, i, n - 1);
    }
}

/// Whether no two processes have one name.
pub open spec fn distinct(list: Seq<ProcessView>) -> bool {
    forall|i: int, j: int| 0 <= i < j < list.len() ==> list[i].uuid != list[j].uuid
}

proof fn place_is_first(list: Seq<ProcessView>, uuid: Seq<char>, from: int)
    requires
        0 <= from <= list.len(),
    ensures
        match place_of(list, uuid, from) {
            Some(i) => from <= i < list.len() && list[i].uuid == uuid,
            None => forall|k: int| from <= k < list.len() ==> (#[trigger] list[k]).uuid != uuid,
        },
    decreases list.len() - from,
{
    if from < list.len() && list[from].uuid != uuid {
        place_is_first(list, uuid, from + 1);
    }
}

/// Registering a process keeps every name to one process.
pub proof fn a_name_stands_once(list: Seq<ProcessView>, fresh: ProcessView)
    requires
        distinct(list),
    ensures
        match place_of(list, fresh.uuid, 0) {
            Some(i) => distinct(list.update(i, fresh)),
            None => distinct(list.push(fresh)),
        },
{
    place_is_first(list, fresh.uuid, 0);
}

/// A process that died is not among the living.
pub proof fn the_dead_are_not_living(list: Seq<ProcessView>, i: int)
    requires
        0 <= i < list.len(),
        !list[i].is_alive,
    ensures
        !living(list, list.len() as int).contains(i),
{
    living_are_alive(list, list.len() as int);
}

} // verus!
