//! The registration, heartbeat and leadership log of candidates, and what the
//! check phase demands of it.
//!
//! Timestamps are order-preserving numbers here: the later the instant, the
//! larger the number. They are only ever compared.

use crate::journal;
use crate::journal::leader_id;
use crate::log_schema::{KeySpace, SchemaError};
use crate::text;
use crate::text::{byte_list, count_text, number_text, same_text, signed_text, wide_text};
use foundationdb_tuple::Subspace;
use vstd::prelude::*;
use vstd::string::*;

verus! {

// ---------------------------------------------------------------------------
// Operations and entries
// ---------------------------------------------------------------------------

/// The number a registration is logged under.
pub const OP_REGISTER: i64 = 0;

/// The number a heartbeat is logged under.
pub const OP_HEARTBEAT: i64 = 1;

/// The number an attempt to lead is logged under.
pub const OP_TRY_BECOME_LEADER: i64 = 2;

/// What a candidate does.
#[derive(Debug, Clone, Copy, PartialEq, Eq, Structural)]
pub enum OpType {
    /// Registers.
    Register,
    /// Sends a heartbeat.
    Heartbeat,
    /// Tries to become the leader.
    TryBecomeLeader,
}

impl OpType {
    /// The number an operation is logged under.
    pub open spec fn code(self) -> i64 {
        match self {
            OpType::Register => OP_REGISTER,
            OpType::Heartbeat => OP_HEARTBEAT,
            OpType::TryBecomeLeader => OP_TRY_BECOME_LEADER,
        }
    }

    /// The operation logged under a number.
    pub open spec fn coded(val: i64) -> Option<OpType> {
        if val == OP_REGISTER {
            Some(OpType::Register)
        } else if val == OP_HEARTBEAT {
            Some(OpType::Heartbeat)
        } else if val == OP_TRY_BECOME_LEADER {
            Some(OpType::TryBecomeLeader)
        } else {
            None
        }
    }

    /// The name of an operation.
    pub open spec fn word(self) -> Seq<char> {
        match self {
            OpType::Register => "Register"@,
            OpType::Heartbeat => "Heartbeat"@,
            OpType::TryBecomeLeader => "TryBecomeLeader"@,
        }
    }

    /// The number an operation is logged under.
    pub fn as_i64(self) -> (r: i64)
        ensures
            r == self.code(),
    {
        match self {
            OpType::Register => OP_REGISTER,
            OpType::Heartbeat => OP_HEARTBEAT,
            OpType::TryBecomeLeader => OP_TRY_BECOME_LEADER,
        }
    }

    /// The operation logged under a number.
    pub fn from_i64(val: i64) -> (r: Option<OpType>)
        ensures
            r == OpType::coded(val),
    {
        if val == OP_REGISTER {
            Some(OpType::Register)
        } else if val == OP_HEARTBEAT {
            Some(OpType::Heartbeat)
        } else if val == OP_TRY_BECOME_LEADER {
            Some(OpType::TryBecomeLeader)
        } else {
            None
        }
    }

    /// The name of an operation.
    pub fn as_str(self) -> (r: &'static str)
        ensures
            r@ == self.word(),
    {
        match self {
            OpType::Register => "Register",
            OpType::Heartbeat => "Heartbeat",
            OpType::TryBecomeLeader => "TryBecomeLeader",
        }
    }
}

/// Reading an operation's number gives the operation back.
pub proof fn op_type_round_trips(op: OpType)
    ensures
        OpType::coded(op.code()) == Some(op),
{
}

/// The name of what is logged under a number.
pub open spec fn op_word(val: i64) -> Seq<char> {
    match OpType::coded(val) {
        Some(op) => op.word(),
        None => "Unknown"@,
    }
}

/// The name of what is logged under a number.
pub fn op_name(val: i64) -> (r: &'static str)
    ensures
        r@ == op_word(val),
{
    match OpType::from_i64(val) {
        Some(op) => op.as_str(),
        None => "Unknown",
    }
}

/// One logged operation.
#[derive(Debug, Clone, Copy, PartialEq, Eq, Structural)]
pub struct Entry {
    /// The client.
    pub client_id: i32,
    /// The client's own number for the operation.
    pub op_num: u64,
    /// What it did, by number.
    pub op_type: i64,
    /// Whether it succeeded.
    pub success: bool,
    /// Whether it made the client the leader.
    pub became_leader: bool,
    /// When it was logged.
    pub at: u64,
    /// When a lease taken then ends.
    pub lease_end: u64,
}

impl Entry {
    /// Whether the entry is a successful claim of leadership.
    pub open spec fn claims(self) -> bool {
        self.op_type == OP_TRY_BECOME_LEADER && self.success && self.became_leader
    }

    fn is_claim(&self) -> (r: bool)
        ensures
            r == self.claims(),
    {
        self.op_type == OP_TRY_BECOME_LEADER && self.success && self.became_leader
    }
}

/// How many of the first `n` entries satisfy a predicate.
pub open spec fn count_where(entries: Seq<Entry>, p: spec_fn(Entry) -> bool, n: int) -> nat
    decreases n,
{
    if n <= 0 {
        0
    } else {
        count_where(entries, p, n - 1) + if p(entries[n - 1]) {
            1nat
        } else {
            0
        }
    }
}

proof fn count_is_bounded(entries: Seq<Entry>, p: spec_fn(Entry) -> bool, n: int)
    requires
        n >= 0,
    ensures
        count_where(entries, p, n) <= n,
    decreases n,
{
    if n > 0 {
        count_is_bounded(entries, p, n - 1);
    }
}

// ---------------------------------------------------------------------------
// Statistics
// ---------------------------------------------------------------------------

/// What one client's entries come to.
#[derive(Debug)]
pub struct ClientStats {
    /// Registrations.
    pub register_count: usize,
    /// Heartbeats.
    pub heartbeat_count: usize,
    /// Attempts to lead.
    pub leadership_attempt_count: usize,
    /// Attempts that led.
    pub leadership_success_count: usize,
    /// Known operations that failed.
    pub error_count: usize,
    /// The earliest timestamp.
    pub first_timestamp: Option<u64>,
    /// The latest timestamp.
    pub last_timestamp: Option<u64>,
    /// The operation numbers, in the order of the log.
    pub op_nums: Vec<u64>,
}

/// Whether an entry is a client's operation of this kind.
pub open spec fn does(client: i32, op: OpType) -> spec_fn(Entry) -> bool {
    |e: Entry| e.client_id == client && OpType::coded(e.op_type) == Some(op)
}

/// Whether an entry made a client the leader in an attempt to lead.
pub open spec fn wins(client: i32) -> spec_fn(Entry) -> bool {
    |e: Entry|
        e.client_id == client && OpType::coded(e.op_type) == Some(OpType::TryBecomeLeader)
            && e.became_leader
}

/// Whether an entry is a client's known operation that failed.
pub open spec fn fails(client: i32) -> spec_fn(Entry) -> bool {
    |e: Entry| e.client_id == client && OpType::coded(e.op_type) is Some && !e.success
}

/// A client's operation numbers among the first `n` entries, in the order of the
/// log.
pub open spec fn ops_of(entries: Seq<Entry>, client: i32, n: int) -> Seq<u64>
    decreases n,
{
    if n <= 0 {
        Seq::empty()
    } else if entries[n - 1].client_id == client {
        ops_of(entries, client, n - 1).push(entries[n - 1].op_num)
    } else {
        ops_of(entries, client, n - 1)
    }
}

/// A client's earliest timestamp among the first `n` entries.
pub open spec fn earliest(entries: Seq<Entry>, client: i32, n: int) -> Option<u64>
    decreases n,
{
    if n <= 0 {
        None
    } else {
        let e = entries[n - 1];
        match earliest(entries, client, n - 1) {
            Some(at) if e.client_id != client || at <= e.at => Some(at),
            None if e.client_id != client => None,
            _ => Some(e.at),
        }
    }
}

/// A client's latest timestamp among the first `n` entries.
pub open spec fn latest(entries: Seq<Entry>, client: i32, n: int) -> Option<u64>
    decreases n,
{
    if n <= 0 {
        None
    } else {
        let e = entries[n - 1];
        match latest(entries, client, n - 1) {
            Some(at) if e.client_id != client || at >= e.at => Some(at),
            None if e.client_id != client => None,
            _ => Some(e.at),
        }
    }
}

impl ClientStats {
    /// Whether these are a client's statistics over the first `n` entries.
    pub open spec fn sums_up(self, entries: Seq<Entry>, client: i32, n: int) -> bool {
        &&& self.register_count == count_where(entries, does(client, OpType::Register), n)
        &&& self.heartbeat_count == count_where(entries, does(client, OpType::Heartbeat), n)
        &&& self.leadership_attempt_count == count_where(
            entries,
            does(client, OpType::TryBecomeLeader),
            n,
        )
        &&& self.leadership_success_count == count_where(entries, wins(client), n)
        &&& self.error_count == count_where(entries, fails(client), n)
        &&& self.first_timestamp == earliest(entries, client, n)
        &&& self.last_timestamp == latest(entries, client, n)
        &&& self.op_nums@ == ops_of(entries, client, n)
    }
}

fn add_one(n: usize, holds: bool) -> (r: usize)
    requires
        n < usize::MAX,
    ensures
        r == n + if holds {
            1int
        } else {
            0
        },
{
    if holds {
        n + 1
    } else {
        n
    }
}

/// The statistics of one client.
pub fn client_stats(entries: &[Entry], client: i32) -> (r: ClientStats)
    ensures
        r.sums_up(entries@, client, entries@.len() as int),
{
    let mut r = ClientStats {
        register_count: 0,
        heartbeat_count: 0,
        leadership_attempt_count: 0,
        leadership_success_count: 0,
        error_count: 0,
        first_timestamp: None,
        last_timestamp: None,
        op_nums: Vec::new(),
    };
    let mut i: usize = 0;
    while i < entries.len()
        invariant
            i <= entries@.len(),
            r.sums_up(entries@, client, i as int),
        decreases entries@.len() - i,
    {
        assert(i < entries.len());
        proof {
            count_is_bounded(entries@, does(client, OpType::Register), i as int);
            count_is_bounded(entries@, does(client, OpType::Heartbeat), i as int);
            count_is_bounded(entries@, does(client, OpType::TryBecomeLeader), i as int);
            count_is_bounded(entries@, wins(client), i as int);
            count_is_bounded(entries@, fails(client), i as int);
        }
        let e = entries[i];
        if e.client_id == client {
            let (registers, beats, tries) = match OpType::from_i64(e.op_type) {
                Some(OpType::Register) => (true, false, false),
                Some(OpType::Heartbeat) => (false, true, false),
                Some(OpType::TryBecomeLeader) => (false, false, true),
                None => (false, false, false),
            };
            r.op_nums.push(e.op_num);
            r.first_timestamp = match r.first_timestamp {
                Some(at) => Some(
                    if e.at < at {
                        e.at
                    } else {
                        at
                    },
                ),
                None => Some(e.at),
            };
            r.last_timestamp = match r.last_timestamp {
                Some(at) => Some(
                    if e.at > at {
                        e.at
                    } else {
                        at
                    },
                ),
                None => Some(e.at),
            };
            r.register_count = add_one(r.register_count, registers);
            r.heartbeat_count = add_one(r.heartbeat_count, beats);
            r.leadership_attempt_count = add_one(r.leadership_attempt_count, tries);
            r.leadership_success_count = add_one(
                r.leadership_success_count,
                tries && e.became_leader,
            );
            r.error_count = add_one(r.error_count, (registers || beats || tries) && !e.success);
        }
        i = i + 1;
    }
    r
}

/// Whether an entry made its client the leader.
pub open spec fn leads() -> spec_fn(Entry) -> bool {
    |e: Entry| e.became_leader
}

/// For every entry, how many entries up to it made their client the leader.
pub fn running_leaderships(entries: &[Entry]) -> (r: Vec<usize>)
    ensures
        r@.len() == entries@.len(),
        forall|i: int| 0 <= i < r@.len() ==> #[trigger] r@[i] == count_where(entries@, leads(), i + 1),
{
    let mut r: Vec<usize> = Vec::new();
    let mut count: usize = 0;
    let mut i: usize = 0;
    while i < entries.len()
        invariant
            i <= entries@.len(),
            count <= i,
            count == count_where(entries@, leads(), i as int),
            r@.len() == i,
            forall|k: int| 0 <= k < i ==> #[trigger] r@[k] == count_where(entries@, leads(), k + 1),
        decreases entries@.len() - i,
    {
        assert(i < entries.len());
        if entries[i].became_leader {
            count = count + 1;
        }
        r.push(count);
        i = i + 1;
    }
    r
}

/// Whether a client logged anything among the first `n` entries.
pub open spec fn logged(entries: Seq<Entry>, client: i32, n: int) -> bool {
    exists|i: int| 0 <= i < n && (#[trigger] entries[i]).client_id == client
}

/// Whether a list names exactly the clients of the first `n` entries, in order.
pub open spec fn lists_clients(clients: Seq<i32>, entries: Seq<Entry>, n: int) -> bool {
    &&& forall|i: int, j: int| 0 <= i < j < clients.len() ==> clients[i] < clients[j]
    &&& forall|i: int| 0 <= i < clients.len() ==> logged(entries, #[trigger] clients[i], n)
    &&& forall|i: int| 0 <= i < n ==> clients.contains((#[trigger] entries[i]).client_id)
}

fn add_client(clients: &mut Vec<i32>, client: i32)
    requires
        forall|i: int, j: int|
            0 <= i < j < old(clients)@.len() ==> old(clients)@[i] < old(clients)@[j],
    ensures
        forall|i: int, j: int|
            0 <= i < j < final(clients)@.len() ==> final(clients)@[i] < final(clients)@[j],
        forall|c: i32|
            #[trigger] final(clients)@.contains(c) <==> c == client || old(clients)@.contains(c),
{
    let mut at: usize = 0;
    while at < clients.len() && clients[at] < client
        invariant
            at <= clients@.len(),
            clients@ == old(clients)@,
            forall|i: int| 0 <= i < at ==> clients@[i] < client,
        decreases clients@.len() - at,
    {
        at = at + 1;
    }
    let ghost before = clients@;
    if at < clients.len() && clients[at] == client {
        assert(before[at as int] == client);
        return;
    }
    clients.insert(at, client);
    proof {
        let after = clients@;
        assert(after == before.insert(at as int, client));
        assert(after[at as int] == client);
        assert forall|i: int| 0 <= i < before.len() implies after.contains(#[trigger] before[i]) by {
            if i < at {
                assert(after[i] == before[i]);
            } else {
                assert(after[i + 1] == before[i]);
            }
        }
        assert forall|i: int| 0 <= i < after.len() implies #[trigger] after[i] == client
            || before.contains(after[i]) by {
            if i < at {
                assert(before[i] == after[i]);
            } else if i > at {
                assert(before[i - 1] == after[i]);
            }
        }
        assert forall|i: int, j: int| 0 <= i < j < after.len() implies after[i] < after[j] by {
            if i < at && j > at {
                assert(before[i] < before[j - 1]);
            } else if i > at {
                assert(before[i - 1] < before[j - 1]);
            } else if i == at {
                assert(before[at as int] > client);
                if j > at + 1 {
                    assert(before[at as int] < before[j - 1]);
                }
            }
        }
    }
}

/// The clients that logged anything, in order. There is one such list, see
/// [`clients_are_listed_one_way`].
pub open spec fn log_clients(entries: Seq<Entry>) -> Seq<i32> {
    choose|clients: Seq<i32>| lists_clients(clients, entries, entries.len() as int)
}

/// The clients that logged anything, in order.
pub fn clients_of(entries: &[Entry]) -> (r: Vec<i32>)
    ensures
        lists_clients(r@, entries@, entries@.len() as int),
        r@ == log_clients(entries@),
{
    let mut r: Vec<i32> = Vec::new();
    let mut i: usize = 0;
    while i < entries.len()
        invariant
            i <= entries@.len(),
            lists_clients(r@, entries@, i as int),
        decreases entries@.len() - i,
    {
        let client: i32 = entries[i].client_id;
        let ghost before = r@;
        add_client(&mut r, client);
        proof {
            assert(entries@[i as int].client_id == client);
            assert forall|k: int| 0 <= k < r@.len() implies logged(
                entries@,
                #[trigger] r@[k],
                i as int + 1,
            ) by {
                assert(r@.contains(r@[k]));
                if before.contains(r@[k]) {
                    let m = choose|m: int| 0 <= m < before.len() && before[m] == r@[k];
                    assert(logged(entries@, before[m], i as int));
                    let w = choose|w: int|
                        0 <= w < i && (#[trigger] entries@[w]).client_id == before[m];
                    assert(entries@[w].client_id == r@[k]);
                } else {
                    assert(entries@[i as int].client_id == r@[k]);
                }
            }
            assert forall|k: int| 0 <= k < i + 1 implies r@.contains(
                (#[trigger] entries@[k]).client_id,
            ) by {
                if k < i {
                    assert(before.contains(entries@[k].client_id));
                }
            }
        }
        i = i + 1;
    }
    proof {
        clients_are_listed_one_way(
            r@,
            log_clients(entries@),
            entries@,
            entries@.len() as int,
        );
    }
    r
}

/// Two lists of the same log's clients are the same list.
pub proof fn clients_are_listed_one_way(a: Seq<i32>, b: Seq<i32>, entries: Seq<Entry>, n: int)
    requires
        lists_clients(a, entries, n),
        lists_clients(b, entries, n),
    ensures
        a == b,
    decreases a.len(),
{
    assert forall|i: int| 0 <= i < a.len() implies b.contains(#[trigger] a[i]) by {
        assert(logged(entries, a[i], n));
        let w = choose|w: int| 0 <= w < n && (#[trigger] entries[w]).client_id == a[i];
        assert(b.contains(entries[w].client_id));
    }
    assert forall|i: int| 0 <= i < b.len() implies a.contains(#[trigger] b[i]) by {
        assert(logged(entries, b[i], n));
        let w = choose|w: int| 0 <= w < n && (#[trigger] entries[w]).client_id == b[i];
        assert(a.contains(entries[w].client_id));
    }
    increasing_lists_agree(a, b, a.len() as int);
    if a.len() < b.len() {
        assert(a.contains(b[a.len() as int]));
        let k = choose|k: int| 0 <= k < a.len() && a[k] == b[a.len() as int];
        assert(a[k] == b[k]);
        assert(b[k] < b[a.len() as int]);
    }
    if b.len() < a.len() {
        assert(b.contains(a[b.len() as int]));
        let k = choose|k: int| 0 <= k < b.len() && b[k] == a[b.len() as int];
        assert(a[k] == b[k]);
        assert(a[k] < a[b.len() as int]);
    }
    assert(a =~= b);
}

proof fn increasing_lists_agree(a: Seq<i32>, b: Seq<i32>, n: int)
    requires
        0 <= n <= a.len(),
        forall|i: int, j: int| 0 <= i < j < a.len() ==> a[i] < a[j],
        forall|i: int, j: int| 0 <= i < j < b.len() ==> b[i] < b[j],
        forall|i: int| 0 <= i < a.len() ==> b.contains(#[trigger] a[i]),
        forall|i: int| 0 <= i < b.len() ==> a.contains(#[trigger] b[i]),
    ensures
        forall|i: int| 0 <= i < n && i < b.len() ==> a[i] == b[i],
    decreases n,
{
    if n > 0 {
        increasing_lists_agree(a, b, n - 1);
        let i = n - 1;
        if i < b.len() {
            assert(b.contains(a[i]));
            let k = choose|k: int| 0 <= k < b.len() && b[k] == a[i];
            assert(a.contains(b[i]));
            let m = choose|m: int| 0 <= m < a.len() && a[m] == b[i];
            if k < i {
                assert(a[k] == b[k]);
                assert(a[k] < a[i]);
            }
            if m < i {
                assert(a[m] == b[m]);
                assert(b[m] < b[i]);
            }
            if k > i {
                assert(b[i] < b[k]);
                if m > i {
                    assert(a[i] < a[m]);
                }
            }
        }
    }
}

/// Whether statistics stand for every client of a log, in order.
pub open spec fn stats_cover(stats: Seq<(i32, ClientStats)>, entries: Seq<Entry>) -> bool {
    &&& lists_clients(clients_in(stats), entries, entries.len() as int)
    &&& forall|i: int|
        0 <= i < stats.len() ==> (#[trigger] stats[i]).1.sums_up(
            entries,
            stats[i].0,
            entries.len() as int,
        )
}

/// The clients that statistics stand for.
pub open spec fn clients_in(stats: Seq<(i32, ClientStats)>) -> Seq<i32> {
    Seq::new(stats.len(), |i: int| stats[i].0)
}

/// The statistics of every client of a log, in order.
pub fn extract_client_stats(entries: &[Entry]) -> (r: Vec<(i32, ClientStats)>)
    ensures
        stats_cover(r@, entries@),
{
    let clients = clients_of(entries);
    let mut r: Vec<(i32, ClientStats)> = Vec::new();
    let mut i: usize = 0;
    while i < clients.len()
        invariant
            i <= clients@.len(),
            r@.len() == i,
            forall|k: int| 0 <= k < i ==> (#[trigger] r@[k]).0 == clients@[k],
            forall|k: int|
                0 <= k < i ==> (#[trigger] r@[k]).1.sums_up(
                    entries@,
                    r@[k].0,
                    entries@.len() as int,
                ),
        decreases clients@.len() - i,
    {
        let client: i32 = clients[i];
        r.push((client, client_stats(entries, client)));
        i = i + 1;
    }
    assert(clients_in(r@) =~= clients@);
    r
}

// ---------------------------------------------------------------------------
// Issues
// ---------------------------------------------------------------------------

/// What a list of issues says.
pub open spec fn issue_texts(issues: Seq<String>) -> Seq<Seq<char>> {
    Seq::new(issues.len(), |i: int| issues[i]@)
}

/// The first `n` issues, with semicolons between them.
pub open spec fn joined(issues: Seq<Seq<char>>, n: int) -> Seq<char>
    decreases n,
{
    if n <= 0 {
        Seq::empty()
    } else if n == 1 {
        issues[0]
    } else {
        joined(issues, n - 1) + "; "@ + issues[n - 1]
    }
}

/// What a check comes to: it passes with a remark where there are no issues, and
/// fails with all of them otherwise.
pub open spec fn ruling(issues: Seq<Seq<char>>, remark: Seq<char>) -> (bool, Seq<char>) {
    if issues.len() == 0 {
        (true, remark)
    } else {
        (false, joined(issues, issues.len() as int))
    }
}

fn join(issues: &Vec<String>) -> (r: String)
    ensures
        r@ == joined(issue_texts(issues@), issues@.len() as int),
{
    let ghost texts = issue_texts(issues@);
    proof {
        reveal_strlit("");
    }
    let mut r = "".to_owned();
    assert(r@ =~= Seq::<char>::empty());
    let mut i: usize = 0;
    while i < issues.len()
        invariant
            i <= issues@.len(),
            texts == issue_texts(issues@),
            r@ == joined(texts, i as int),
        decreases issues@.len() - i,
    {
        assert(texts[i as int] == issues@[i as int]@);
        r = if i == 0 {
            issues[i].clone()
        } else {
            r.concat("; ").concat(issues[i].as_str())
        };
        i = i + 1;
    }
    r
}

fn rule(issues: Vec<String>, remark: String) -> (r: (bool, String))
    ensures
        (r.0, r.1@) == ruling(issue_texts(issues@), remark@),
{
    assert(issue_texts(issues@).len() == issues@.len());
    if issues.len() == 0 {
        (true, remark)
    } else {
        (false, join(&issues))
    }
}

fn add_issue(issues: &mut Vec<String>, issue: String)
    ensures
        issue_texts(final(issues)@) == issue_texts(old(issues)@).push(issue@),
{
    issues.push(issue);
    assert(issue_texts(issues@) =~= issue_texts(old(issues)@).push(issue@));
}

// ---------------------------------------------------------------------------
// Completeness
// ---------------------------------------------------------------------------

/// Where a number goes among the first `n` of an increasing sequence: behind
/// everything that is no larger.
pub open spec fn slot(sorted: Seq<u64>, x: u64, n: int) -> int
    decreases n,
{
    if n <= 0 || sorted[n - 1] <= x {
        n
    } else {
        slot(sorted, x, n - 1)
    }
}

/// The first `n` numbers in increasing order.
pub open spec fn sorted_ops(ops: Seq<u64>, n: int) -> Seq<u64>
    decreases n,
{
    if n <= 0 {
        Seq::empty()
    } else {
        let before = sorted_ops(ops, n - 1);
        before.insert(slot(before, ops[n - 1], before.len() as int), ops[n - 1])
    }
}

proof fn slot_is_within(sorted: Seq<u64>, x: u64, n: int)
    requires
        0 <= n <= sorted.len(),
    ensures
        0 <= slot(sorted, x, n) <= n,
        forall|i: int| slot(sorted, x, n) <= i < n ==> sorted[i] > x,
        slot(sorted, x, n) > 0 ==> sorted[slot(sorted, x, n) - 1] <= x,
    decreases n,
{
    if n > 0 && sorted[n - 1] > x {
        slot_is_within(sorted, x, n - 1);
    }
}

/// Sorting keeps every number and puts them in increasing order.
pub proof fn sorting_sorts(ops: Seq<u64>, n: int)
    requires
        0 <= n <= ops.len(),
    ensures
        sorted_ops(ops, n).len() == n,
        forall|i: int, j: int| 0 <= i <= j < n ==> sorted_ops(ops, n)[i] <= sorted_ops(ops, n)[j],
        sorted_ops(ops, n).to_multiset() == ops.take(n).to_multiset(),
    decreases n,
{
    if n > 0 {
        sorting_sorts(ops, n - 1);
        let before = sorted_ops(ops, n - 1);
        let x = ops[n - 1];
        let p = slot(before, x, before.len() as int);
        slot_is_within(before, x, before.len() as int);
        let after = sorted_ops(ops, n);
        assert(after == before.insert(p, x));
        assert forall|i: int, j: int| 0 <= i <= j < n implies after[i] <= after[j] by {
            if i < p && j > p {
                assert(before[i] <= before[j - 1]);
            } else if i > p {
                assert(before[i - 1] <= before[j - 1]);
            } else if i == p && j > p {
                assert(before[j - 1] > x);
            } else if i < p && j == p {
                assert(before[i] <= before[p - 1]);
            }
        }
        vstd::seq_lib::to_multiset_insert(before, p, x);
        assert(ops.take(n) =~= ops.take(n - 1).push(x));
        vstd::seq_lib::to_multiset_insert(ops.take(n - 1), n - 1, x);
        assert(ops.take(n - 1).insert(n - 1, x) =~= ops.take(n - 1).push(x));
    } else {
        assert(ops.take(0) =~= Seq::<u64>::empty());
    }
}

fn sort_ops(ops: &Vec<u64>) -> (r: Vec<u64>)
    ensures
        r@ == sorted_ops(ops@, ops@.len() as int),
{
    let mut r: Vec<u64> = Vec::new();
    let mut i: usize = 0;
    while i < ops.len()
        invariant
            i <= ops@.len(),
            r@ == sorted_ops(ops@, i as int),
            r@.len() == i,
        decreases ops@.len() - i,
    {
        let x: u64 = ops[i];
        let mut at: usize = r.len();
        while at > 0 && r[at - 1] > x
            invariant
                at <= r@.len(),
                slot(r@, x, r@.len() as int) == slot(r@, x, at as int),
            decreases at,
        {
            at = at - 1;
        }
        r.insert(at, x);
        i = i + 1;
    }
    r
}

/// The first place at or after `from` where the operation numbers do not count up
/// from zero.
pub open spec fn gap(sorted: Seq<u64>, from: int) -> Option<int>
    decreases sorted.len() - from,
{
    if from < 0 || from >= sorted.len() {
        None
    } else if sorted[from] != from {
        Some(from)
    } else {
        gap(sorted, from + 1)
    }
}

/// What is wrong with the clients from `client` on that logged nothing.
pub open spec fn silent(clients: Seq<i32>, client: int, count: int) -> Seq<Seq<char>>
    decreases count - client,
{
    if client >= count {
        Seq::empty()
    } else {
        (if exists|i: int| 0 <= i < clients.len() && #[trigger] clients[i] == client {
            Seq::empty()
        } else {
            seq!["Client "@ + text::int_text(client) + " has no log entries"@]
        }) + silent(clients, client + 1, count)
    }
}

/// What is wrong with one client's operation numbers.
pub open spec fn gap_issue(client: i32, ops: Seq<u64>) -> Seq<Seq<char>> {
    let sorted = sorted_ops(ops, ops.len() as int);
    match gap(sorted, 0) {
        Some(i) => seq![
            "Client "@ + text::int_text(client as int) + ": op_num gap at index "@ + text::nat_text(
                i as nat,
            ) + ", expected "@ + text::nat_text(i as nat) + ", got "@ + text::nat_text(
                sorted[i] as nat,
            ),
        ],
        None => Seq::empty(),
    }
}

/// What is wrong with the operation numbers of the first `n` clients.
pub open spec fn gap_issues(stats: Seq<(i32, ClientStats)>, n: int) -> Seq<Seq<char>>
    decreases n,
{
    if n <= 0 {
        Seq::empty()
    } else {
        gap_issues(stats, n - 1) + gap_issue(stats[n - 1].0, stats[n - 1].1.op_nums@)
    }
}

fn has_client(stats: &[(i32, ClientStats)], client: i32) -> (r: bool)
    ensures
        r == (exists|i: int|
            0 <= i < clients_in(stats@).len() && #[trigger] clients_in(stats@)[i] == client),
{
    let ghost clients = clients_in(stats@);
    let mut i: usize = 0;
    while i < stats.len()
        invariant
            i <= stats@.len(),
            clients == clients_in(stats@),
            forall|k: int| 0 <= k < i ==> #[trigger] clients[k] != client,
        decreases stats@.len() - i,
    {
        assert(clients[i as int] == stats@[i as int].0);
        if stats[i].0 == client {
            return true;
        }
        i = i + 1;
    }
    false
}

fn find_gap(sorted: &Vec<u64>) -> (r: Option<usize>)
    ensures
        match r {
            Some(i) => gap(sorted@, 0) == Some(i as int) && i < sorted@.len(),
            None => gap(sorted@, 0) is None,
        },
{
    let mut i: usize = 0;
    while i < sorted.len()
        invariant
            i <= sorted@.len(),
            gap(sorted@, 0) == gap(sorted@, i as int),
        decreases sorted@.len() - i,
    {
        if sorted[i] != i as u64 {
            return Some(i);
        }
        i = i + 1;
    }
    None
}

/// Whether every client logged, and numbered its operations from zero without a gap.
pub fn verify_log_completeness(stats: &[(i32, ClientStats)], client_count: i32) -> (r: (
    bool,
    String,
))
    ensures
        (r.0, r.1@) == ruling(
            silent(clients_in(stats@), 0, client_count as int) + gap_issues(
                stats@,
                stats@.len() as int,
            ),
            "All "@ + text::nat_text(stats@.len()) + " clients logged sequential operations"@,
        ),
{
    let ghost clients = clients_in(stats@);
    let ghost whole = silent(clients, 0, client_count as int);
    let mut issues: Vec<String> = Vec::new();
    assert(issue_texts(issues@) =~= Seq::<Seq<char>>::empty());
    let mut client: i32 = 0;
    assert(issue_texts(issues@) + whole =~= whole);
    while client < client_count
        invariant
            0 <= client,
            client <= client_count || client == 0,
            clients == clients_in(stats@),
            issue_texts(issues@) + silent(clients, client as int, client_count as int) == whole,
        decreases client_count - client,
    {
        let ghost before = issue_texts(issues@);
        if !has_client(stats, client) {
            add_issue(
                &mut issues,
                "Client ".to_owned().concat(signed_text(client as i64).as_str()).concat(
                    " has no log entries",
                ),
            );
            assert(issue_texts(issues@) + silent(clients, client + 1, client_count as int)
                =~= before + silent(clients, client as int, client_count as int));
        } else {
            assert(silent(clients, client as int, client_count as int) =~= silent(
                clients,
                client + 1,
                client_count as int,
            ));
        }
        client = client + 1;
    }
    assert(issue_texts(issues@) =~= whole);
    let mut i: usize = 0;
    assert(whole + gap_issues(stats@, 0) =~= whole);
    while i < stats.len()
        invariant
            i <= stats@.len(),
            issue_texts(issues@) == whole + gap_issues(stats@, i as int),
        decreases stats@.len() - i,
    {
        let sorted = sort_ops(&stats[i].1.op_nums);
        let ghost before = issue_texts(issues@);
        match find_gap(&sorted) {
            Some(k) => {
                let place = count_text(k);
                add_issue(
                    &mut issues,
                    "Client ".to_owned().concat(signed_text(stats[i].0 as i64).as_str()).concat(
                        ": op_num gap at index ",
                    ).concat(place.as_str()).concat(", expected ").concat(place.as_str()).concat(
                        ", got ",
                    ).concat(number_text(sorted[k]).as_str()),
                );
            },
            None => {},
        }
        assert(issue_texts(issues@) =~= whole + gap_issues(stats@, i as int + 1));
        i = i + 1;
    }
    let remark = "All ".to_owned().concat(count_text(stats.len()).as_str()).concat(
        " clients logged sequential operations",
    );
    rule(issues, remark)
}

// ---------------------------------------------------------------------------
// Timelines
// ---------------------------------------------------------------------------

/// What entries are put in order by.
#[derive(Debug, Clone, Copy, PartialEq, Eq, Structural)]
pub enum Key {
    /// The operation number.
    OpNum,
    /// The timestamp.
    At,
}

/// Which entries are put in order.
#[derive(Debug, Clone, Copy, PartialEq, Eq, Structural)]
pub enum Pick {
    /// Those of a client.
    Client(i32),
    /// The successful claims of leadership.
    Claims,
}

impl Key {
    /// The number an entry is put in order by.
    pub open spec fn of(self, e: Entry) -> u64 {
        match self {
            Key::OpNum => e.op_num,
            Key::At => e.at,
        }
    }

    fn read(self, e: &Entry) -> (r: u64)
        ensures
            r == self.of(*e),
    {
        match self {
            Key::OpNum => e.op_num,
            Key::At => e.at,
        }
    }
}

impl Pick {
    /// Whether an entry is put in order.
    pub open spec fn takes(self, e: Entry) -> bool {
        match self {
            Pick::Client(client) => e.client_id == client,
            Pick::Claims => e.claims(),
        }
    }

    fn wants(self, e: &Entry) -> (r: bool)
        ensures
            r == self.takes(*e),
    {
        match self {
            Pick::Client(client) => e.client_id == client,
            Pick::Claims => e.is_claim(),
        }
    }
}

/// Where an entry goes among the first `n` of an ordered sequence: behind
/// everything whose key is no larger.
pub open spec fn seat(ordered: Seq<Entry>, e: Entry, key: Key, n: int) -> int
    decreases n,
{
    if n <= 0 || key.of(ordered[n - 1]) <= key.of(e) {
        n
    } else {
        seat(ordered, e, key, n - 1)
    }
}

/// The picked ones of the first `n` entries in the order of their keys; entries of
/// the same key stay in the order of the log.
pub open spec fn ordered(entries: Seq<Entry>, pick: Pick, key: Key, n: int) -> Seq<Entry>
    decreases n,
{
    if n <= 0 {
        Seq::empty()
    } else {
        let before = ordered(entries, pick, key, n - 1);
        let e = entries[n - 1];
        if pick.takes(e) {
            before.insert(seat(before, e, key, before.len() as int), e)
        } else {
            before
        }
    }
}

proof fn seat_is_within(ordered: Seq<Entry>, e: Entry, key: Key, n: int)
    requires
        0 <= n <= ordered.len(),
    ensures
        0 <= seat(ordered, e, key, n) <= n,
        forall|i: int| seat(ordered, e, key, n) <= i < n ==> key.of(ordered[i]) > key.of(e),
        seat(ordered, e, key, n) > 0 ==> key.of(ordered[seat(ordered, e, key, n) - 1]) <= key.of(e),
    decreases n,
{
    if n > 0 && key.of(ordered[n - 1]) > key.of(e) {
        seat_is_within(ordered, e, key, n - 1);
    }
}

/// Putting entries in order orders them by their keys, and picks nothing else.
pub proof fn ordering_orders(entries: Seq<Entry>, pick: Pick, key: Key, n: int)
    requires
        0 <= n <= entries.len(),
    ensures
        forall|i: int, j: int|
            0 <= i <= j < ordered(entries, pick, key, n).len() ==> key.of(
                ordered(entries, pick, key, n)[i],
            ) <= key.of(ordered(entries, pick, key, n)[j]),
        forall|i: int|
            0 <= i < ordered(entries, pick, key, n).len() ==> pick.takes(
                #[trigger] ordered(entries, pick, key, n)[i],
            ),
        ordered(entries, pick, key, n).len() <= n,
    decreases n,
{
    if n > 0 {
        ordering_orders(entries, pick, key, n - 1);
        let before = ordered(entries, pick, key, n - 1);
        let e = entries[n - 1];
        if pick.takes(e) {
            let p = seat(before, e, key, before.len() as int);
            seat_is_within(before, e, key, before.len() as int);
            let after = ordered(entries, pick, key, n);
            assert(after == before.insert(p, e));
            assert forall|i: int, j: int| 0 <= i <= j < after.len() implies key.of(after[i])
                <= key.of(after[j]) by {
                if i < p && j > p {
                    assert(key.of(before[i]) <= key.of(before[j - 1]));
                } else if i > p {
                    assert(key.of(before[i - 1]) <= key.of(before[j - 1]));
                } else if i == p && j > p {
                    assert(key.of(before[j - 1]) > key.of(e));
                } else if i < p && j == p {
                    assert(key.of(before[i]) <= key.of(before[p - 1]));
                }
            }
            assert forall|i: int| 0 <= i < after.len() implies pick.takes(#[trigger] after[i]) by {
                if i < p {
                    assert(after[i] == before[i]);
                } else if i > p {
                    assert(after[i] == before[i - 1]);
                }
            }
        }
    }
}

/// The picked entries of a log in the order of their keys.
pub fn put_in_order(entries: &[Entry], pick: Pick, key: Key) -> (r: Vec<Entry>)
    ensures
        r@ == ordered(entries@, pick, key, entries@.len() as int),
{
    let mut r: Vec<Entry> = Vec::new();
    let mut i: usize = 0;
    while i < entries.len()
        invariant
            i <= entries@.len(),
            r@ == ordered(entries@, pick, key, i as int),
        decreases entries@.len() - i,
    {
        let e = entries[i];
        if pick.wants(&e) {
            let mut at: usize = r.len();
            while at > 0 && key.read(&r[at - 1]) > key.read(&e)
                invariant
                    at <= r@.len(),
                    seat(r@, e, key, r@.len() as int) == seat(r@, e, key, at as int),
                decreases at,
            {
                at = at - 1;
            }
            r.insert(at, e);
        }
        i = i + 1;
    }
    r
}

/// A client's clock that ran backwards: an operation, and the one before it.
#[derive(Debug, Clone, Copy, PartialEq, Eq, Structural)]
pub struct Regression {
    /// The operation with the earlier timestamp.
    pub entry: Entry,
    /// The one before it.
    pub before: Entry,
}

/// Where the first `n` entries of a timeline run backwards.
pub open spec fn regressions(timeline: Seq<Entry>, n: int) -> Seq<Regression>
    decreases n,
{
    if n <= 1 {
        Seq::empty()
    } else if timeline[n - 1].at < timeline[n - 2].at {
        regressions(timeline, n - 1).push(
            Regression { entry: timeline[n - 1], before: timeline[n - 2] },
        )
    } else {
        regressions(timeline, n - 1)
    }
}

/// A client's entries in the order of their numbers.
pub open spec fn timeline(entries: Seq<Entry>, client: i32) -> Seq<Entry> {
    ordered(entries, Pick::Client(client), Key::OpNum, entries.len() as int)
}

/// Where the first `n` clients' clocks ran backwards.
pub open spec fn all_regressions(entries: Seq<Entry>, clients: Seq<i32>, n: int) -> Seq<Regression>
    decreases n,
{
    if n <= 0 {
        Seq::empty()
    } else {
        let line = timeline(entries, clients[n - 1]);
        all_regressions(entries, clients, n - 1) + regressions(line, line.len() as int)
    }
}

/// Where the clocks of the clients ran backwards, client by client in the order of
/// their operations.
pub fn verify_timestamp_monotonicity(entries: &[Entry]) -> (r: Vec<Regression>)
    ensures
        r@ == all_regressions(
            entries@,
            log_clients(entries@),
            log_clients(entries@).len() as int,
        ),
{
    let clients = clients_of(entries);
    let mut r: Vec<Regression> = Vec::new();
    let mut c: usize = 0;
    while c < clients.len()
        invariant
            c <= clients@.len(),
            r@ == all_regressions(entries@, clients@, c as int),
        decreases clients@.len() - c,
    {
        let line = put_in_order(entries, Pick::Client(clients[c]), Key::OpNum);
        let ghost start = r@;
        let mut i: usize = 0;
        assert(start + regressions(line@, 0) =~= start);
        while i < line.len()
            invariant
                i <= line@.len(),
                r@ == start + regressions(line@, i as int),
            decreases line@.len() - i,
        {
            if i > 0 && line[i].at < line[i - 1].at {
                r.push(Regression { entry: line[i], before: line[i - 1] });
            }
            assert(r@ =~= start + regressions(line@, i as int + 1));
            i = i + 1;
        }
        c = c + 1;
    }
    r
}

// ---------------------------------------------------------------------------
// Overlapping leadership
// ---------------------------------------------------------------------------

/// Two clients that held leases at once: the earlier claim, and the later one.
#[derive(Debug, Clone, Copy, PartialEq, Eq, Structural)]
pub struct Overlap {
    /// The earlier claim.
    pub first: Entry,
    /// The later one.
    pub second: Entry,
}

/// Whether two claims overlap: different clients, and the later one begins before
/// the earlier one's lease ends.
pub open spec fn overlap(first: Entry, second: Entry) -> bool {
    first.client_id != second.client_id && second.at < first.lease_end
}

/// The claims among the first `n` that overlap claim `i` and come after it.
pub open spec fn overlaps_with(claims: Seq<Entry>, i: int, n: int) -> Seq<Overlap>
    decreases n - i,
{
    if n <= i + 1 {
        Seq::empty()
    } else if overlap(claims[i], claims[n - 1]) {
        overlaps_with(claims, i, n - 1).push(Overlap { first: claims[i], second: claims[n - 1] })
    } else {
        overlaps_with(claims, i, n - 1)
    }
}

/// The overlaps that the first `n` claims begin.
pub open spec fn overlaps(claims: Seq<Entry>, n: int) -> Seq<Overlap>
    decreases n,
{
    if n <= 0 {
        Seq::empty()
    } else {
        overlaps(claims, n - 1) + overlaps_with(claims, n - 1, claims.len() as int)
    }
}

/// The successful claims of a log in the order of their timestamps.
pub open spec fn claims_of(entries: Seq<Entry>) -> Seq<Entry> {
    ordered(entries, Pick::Claims, Key::At, entries.len() as int)
}

/// How many claims were looked at, and which of them overlap.
pub fn verify_no_overlapping_leadership(entries: &[Entry]) -> (r: (usize, Vec<Overlap>))
    ensures
        r.0 == claims_of(entries@).len(),
        r.1@ == overlaps(claims_of(entries@), claims_of(entries@).len() as int),
{
    let claims = put_in_order(entries, Pick::Claims, Key::At);
    let mut r: Vec<Overlap> = Vec::new();
    let mut i: usize = 0;
    while i < claims.len()
        invariant
            i <= claims@.len(),
            r@ == overlaps(claims@, i as int),
        decreases claims@.len() - i,
    {
        let ghost start = r@;
        assert(i < claims.len());
        let mut j: usize = i + 1;
        assert(start + overlaps_with(claims@, i as int, j as int) =~= start);
        while j < claims.len()
            invariant
                i < j <= claims@.len(),
                r@ == start + overlaps_with(claims@, i as int, j as int),
            decreases claims@.len() - j,
        {
            if claims[i].client_id != claims[j].client_id && claims[j].at < claims[i].lease_end {
                r.push(Overlap { first: claims[i], second: claims[j] });
            }
            assert(r@ =~= start + overlaps_with(claims@, i as int, j as int + 1));
            j = j + 1;
        }
        i = i + 1;
    }
    (claims.len(), r)
}

proof fn no_overlap_with_means_none(claims: Seq<Entry>, i: int, n: int)
    requires
        0 <= i,
        n <= claims.len(),
    ensures
        overlaps_with(claims, i, n).len() == 0 <==> forall|j: int|
            i < j < n ==> !overlap(claims[i], #[trigger] claims[j]),
    decreases n,
{
    if n > i + 1 {
        no_overlap_with_means_none(claims, i, n - 1);
        if overlap(claims[i], claims[n - 1]) {
            assert(!(forall|j: int| i < j < n ==> !overlap(claims[i], #[trigger] claims[j])));
        }
    }
}

/// No overlap is reported exactly where no two claims of different clients overlap.
pub proof fn no_report_means_no_overlap(claims: Seq<Entry>, n: int)
    requires
        0 <= n <= claims.len(),
    ensures
        overlaps(claims, n).len() == 0 <==> forall|i: int, j: int|
            0 <= i < n && i < j < claims.len() ==> !overlap(
                #[trigger] claims[i],
                #[trigger] claims[j],
            ),
    decreases n,
{
    if n > 0 {
        no_report_means_no_overlap(claims, n - 1);
        no_overlap_with_means_none(claims, n - 1, claims.len() as int);
        if overlaps(claims, n).len() == 0 {
            assert forall|i: int, j: int| 0 <= i < n && i < j < claims.len() implies !overlap(
                #[trigger] claims[i],
                #[trigger] claims[j],
            ) by {
                if i == n - 1 {
                    assert(!overlap(claims[n - 1], claims[j]));
                }
            }
        } else if overlaps(claims, n - 1).len() == 0 {
            let j = choose|j: int|
                n - 1 < j < claims.len() && overlap(claims[n - 1], #[trigger] claims[j]);
            assert(overlap(claims[n - 1], claims[j]));
        }
    }
}

// ---------------------------------------------------------------------------
// Ballots
// ---------------------------------------------------------------------------

/// How many claims of leadership a log holds.
pub open spec fn claims_counted(entries: Seq<Entry>) -> nat {
    count_where(entries, |e: Entry| e.claims(), entries.len() as int)
}

/// The number that the bits of an unsigned one stand for where they are read as signed.
pub open spec fn as_signed(n: int) -> int {
    if n < 0x8000_0000_0000_0000 {
        n
    } else {
        n - 0x1_0000_0000_0000_0000
    }
}

/// How far apart two ballots are, each read as a signed number.
pub open spec fn distance(expected: nat, actual: u64) -> nat {
    let d = as_signed(actual as int) - as_signed(expected as int);
    if d < 0 {
        -d as nat
    } else {
        d as nat
    }
}

/// Whether the ballot counts the successful claims: the log and the database, each
/// for itself, come to the same number.
pub open spec fn ballot_ruling(expected: nat, actual: u64) -> (bool, Seq<char>) {
    if expected == actual {
        (
            true,
            "Ballot conservation holds: expected="@ + text::nat_text(expected) + ", actual="@
                + text::nat_text(actual as nat),
        )
    } else {
        (
            false,
            "Ballot conservation VIOLATED: expected="@ + text::nat_text(expected) + ", actual="@
                + text::nat_text(actual as nat) + ", diff="@ + text::nat_text(
                distance(expected, actual),
            ),
        )
    }
}

fn count_claims(entries: &[Entry]) -> (r: usize)
    ensures
        r == claims_counted(entries@),
{
    let ghost p = |e: Entry| e.claims();
    let mut r: usize = 0;
    let mut i: usize = 0;
    while i < entries.len()
        invariant
            i <= entries@.len(),
            r <= i,
            p == (|e: Entry| e.claims()),
            r == count_where(entries@, p, i as int),
        decreases entries@.len() - i,
    {
        assert(i < entries.len());
        if entries[i].is_claim() {
            r = r + 1;
        }
        i = i + 1;
    }
    r
}

fn signed_distance(expected: u64, actual: u64) -> (r: u128)
    ensures
        r == distance(expected as nat, actual),
{
    let wanted: i128 = if expected < 0x8000_0000_0000_0000 {
        expected as i128
    } else {
        expected as i128 - 0x1_0000_0000_0000_0000
    };
    let held: i128 = if actual < 0x8000_0000_0000_0000 {
        actual as i128
    } else {
        actual as i128 - 0x1_0000_0000_0000_0000
    };
    if held < wanted {
        (wanted - held) as u128
    } else {
        (held - wanted) as u128
    }
}

/// Whether the ballot counts the successful claims. No leader means a ballot of zero.
pub fn verify_ballot_conservation(entries: &[Entry], ballot: Option<u64>) -> (r: (bool, String))
    ensures
        (r.0, r.1@) == ballot_ruling(
            claims_counted(entries@),
            match ballot {
                Some(ballot) => ballot,
                None => 0,
            },
        ),
{
    let expected: usize = count_claims(entries);
    let actual: u64 = match ballot {
        Some(ballot) => ballot,
        None => 0,
    };
    let counted: u128 = expected as u128;
    let held: u128 = actual as u128;
    if counted == held {
        (
            true,
            "Ballot conservation holds: expected=".to_owned().concat(
                count_text(expected).as_str(),
            ).concat(", actual=").concat(number_text(actual).as_str()),
        )
    } else {
        let diff: u128 = signed_distance(expected as u64, actual);
        (
            false,
            "Ballot conservation VIOLATED: expected=".to_owned().concat(
                count_text(expected).as_str(),
            ).concat(", actual=").concat(number_text(actual).as_str()).concat(", diff=").concat(
                wide_text(diff).as_str(),
            ),
        )
    }
}

// ---------------------------------------------------------------------------
// Candidates
// ---------------------------------------------------------------------------

/// A candidate, as the database lists it.
#[derive(Debug)]
pub struct Candidate {
    /// The process.
    pub process_id: String,
    /// The versionstamp it registered at.
    pub versionstamp: [u8; 12],
}

/// Whether a process is among the first `n` candidates.
pub open spec fn registered(candidates: Seq<Candidate>, process: Seq<char>, n: int) -> bool {
    exists|i: int| 0 <= i < n && (#[trigger] candidates[i]).process_id@ == process
}

/// The first candidate at or after `from` that is this process.
pub open spec fn candidate_at(candidates: Seq<Candidate>, process: Seq<char>, from: int) -> Option<
    int,
>
    decreases candidates.len() - from,
{
    if from < 0 || from >= candidates.len() {
        None
    } else if candidates[from].process_id@ == process {
        Some(from)
    } else {
        candidate_at(candidates, process, from + 1)
    }
}

fn find_candidate(candidates: &[Candidate], process: &str) -> (r: Option<usize>)
    ensures
        match r {
            Some(i) => candidate_at(candidates@, process@, 0) == Some(i as int) && i
                < candidates@.len() && registered(candidates@, process@, candidates@.len() as int),
            None => candidate_at(candidates@, process@, 0) is None && !registered(
                candidates@,
                process@,
                candidates@.len() as int,
            ),
        },
{
    let mut i: usize = 0;
    while i < candidates.len()
        invariant
            i <= candidates@.len(),
            candidate_at(candidates@, process@, 0) == candidate_at(candidates@, process@, i as int),
            forall|k: int| 0 <= k < i ==> (#[trigger] candidates@[k]).process_id@ != process@,
        decreases candidates@.len() - i,
    {
        if same_text(candidates[i].process_id.as_str(), process) {
            assert(candidates@[i as int].process_id@ == process@);
            return Some(i);
        }
        i = i + 1;
    }
    None
}

/// What is wrong with the first `n` clients: they sent heartbeats and are no
/// candidates.
pub open spec fn unregistered(
    stats: Seq<(i32, ClientStats)>,
    candidates: Seq<Candidate>,
    n: int,
) -> Seq<Seq<char>>
    decreases n,
{
    if n <= 0 {
        Seq::empty()
    } else {
        let (client, s) = stats[n - 1];
        let before = unregistered(stats, candidates, n - 1);
        if s.heartbeat_count > 0 && !registered(
            candidates,
            journal::leader_name(client),
            candidates.len() as int,
        ) {
            before.push(
                "Client "@ + text::int_text(client as int) + " sent "@ + text::nat_text(
                    s.heartbeat_count as nat,
                ) + " heartbeats but not in candidate list"@,
            )
        } else {
            before
        }
    }
}

/// Whether a versionstamp was never filled in.
pub open spec fn is_blank(stamp: [u8; 12]) -> bool {
    stamp@ == Seq::new(12, |i: int| 0u8)
}

/// What is wrong with the first `n` candidates: they have no versionstamp.
pub open spec fn unstamped(candidates: Seq<Candidate>, n: int) -> Seq<Seq<char>>
    decreases n,
{
    if n <= 0 {
        Seq::empty()
    } else {
        let before = unstamped(candidates, n - 1);
        if is_blank(candidates[n - 1].versionstamp) {
            before.push(
                "Candidate "@ + candidates[n - 1].process_id@ + " has zero versionstamp"@,
            )
        } else {
            before
        }
    }
}

fn same_stamp(a: &[u8; 12], b: &[u8; 12]) -> (r: bool)
    ensures
        r == (a@ == b@),
{
    let mut i: usize = 0;
    while i < 12
        invariant
            i <= 12,
            forall|j: int| 0 <= j < i ==> a@[j] == b@[j],
        decreases 12 - i,
    {
        if a[i] != b[i] {
            assert(a@[i as int] != b@[i as int]);
            return false;
        }
        i = i + 1;
    }
    assert(a@ =~= b@);
    true
}

/// Whether everybody who sent a heartbeat is a candidate, and every candidate has a
/// versionstamp.
pub fn verify_candidate_consistency(
    stats: &[(i32, ClientStats)],
    candidates: &[Candidate],
) -> (r: (bool, String))
    ensures
        (r.0, r.1@) == ruling(
            unregistered(stats@, candidates@, stats@.len() as int) + unstamped(
                candidates@,
                candidates@.len() as int,
            ),
            "All "@ + text::nat_text(candidates@.len()) + " candidates are consistent"@,
        ),
{
    let mut issues: Vec<String> = Vec::new();
    assert(issue_texts(issues@) =~= Seq::<Seq<char>>::empty());
    let mut i: usize = 0;
    while i < stats.len()
        invariant
            i <= stats@.len(),
            issue_texts(issues@) == unregistered(stats@, candidates@, i as int),
        decreases stats@.len() - i,
    {
        let client: i32 = stats[i].0;
        let beats: usize = stats[i].1.heartbeat_count;
        if beats > 0 && find_candidate(candidates, leader_id(client).as_str()).is_none() {
            add_issue(
                &mut issues,
                "Client ".to_owned().concat(signed_text(client as i64).as_str()).concat(
                    " sent ",
                ).concat(count_text(beats).as_str()).concat(
                    " heartbeats but not in candidate list",
                ),
            );
        }
        i = i + 1;
    }
    let ghost first = issue_texts(issues@);
    let blank: [u8; 12] = [0u8; 12];
    assert(blank@ =~= Seq::new(12, |i: int| 0u8));
    let mut j: usize = 0;
    assert(first + unstamped(candidates@, 0) =~= first);
    while j < candidates.len()
        invariant
            j <= candidates@.len(),
            blank@ == Seq::new(12, |i: int| 0u8),
            issue_texts(issues@) == first + unstamped(candidates@, j as int),
        decreases candidates@.len() - j,
    {
        if same_stamp(&candidates[j].versionstamp, &blank) {
            add_issue(
                &mut issues,
                "Candidate ".to_owned().concat(candidates[j].process_id.as_str()).concat(
                    " has zero versionstamp",
                ),
            );
        }
        assert(issue_texts(issues@) =~= first + unstamped(candidates@, j as int + 1));
        j = j + 1;
    }
    let remark = "All ".to_owned().concat(count_text(candidates.len()).as_str()).concat(
        " candidates are consistent",
    );
    rule(issues, remark)
}

/// Whether the leader is a candidate under the same versionstamp.
pub open spec fn leader_ruling(
    leader: Option<Candidate>,
    candidates: Seq<Candidate>,
) -> (bool, Seq<char>) {
    match leader {
        None => (true, "No leader to verify"@),
        Some(leader) => {
            let name = leader.process_id@;
            match candidate_at(candidates, name, 0) {
                None => (false, "Leader "@ + name + " is NOT in candidate list"@),
                Some(i) => if candidates[i].versionstamp@ == leader.versionstamp@ {
                    (
                        true,
                        "Leader "@ + name
                            + " is registered candidate with matching versionstamp"@,
                    )
                } else {
                    (
                        false,
                        "Leader "@ + name + " versionstamp mismatch: leader="@ + text::bytes_text(
                            leader.versionstamp@,
                        ) + ", candidate="@ + text::bytes_text(candidates[i].versionstamp@),
                    )
                },
            }
        },
    }
}

/// Whether the leader is a candidate under the same versionstamp.
pub fn verify_leader_is_candidate(leader: &Option<Candidate>, candidates: &[Candidate]) -> (r: (
    bool,
    String,
))
    ensures
        (r.0, r.1@) == leader_ruling(*leader, candidates@),
{
    match leader {
        None => (true, "No leader to verify".to_owned()),
        Some(leader) => {
            let name = leader.process_id.as_str();
            match find_candidate(candidates, name) {
                None => (
                    false,
                    "Leader ".to_owned().concat(name).concat(" is NOT in candidate list"),
                ),
                Some(i) => {
                    if same_stamp(&candidates[i].versionstamp, &leader.versionstamp) {
                        (
                            true,
                            "Leader ".to_owned().concat(name).concat(
                                " is registered candidate with matching versionstamp",
                            ),
                        )
                    } else {
                        (
                            false,
                            "Leader ".to_owned().concat(name).concat(
                                " versionstamp mismatch: leader=",
                            ).concat(byte_list(leader.versionstamp.as_slice()).as_str()).concat(
                                ", candidate=",
                            ).concat(
                                byte_list(candidates[i].versionstamp.as_slice()).as_str(),
                            ),
                        )
                    }
                },
            }
        },
    }
}

// ---------------------------------------------------------------------------
// Sequencing and errors
// ---------------------------------------------------------------------------

/// What is wrong with the first `n` clients' registrations.
pub open spec fn misregistered(stats: Seq<(i32, ClientStats)>, n: int) -> Seq<Seq<char>>
    decreases n,
{
    if n <= 0 {
        Seq::empty()
    } else {
        let (client, s) = stats[n - 1];
        let before = misregistered(stats, n - 1);
        if s.register_count != 1 {
            before.push(
                "Client "@ + text::int_text(client as int) + " has "@ + text::nat_text(
                    s.register_count as nat,
                ) + " registrations (expected 1)"@,
            )
        } else {
            before
        }
    }
}

/// The entry of a client with the lowest number among the first `n`; the first of
/// them where several have it.
pub open spec fn first_op(entries: Seq<Entry>, client: i32, n: int) -> Option<Entry>
    decreases n,
{
    if n <= 0 {
        None
    } else {
        let e = entries[n - 1];
        match first_op(entries, client, n - 1) {
            Some(before) if e.client_id != client || before.op_num <= e.op_num => Some(before),
            None if e.client_id != client => None,
            _ => Some(e),
        }
    }
}

/// What is wrong with the first `n` clients' first operations.
pub open spec fn misordered(entries: Seq<Entry>, clients: Seq<i32>, n: int) -> Seq<Seq<char>>
    decreases n,
{
    if n <= 0 {
        Seq::empty()
    } else {
        let client = clients[n - 1];
        let before = misordered(entries, clients, n - 1);
        match first_op(entries, client, entries.len() as int) {
            Some(e) if e.op_type != OP_REGISTER => before.push(
                "Client "@ + text::int_text(client as int) + ": first operation is "@ + op_word(
                    e.op_type,
                ) + " (op_num="@ + text::nat_text(e.op_num as nat) + "), not Register"@,
            ),
            _ => before,
        }
    }
}

fn find_first_op(entries: &[Entry], client: i32) -> (r: Option<Entry>)
    ensures
        r == first_op(entries@, client, entries@.len() as int),
{
    let mut r: Option<Entry> = None;
    let mut i: usize = 0;
    while i < entries.len()
        invariant
            i <= entries@.len(),
            r == first_op(entries@, client, i as int),
        decreases entries@.len() - i,
    {
        let e = entries[i];
        if e.client_id == client {
            let earlier = match r {
                Some(before) => e.op_num < before.op_num,
                None => true,
            };
            if earlier {
                r = Some(e);
            }
        }
        i = i + 1;
    }
    r
}

/// Whether every client registered exactly once, and first of all.
pub fn verify_operation_sequencing(entries: &[Entry], stats: &[(i32, ClientStats)]) -> (r: (
    bool,
    String,
))
    ensures
        (r.0, r.1@) == ruling(
            misregistered(stats@, stats@.len() as int) + misordered(
                entries@,
                log_clients(entries@),
                log_clients(entries@).len() as int,
            ),
            "All clients have correct operation sequencing"@,
        ),
{
    let clients = clients_of(entries);
    let mut issues: Vec<String> = Vec::new();
    assert(issue_texts(issues@) =~= Seq::<Seq<char>>::empty());
    let mut i: usize = 0;
    while i < stats.len()
        invariant
            i <= stats@.len(),
            issue_texts(issues@) == misregistered(stats@, i as int),
        decreases stats@.len() - i,
    {
        let registrations: usize = stats[i].1.register_count;
        if registrations != 1 {
            add_issue(
                &mut issues,
                "Client ".to_owned().concat(signed_text(stats[i].0 as i64).as_str()).concat(
                    " has ",
                ).concat(count_text(registrations).as_str()).concat(" registrations (expected 1)"),
            );
        }
        i = i + 1;
    }
    let ghost first = issue_texts(issues@);
    let mut j: usize = 0;
    assert(first + misordered(entries@, clients@, 0) =~= first);
    while j < clients.len()
        invariant
            j <= clients@.len(),
            issue_texts(issues@) == first + misordered(entries@, clients@, j as int),
        decreases clients@.len() - j,
    {
        let client: i32 = clients[j];
        match find_first_op(entries, client) {
            Some(e) => {
                if e.op_type != OP_REGISTER {
                    add_issue(
                        &mut issues,
                        "Client ".to_owned().concat(signed_text(client as i64).as_str()).concat(
                            ": first operation is ",
                        ).concat(op_name(e.op_type)).concat(" (op_num=").concat(
                            number_text(e.op_num).as_str(),
                        ).concat("), not Register"),
                    );
                }
            },
            None => {},
        }
        assert(issue_texts(issues@) =~= first + misordered(entries@, clients@, j as int + 1));
        j = j + 1;
    }
    rule(issues, "All clients have correct operation sequencing".to_owned())
}

/// Whether an entry is an operation at all.
pub open spec fn counts() -> spec_fn(Entry) -> bool {
    |e: Entry| OpType::coded(e.op_type) is Some
}

/// Whether an entry is an operation that failed.
pub open spec fn counts_as_error() -> spec_fn(Entry) -> bool {
    |e: Entry| OpType::coded(e.op_type) is Some && !e.success
}

/// The operations that the first `n` clients' statistics count.
pub open spec fn ops_total(stats: Seq<(i32, ClientStats)>, n: int) -> nat
    decreases n,
{
    if n <= 0 {
        0
    } else {
        let s = stats[n - 1].1;
        ops_total(stats, n - 1) + s.register_count as nat + s.heartbeat_count as nat
            + s.leadership_attempt_count as nat
    }
}

/// The failures that the first `n` clients' statistics count.
pub open spec fn errors_total(stats: Seq<(i32, ClientStats)>, n: int) -> nat
    decreases n,
{
    if n <= 0 {
        0
    } else {
        errors_total(stats, n - 1) + stats[n - 1].1.error_count as nat
    }
}

proof fn totals_grow(stats: Seq<(i32, ClientStats)>, n: int, m: int)
    requires
        n <= m,
    ensures
        ops_total(stats, n) <= ops_total(stats, m),
        errors_total(stats, n) <= errors_total(stats, m),
    decreases m - n,
{
    if n < m {
        totals_grow(stats, n, m - 1);
    }
}

/// The operations of all clients, and those of them that failed. None where one of the
/// two is more than a `usize` holds.
pub fn count_totals(stats: &[(i32, ClientStats)]) -> (r: Option<(usize, usize)>)
    ensures
        match r {
            Some((ops, errors)) => ops == ops_total(stats@, stats@.len() as int) && errors
                == errors_total(stats@, stats@.len() as int),
            None => ops_total(stats@, stats@.len() as int) > usize::MAX || errors_total(
                stats@,
                stats@.len() as int,
            ) > usize::MAX,
        },
{
    let mut ops: usize = 0;
    let mut errors: usize = 0;
    let mut i: usize = 0;
    while i < stats.len()
        invariant
            i <= stats@.len(),
            ops == ops_total(stats@, i as int),
            errors == errors_total(stats@, i as int),
        decreases stats@.len() - i,
    {
        proof {
            totals_grow(stats@, i as int + 1, stats@.len() as int);
        }
        let s = &stats[i].1;
        let more_ops: u128 = ops as u128 + s.register_count as u128 + s.heartbeat_count as u128
            + s.leadership_attempt_count as u128;
        let more_errors: u128 = errors as u128 + s.error_count as u128;
        if more_ops > usize::MAX as u128 || more_errors > usize::MAX as u128 {
            return None;
        }
        ops = more_ops as usize;
        errors = more_errors as usize;
        i = i + 1;
    }
    Some((ops, errors))
}

/// Whether the errors are few enough: at most one operation in ten failed, or there
/// was none at all.
pub fn within_error_rate(total_ops: usize, total_errors: usize) -> (r: bool)
    ensures
        r == (total_ops == 0 || total_errors * 10 <= total_ops),
{
    total_ops == 0 || total_errors <= total_ops / 10
}

// What one client adds to a count over the whole log.
spec fn within(client: i32, p: spec_fn(Entry) -> bool) -> spec_fn(Entry) -> bool {
    |e: Entry| e.client_id == client && p(e)
}

// What the first `k` clients add to a count over the first `n` entries.
spec fn shares(
    entries: Seq<Entry>,
    clients: Seq<i32>,
    p: spec_fn(Entry) -> bool,
    k: int,
    n: int,
) -> nat
    decreases k,
{
    if k <= 0 {
        0
    } else {
        shares(entries, clients, p, k - 1, n) + count_where(entries, within(clients[k - 1], p), n)
    }
}

proof fn an_entry_is_in_one_share(
    entries: Seq<Entry>,
    clients: Seq<i32>,
    p: spec_fn(Entry) -> bool,
    k: int,
    n: int,
)
    requires
        0 < n,
        0 <= k <= clients.len(),
        forall|i: int, j: int| 0 <= i < j < clients.len() ==> clients[i] < clients[j],
    ensures
        shares(entries, clients, p, k, n) == shares(entries, clients, p, k, n - 1) + if p(
            entries[n - 1],
        ) && clients.take(k).contains(entries[n - 1].client_id) {
            1nat
        } else {
            0
        },
    decreases k,
{
    let client = entries[n - 1].client_id;
    if k > 0 {
        an_entry_is_in_one_share(entries, clients, p, k - 1, n);
        let head = clients.take(k - 1);
        let all = clients.take(k);
        assert(all =~= head.push(clients[k - 1]));
        if clients[k - 1] == client {
            assert(!head.contains(client)) by {
                if head.contains(client) {
                    let i = choose|i: int| 0 <= i < head.len() && head[i] == client;
                    assert(clients[i] < clients[k - 1]);
                }
            }
            assert(all[k - 1] == client);
        } else if head.contains(client) {
            let i = choose|i: int| 0 <= i < head.len() && head[i] == client;
            assert(all[i] == client);
        } else if all.contains(client) {
            let i = choose|i: int| 0 <= i < all.len() && all[i] == client;
            assert(head[i] == client);
        }
    }
}

proof fn nothing_is_in_no_share(
    entries: Seq<Entry>,
    clients: Seq<i32>,
    p: spec_fn(Entry) -> bool,
    k: int,
)
    ensures
        shares(entries, clients, p, k, 0) == 0,
    decreases k,
{
    if k > 0 {
        nothing_is_in_no_share(entries, clients, p, k - 1);
    }
}

proof fn shares_make_the_whole(
    entries: Seq<Entry>,
    clients: Seq<i32>,
    p: spec_fn(Entry) -> bool,
    n: int,
)
    requires
        0 <= n,
        forall|i: int, j: int| 0 <= i < j < clients.len() ==> clients[i] < clients[j],
        forall|i: int| 0 <= i < n ==> clients.contains((#[trigger] entries[i]).client_id),
    ensures
        shares(entries, clients, p, clients.len() as int, n) == count_where(entries, p, n),
    decreases n,
{
    if n > 0 {
        shares_make_the_whole(entries, clients, p, n - 1);
        an_entry_is_in_one_share(entries, clients, p, clients.len() as int, n);
        assert(clients.take(clients.len() as int) =~= clients);
        assert(clients.contains(entries[n - 1].client_id));
    } else {
        nothing_is_in_no_share(entries, clients, p, clients.len() as int);
    }
}

proof fn kinds_make_the_operations(entries: Seq<Entry>, client: i32, n: int)
    ensures
        count_where(entries, does(client, OpType::Register), n) + count_where(
            entries,
            does(client, OpType::Heartbeat),
            n,
        ) + count_where(entries, does(client, OpType::TryBecomeLeader), n) == count_where(
            entries,
            within(client, counts()),
            n,
        ),
        count_where(entries, fails(client), n) == count_where(
            entries,
            within(client, counts_as_error()),
            n,
        ),
    decreases n,
{
    if n > 0 {
        kinds_make_the_operations(entries, client, n - 1);
    }
}

proof fn totals_are_shares(stats: Seq<(i32, ClientStats)>, entries: Seq<Entry>, k: int)
    requires
        0 <= k <= stats.len(),
        stats_cover(stats, entries),
    ensures
        ops_total(stats, k) == shares(
            entries,
            clients_in(stats),
            counts(),
            k,
            entries.len() as int,
        ),
        errors_total(stats, k) == shares(
            entries,
            clients_in(stats),
            counts_as_error(),
            k,
            entries.len() as int,
        ),
    decreases k,
{
    if k > 0 {
        totals_are_shares(stats, entries, k - 1);
        assert(stats[k - 1].1.sums_up(entries, stats[k - 1].0, entries.len() as int));
        kinds_make_the_operations(entries, stats[k - 1].0, entries.len() as int);
    }
}

/// What a log's statistics come to over all clients is what the log itself holds: every
/// operation, and every operation that failed, is counted once.
pub proof fn totals_are_those_of_the_log(stats: Seq<(i32, ClientStats)>, entries: Seq<Entry>)
    requires
        stats_cover(stats, entries),
    ensures
        ops_total(stats, stats.len() as int) == count_where(
            entries,
            counts(),
            entries.len() as int,
        ),
        errors_total(stats, stats.len() as int) == count_where(
            entries,
            counts_as_error(),
            entries.len() as int,
        ),
        errors_total(stats, stats.len() as int) <= ops_total(stats, stats.len() as int)
            <= entries.len(),
{
    let n = entries.len() as int;
    totals_are_shares(stats, entries, stats.len() as int);
    shares_make_the_whole(entries, clients_in(stats), counts(), n);
    shares_make_the_whole(entries, clients_in(stats), counts_as_error(), n);
    errors_are_operations(entries, n);
    count_is_bounded(entries, counts(), n);
}

proof fn errors_are_operations(entries: Seq<Entry>, n: int)
    requires
        n >= 0,
    ensures
        count_where(entries, counts_as_error(), n) <= count_where(entries, counts(), n),
    decreases n,
{
    if n > 0 {
        errors_are_operations(entries, n - 1);
    }
}

// ---------------------------------------------------------------------------
// The whole check
// ---------------------------------------------------------------------------

/// How one check came out.
#[derive(Debug)]
pub struct Outcome {
    /// The check's name.
    pub name: &'static str,
    /// Whether it passed.
    pub passed: bool,
    /// What it has to say.
    pub detail: String,
}

/// How many of the first `n` checks passed.
pub open spec fn passes(results: Seq<Outcome>, n: int) -> nat
    decreases n,
{
    if n <= 0 {
        0
    } else {
        passes(results, n - 1) + if results[n - 1].passed {
            1nat
        } else {
            0
        }
    }
}

/// The names of those of the first `n` checks that failed.
pub open spec fn failures(results: Seq<Outcome>, n: int) -> Seq<Seq<char>>
    decreases n,
{
    if n <= 0 {
        Seq::empty()
    } else if results[n - 1].passed {
        failures(results, n - 1)
    } else {
        failures(results, n - 1).push(results[n - 1].name@)
    }
}

/// How many checks passed, how many failed, and the names of those that failed.
pub fn summarize(results: &[Outcome]) -> (r: (usize, usize, Vec<&'static str>))
    ensures
        r.0 == passes(results@, results@.len() as int),
        r.0 + r.1 == results@.len(),
        crate::lease_oracle::names(r.2@) == failures(results@, results@.len() as int),
        r.1 == r.2@.len(),
{
    let mut passed: usize = 0;
    let mut failed: Vec<&'static str> = Vec::new();
    assert(crate::lease_oracle::names(failed@) =~= Seq::<Seq<char>>::empty());
    let mut i: usize = 0;
    while i < results.len()
        invariant
            i <= results@.len(),
            passed + failed@.len() == i,
            passed == passes(results@, i as int),
            crate::lease_oracle::names(failed@) == failures(results@, i as int),
        decreases results@.len() - i,
    {
        assert(i < results.len());
        if results[i].passed {
            passed = passed + 1;
        } else {
            let ghost before = failed@;
            failed.push(results[i].name);
            assert(crate::lease_oracle::names(failed@) =~= crate::lease_oracle::names(before).push(
                results@[i as int].name@,
            ));
        }
        i = i + 1;
    }
    let count: usize = failed.len();
    (passed, count, failed)
}

// ---------------------------------------------------------------------------
// The keys of the log
// ---------------------------------------------------------------------------

/// What packing a client and an operation number behind a prefix gives.
pub uninterp spec fn packed_candidate_key(prefix: Seq<u8>, client_id: i32, op_num: u64) -> Seq<u8>;

/// What unpacking a key behind a prefix gives: client and operation number, or the
/// text of the error.
pub uninterp spec fn unpacked_candidate_key(prefix: Seq<u8>, key: Seq<u8>) -> Result<(i32, u64), Seq<char>>;

/// Calls `Subspace::pack` on a client and an operation number. The contract names the
/// bytes and says that unpacking the key gives the two back. A `Subspace` counts its
/// prefix in a `u32`, and panics where that does not do.
#[verifier::external_body]
fn pack_candidate_key(prefix: &[u8], client_id: i32, op_num: u64) -> (r: Vec<u8>)
    requires
        prefix@.len() <= u32::MAX,
    ensures
        r@ == packed_candidate_key(prefix@, client_id, op_num),
        unpacked_candidate_key(prefix@, r@) is Ok && unpacked_candidate_key(prefix@, r@)->Ok_0 == (client_id, op_num),
{
    Subspace::from_bytes(prefix).pack(&(client_id, op_num))
}

/// Calls `Subspace::unpack` for a client and an operation number, and prints the error
/// with `Display` where there is one. The contract names the outcome, which is a
/// function of the prefix and the key alone. A `Subspace` counts its prefix in a `u32`,
/// and panics where that does not do.
#[verifier::external_body]
fn unpack_candidate_key(prefix: &[u8], key: &[u8]) -> (r: Result<(i32, u64), String>)
    requires
        prefix@.len() <= u32::MAX,
    ensures
        match r {
            Ok(f) => unpacked_candidate_key(prefix@, key@) is Ok && unpacked_candidate_key(prefix@, key@)->Ok_0 == f,
            Err(text) => unpacked_candidate_key(prefix@, key@) is Err && unpacked_candidate_key(prefix@, key@)->Err_0 == text@,
        },
{
    match Subspace::from_bytes(prefix).unpack::<(i32, u64)>(key) {
        Ok(fields) => Ok(fields),
        Err(e) => Err(format!("{e}")),
    }
}

/// The key an operation of a candidate is logged under.
pub fn candidate_key(space: &KeySpace, client_id: i32, op_num: u64) -> (r: Vec<u8>)
    requires
        space@.len() <= u32::MAX,
    ensures
        r@ == packed_candidate_key(space@, client_id, op_num),
        unpacked_candidate_key(space@, r@) is Ok && unpacked_candidate_key(space@, r@)->Ok_0 == (client_id, op_num),
{
    pack_candidate_key(space.prefix.as_slice(), client_id, op_num)
}

/// The client and the number of the operation logged under a key, or why it is none of
/// the log's.
pub fn decode_candidate_key(space: &KeySpace, key: &[u8]) -> (r: Result<(i32, u64), SchemaError>)
    requires
        space@.len() <= u32::MAX,
    ensures
        match r {
            Ok(f) => unpacked_candidate_key(space@, key@) is Ok && unpacked_candidate_key(space@, key@)->Ok_0 == f,
            Err(error) => unpacked_candidate_key(space@, key@) is Err && unpacked_candidate_key(space@, key@)->Err_0 == error.0@,
        },
{
    match unpack_candidate_key(space.prefix.as_slice(), key) {
        Ok(fields) => Ok(fields),
        Err(text) => Err(SchemaError(text)),
    }
}

// ---------------------------------------------------------------------------
// The script of a candidate
// ---------------------------------------------------------------------------

/// Which answer a candidate's script is waiting for.
#[derive(Debug, Clone, Copy, PartialEq, Eq, Structural)]
pub enum Place {
    /// How setting the election up went.
    Initialize,
    /// How registering went.
    Register,
    /// The versionstamp it registered at.
    ReadStamp,
    /// That the registration was logged.
    LogRegister,
    /// How a heartbeat went.
    Heartbeat,
    /// That the heartbeat was logged.
    LogHeartbeat,
    /// How an attempt to lead went.
    Claim,
    /// That the attempt was logged.
    LogClaim,
    /// Nothing: setting up is over.
    Ready,
    /// Nothing: the script is over.
    Done,
}

/// What a candidate does next.
#[derive(Debug, Clone, Copy, PartialEq, Eq)]
pub enum Step {
    /// Sets the election up.
    Initialize,
    /// Registers.
    Register,
    /// Reads the versionstamp it registered at.
    ReadStamp,
    /// Sends a heartbeat.
    Heartbeat,
    /// Tries to become the leader, under this versionstamp.
    Claim([u8; 12]),
    /// Logs an operation.
    Log {
        /// The operation.
        op: OpType,
        /// Its number.
        op_num: u64,
        /// Whether it succeeded.
        success: bool,
        /// Whether it made the candidate the leader.
        became_leader: bool,
    },
    /// Stops.
    Stop,
}

/// What came of a step.
#[derive(Debug, Clone, Copy, PartialEq, Eq)]
pub enum Answer {
    /// It worked.
    Done,
    /// The versionstamp that was read.
    Stamp([u8; 12]),
    /// The attempt led.
    Led,
    /// It failed.
    Failed,
}

/// A candidate, between two steps.
#[derive(Debug, Clone, Copy)]
pub struct CandidateScript {
    /// The client.
    pub client_id: i32,
    /// How many rounds are left.
    pub rounds_left: usize,
    /// The number of its next operation.
    pub op_num: u64,
    /// The versionstamp it registered at; all zeroes until it has read one.
    pub versionstamp: [u8; 12],
    /// Heartbeats that worked.
    pub heartbeat_count: u64,
    /// Attempts to lead.
    pub leadership_attempts: u64,
    /// Attempts that led.
    pub times_became_leader: u64,
    /// Heartbeats and attempts that failed.
    pub error_count: u64,
    /// The answer it is waiting for.
    pub place: Place,
}

/// The next number, as far as numbers go.
pub open spec fn after(n: u64) -> u64 {
    if n < u64::MAX {
        (n + 1) as u64
    } else {
        n
    }
}

fn next_number(n: u64) -> (r: u64)
    ensures
        r == after(n),
{
    if n < u64::MAX {
        n + 1
    } else {
        n
    }
}

/// A candidate that logs an operation.
pub open spec fn logging(
    c: CandidateScript,
    place: Place,
    op: OpType,
    success: bool,
    became_leader: bool,
) -> (CandidateScript, Step) {
    (
        CandidateScript { op_num: after(c.op_num), place, ..c },
        Step::Log { op, op_num: c.op_num, success, became_leader },
    )
}

/// A candidate that has a round left sends a heartbeat; any other stops.
pub open spec fn rounding(c: CandidateScript) -> (CandidateScript, Step) {
    if c.rounds_left > 0 {
        (
            CandidateScript {
                rounds_left: (c.rounds_left - 1) as usize,
                place: Place::Heartbeat,
                ..c
            },
            Step::Heartbeat,
        )
    } else {
        (CandidateScript { place: Place::Done, ..c }, Step::Stop)
    }
}

/// Whether an answer is a failure.
pub open spec fn is_failure(answer: Answer) -> bool {
    answer is Failed
}

/// What a candidate does, given what came of its last step. Setting up ends where the
/// registration is logged; every round after that is a heartbeat and an attempt to
/// lead, each logged whether it worked or not.
pub open spec fn scripted(c: CandidateScript, answer: Answer) -> (CandidateScript, Step) {
    let failed = is_failure(answer);
    match c.place {
        Place::Initialize => (
            CandidateScript { place: Place::Register, ..c },
            Step::Register,
        ),
        Place::Register => if failed {
            logging(c, Place::LogRegister, OpType::Register, false, false)
        } else {
            (CandidateScript { place: Place::ReadStamp, ..c }, Step::ReadStamp)
        },
        Place::ReadStamp => logging(
            match answer {
                Answer::Stamp(stamp) => CandidateScript { versionstamp: stamp, ..c },
                _ => c,
            },
            Place::LogRegister,
            OpType::Register,
            true,
            false,
        ),
        Place::LogRegister => (CandidateScript { place: Place::Ready, ..c }, Step::Stop),
        Place::Ready => rounding(c),
        Place::Heartbeat => logging(
            if failed {
                CandidateScript { error_count: after(c.error_count), ..c }
            } else {
                CandidateScript { heartbeat_count: after(c.heartbeat_count), ..c }
            },
            Place::LogHeartbeat,
            OpType::Heartbeat,
            !failed,
            false,
        ),
        Place::LogHeartbeat => (
            CandidateScript { place: Place::Claim, ..c },
            Step::Claim(c.versionstamp),
        ),
        Place::Claim => logging(
            CandidateScript {
                leadership_attempts: after(c.leadership_attempts),
                times_became_leader: if answer is Led {
                    after(c.times_became_leader)
                } else {
                    c.times_became_leader
                },
                error_count: if failed {
                    after(c.error_count)
                } else {
                    c.error_count
                },
                ..c
            },
            Place::LogClaim,
            OpType::TryBecomeLeader,
            !failed,
            answer is Led,
        ),
        Place::LogClaim => rounding(c),
        Place::Done => (c, Step::Stop),
    }
}

impl CandidateScript {
    /// A candidate before its first step, and that step: client 0 sets the election
    /// up, and everybody registers.
    pub fn begin(client_id: i32, operation_count: usize) -> (r: (CandidateScript, Step))
        ensures
            r.0.client_id == client_id,
            r.0.rounds_left == operation_count,
            r.0.op_num == 0,
            is_blank(r.0.versionstamp),
            r.0.heartbeat_count == 0,
            r.0.leadership_attempts == 0,
            r.0.times_became_leader == 0,
            r.0.error_count == 0,
            client_id == 0 ==> r.0.place == Place::Initialize && r.1 is Initialize,
            client_id != 0 ==> r.0.place == Place::Register && r.1 is Register,
    {
        let first = client_id == 0;
        let c = CandidateScript {
            client_id,
            rounds_left: operation_count,
            op_num: 0,
            versionstamp: [0u8; 12],
            heartbeat_count: 0,
            leadership_attempts: 0,
            times_became_leader: 0,
            error_count: 0,
            place: if first {
                Place::Initialize
            } else {
                Place::Register
            },
        };
        assert(c.versionstamp@ =~= Seq::new(12, |i: int| 0u8));
        (
            c,
            if first {
                Step::Initialize
            } else {
                Step::Register
            },
        )
    }

    fn log(
        self,
        place: Place,
        op: OpType,
        success: bool,
        became_leader: bool,
    ) -> (r: (CandidateScript, Step))
        ensures
            r == logging(self, place, op, success, became_leader),
    {
        let op_num: u64 = self.op_num;
        (
            CandidateScript { op_num: next_number(op_num), place, ..self },
            Step::Log { op, op_num, success, became_leader },
        )
    }

    fn next_round(self) -> (r: (CandidateScript, Step))
        ensures
            r == rounding(self),
    {
        if self.rounds_left > 0 {
            (
                CandidateScript {
                    rounds_left: self.rounds_left - 1,
                    place: Place::Heartbeat,
                    ..self
                },
                Step::Heartbeat,
            )
        } else {
            (CandidateScript { place: Place::Done, ..self }, Step::Stop)
        }
    }

    /// Tells the candidate what came of its last step; it answers with the next one.
    pub fn step(self, answer: Answer) -> (r: (CandidateScript, Step))
        ensures
            r == scripted(self, answer),
    {
        let failed = match answer {
            Answer::Failed => true,
            _ => false,
        };
        let led = match answer {
            Answer::Led => true,
            _ => false,
        };
        match self.place {
            Place::Initialize => (
                CandidateScript { place: Place::Register, ..self },
                Step::Register,
            ),
            Place::Register => {
                if failed {
                    self.log(Place::LogRegister, OpType::Register, false, false)
                } else {
                    (CandidateScript { place: Place::ReadStamp, ..self }, Step::ReadStamp)
                }
            },
            Place::ReadStamp => {
                let read = match answer {
                    Answer::Stamp(stamp) => CandidateScript { versionstamp: stamp, ..self },
                    _ => self,
                };
                read.log(Place::LogRegister, OpType::Register, true, false)
            },
            Place::LogRegister => (CandidateScript { place: Place::Ready, ..self }, Step::Stop),
            Place::Ready => self.next_round(),
            Place::Heartbeat => {
                let counted = if failed {
                    CandidateScript { error_count: next_number(self.error_count), ..self }
                } else {
                    CandidateScript {
                        heartbeat_count: next_number(self.heartbeat_count),
                        ..self
                    }
                };
                counted.log(Place::LogHeartbeat, OpType::Heartbeat, !failed, false)
            },
            Place::LogHeartbeat => (
                CandidateScript { place: Place::Claim, ..self },
                Step::Claim(self.versionstamp),
            ),
            Place::Claim => {
                let counted = CandidateScript {
                    leadership_attempts: next_number(self.leadership_attempts),
                    times_became_leader: if led {
                        next_number(self.times_became_leader)
                    } else {
                        self.times_became_leader
                    },
                    error_count: if failed {
                        next_number(self.error_count)
                    } else {
                        self.error_count
                    },
                    ..self
                };
                counted.log(Place::LogClaim, OpType::TryBecomeLeader, !failed, led)
            },
            Place::LogClaim => self.next_round(),
            Place::Done => (self, Step::Stop),
        }
    }
}

/// A candidate numbers what it logs from zero without a gap, and logs nothing else.
pub proof fn a_candidate_numbers_what_it_logs(c: CandidateScript, answer: Answer)
    requires
        c.op_num < u64::MAX,
    ensures
        match scripted(c, answer).1 {
            Step::Log { op_num, .. } => op_num == c.op_num && scripted(c, answer).0.op_num
                == c.op_num + 1,
            _ => scripted(c, answer).0.op_num == c.op_num,
        },
{
}

/// A candidate only ever reports leading where an attempt succeeded and led.
pub proof fn a_candidate_reports_honestly(c: CandidateScript, answer: Answer)
    ensures
        scripted(c, answer).1 matches Step::Log { op, success, became_leader, .. } ==> {
            &&& became_leader ==> op == OpType::TryBecomeLeader && success && answer is Led
            &&& !success ==> answer is Failed
        },
{
}

} // verus!
