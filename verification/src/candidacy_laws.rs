//! What the candidate checks find, in plain numbers.
//!
//! The checks of [`candidacy`](crate::candidacy) report texts. These laws say of the log's
//! own fields when there is something to report: client ids, operation numbers, instants.

use crate::candidacy;
use crate::candidacy::{
    Answer, Candidate, CandidateScript, ClientStats, Entry, Key, OpType, Outcome, Pick, Place, Step,
};
use crate::judgement_laws;
use crate::text;
use vstd::prelude::*;

verus! {

// ---------------------------------------------------------------------------
// Operations
// ---------------------------------------------------------------------------

/// Registrations are logged as zero, heartbeats as one, attempts to lead as two; no other
/// number stands for an operation.
pub proof fn operations_have_the_numbers_from_zero_to_two(val: i64)
    ensures
        OpType::coded(val) == Some(OpType::Register) <==> val == 0,
        OpType::coded(val) == Some(OpType::Heartbeat) <==> val == 1,
        OpType::coded(val) == Some(OpType::TryBecomeLeader) <==> val == 2,
        OpType::coded(val) is None <==> val < 0 || val > 2,
        OpType::Register.code() == 0,
        OpType::Heartbeat.code() == 1,
        OpType::TryBecomeLeader.code() == 2,
{
}

/// Every operation goes by the name of its kind, and what is none goes by none of those.
pub proof fn operations_go_by_their_names(val: i64)
    ensures
        val == 0 ==> candidacy::op_word(val) == "Register"@,
        val == 1 ==> candidacy::op_word(val) == "Heartbeat"@,
        val == 2 ==> candidacy::op_word(val) == "TryBecomeLeader"@,
        val < 0 || val > 2 ==> candidacy::op_word(val) == "Unknown"@,
{
}

/// An entry is a claim to lead where an attempt to lead went through and led.
pub proof fn a_claim_is_an_attempt_that_led(e: Entry)
    ensures
        e.claims() <==> e.op_type == 2 && e.success && e.became_leader,
{
}

// ---------------------------------------------------------------------------
// The clients of a log
// ---------------------------------------------------------------------------

proof fn put_in(before: Seq<i32>, client: i32) -> (r: Seq<i32>)
    requires
        forall|i: int, j: int| 0 <= i < j < before.len() ==> before[i] < before[j],
    ensures
        forall|i: int, j: int| 0 <= i < j < r.len() ==> r[i] < r[j],
        forall|c: i32| #[trigger] r.contains(c) <==> c == client || before.contains(c),
    decreases before.len(),
{
    if before.len() == 0 {
        let r = seq![client];
        assert(r[0] == client);
        r
    } else {
        let last = before.last();
        let front = before.drop_last();
        assert(before =~= front.push(last));
        if last < client {
            let r = before.push(client);
            assert(r[r.len() - 1] == client);
            assert forall|c: i32| #[trigger] r.contains(c) <==> c == client || before.contains(
                c,
            ) by {
                if before.contains(c) {
                    let k = choose|k: int| 0 <= k < before.len() && before[k] == c;
                    assert(r[k] == c);
                }
            }
            assert forall|i: int, j: int| 0 <= i < j < r.len() implies r[i] < r[j] by {
                if j == r.len() - 1 && i < before.len() - 1 {
                    assert(before[i] < before[before.len() - 1]);
                }
            }
            r
        } else if last == client {
            assert(before[before.len() - 1] == client);
            before
        } else {
            let under = put_in(front, client);
            let r = under.push(last);
            assert forall|c: i32| #[trigger] r.contains(c) <==> c == client || before.contains(
                c,
            ) by {
                if r.contains(c) {
                    let k = choose|k: int| 0 <= k < r.len() && r[k] == c;
                    if k < under.len() {
                        assert(under[k] == c);
                        assert(under.contains(c));
                        if front.contains(c) {
                            let m = choose|m: int| 0 <= m < front.len() && front[m] == c;
                            assert(before[m] == c);
                        }
                    } else {
                        assert(before[before.len() - 1] == c);
                    }
                }
                if c == client || front.contains(c) {
                    assert(under.contains(c));
                    let k = choose|k: int| 0 <= k < under.len() && under[k] == c;
                    assert(r[k] == c);
                }
                if before.contains(c) && !front.contains(c) {
                    let m = choose|m: int| 0 <= m < before.len() && before[m] == c;
                    if m < front.len() {
                        assert(front[m] == c);
                    }
                    assert(r[r.len() - 1] == c);
                }
            }
            assert forall|i: int, j: int| 0 <= i < j < r.len() implies r[i] < r[j] by {
                if j == r.len() - 1 {
                    assert(under.contains(under[i]));
                    if front.contains(under[i]) {
                        let m = choose|m: int| 0 <= m < front.len() && front[m] == under[i];
                        assert(before[m] < before[before.len() - 1]);
                    }
                }
            }
            r
        }
    }
}

proof fn some_listing(entries: Seq<Entry>, n: int) -> (r: Seq<i32>)
    requires
        0 <= n <= entries.len(),
    ensures
        candidacy::lists_clients(r, entries, n),
    decreases n,
{
    if n == 0 {
        Seq::empty()
    } else {
        let before = some_listing(entries, n - 1);
        let client = entries[n - 1].client_id;
        let r = put_in(before, client);
        assert forall|k: int| 0 <= k < r.len() implies candidacy::logged(
            entries,
            #[trigger] r[k],
            n,
        ) by {
            assert(r.contains(r[k]));
            if before.contains(r[k]) {
                let m = choose|m: int| 0 <= m < before.len() && before[m] == r[k];
                assert(candidacy::logged(entries, before[m], n - 1));
                let w = choose|w: int|
                    0 <= w < n - 1 && (#[trigger] entries[w]).client_id == before[m];
                assert(entries[w].client_id == r[k]);
            } else {
                assert(entries[n - 1].client_id == r[k]);
            }
        }
        assert forall|k: int| 0 <= k < n implies r.contains((#[trigger] entries[k]).client_id) by {
            if k < n - 1 {
                assert(before.contains(entries[k].client_id));
            }
        }
        r
    }
}

/// Whether some entry of a log is a client's.
pub open spec fn named(entries: Seq<Entry>, client: i32) -> bool {
    exists|k: int| 0 <= k < entries.len() && (#[trigger] entries[k]).client_id == client
}

/// The clients of a log are those that some entry names, each once and in rising order.
pub proof fn the_clients_are_those_the_entries_name(entries: Seq<Entry>)
    ensures
        forall|i: int, j: int|
            0 <= i < j < candidacy::log_clients(entries).len() ==> candidacy::log_clients(
                entries,
            )[i] < candidacy::log_clients(entries)[j],
        forall|client: i32| #[trigger]
            candidacy::log_clients(entries).contains(client) <==> named(entries, client),
{
    let some = some_listing(entries, entries.len() as int);
    let clients = candidacy::log_clients(entries);
    assert(candidacy::lists_clients(clients, entries, entries.len() as int));
    assert forall|client: i32| #[trigger] clients.contains(client) <==> named(entries, client) by {
        if clients.contains(client) {
            let i = choose|i: int| 0 <= i < clients.len() && clients[i] == client;
            assert(candidacy::logged(entries, clients[i], entries.len() as int));
        }
        if named(entries, client) {
            let k = choose|k: int|
                0 <= k < entries.len() && (#[trigger] entries[k]).client_id == client;
            assert(clients.contains(entries[k].client_id));
        }
    }
}

// ---------------------------------------------------------------------------
// Sequencing
// ---------------------------------------------------------------------------

/// Whether an entry is its client's first: nothing of that client has a lower number, and
/// nothing logged before it has the same one.
pub open spec fn comes_first(entries: Seq<Entry>, k: int) -> bool {
    forall|j: int|
        0 <= j < entries.len() && (#[trigger] entries[j]).client_id == entries[k].client_id
            ==> entries[k].op_num < entries[j].op_num || (entries[k].op_num == entries[j].op_num
            && k <= j)
}

/// Whether every client registered exactly once, and every client's first entry is its
/// registration.
pub open spec fn registers_once_and_first(
    stats: Seq<(i32, ClientStats)>,
    entries: Seq<Entry>,
) -> bool {
    &&& forall|i: int| 0 <= i < stats.len() ==> (#[trigger] stats[i]).1.register_count == 1
    &&& forall|k: int|
        0 <= k < entries.len() && #[trigger] comes_first(entries, k) ==> entries[k].op_type == 0
}

proof fn the_first_entry_is_found(entries: Seq<Entry>, client: i32, n: int)
    requires
        0 <= n <= entries.len(),
    ensures
        match candidacy::first_op(entries, client, n) {
            Some(e) => exists|k: int|
                0 <= k < n && #[trigger] entries[k] == e && e.client_id == client && forall|j: int|
                    0 <= j < n && (#[trigger] entries[j]).client_id == client ==> e.op_num
                        < entries[j].op_num || (e.op_num == entries[j].op_num && k <= j),
            None => forall|j: int| 0 <= j < n ==> (#[trigger] entries[j]).client_id != client,
        },
    decreases n,
{
    if n > 0 {
        the_first_entry_is_found(entries, client, n - 1);
        if let Some(e) = candidacy::first_op(entries, client, n - 1) {
            let k = choose|k: int|
                0 <= k < n - 1 && #[trigger] entries[k] == e && e.client_id == client
                    && forall|j: int|
                    0 <= j < n - 1 && (#[trigger] entries[j]).client_id == client ==> e.op_num
                        < entries[j].op_num || (e.op_num == entries[j].op_num && k <= j);
            assert(entries[k] == e);
            assert(candidacy::first_op(entries, client, n) == Some(e) || candidacy::first_op(
                entries,
                client,
                n,
            ) == Some(entries[n - 1]));
        } else {
            assert(entries[n - 1] == entries[n - 1]);
        }
    }
}

proof fn the_first_entry_comes_first(entries: Seq<Entry>, k: int)
    requires
        0 <= k < entries.len(),
        comes_first(entries, k),
    ensures
        candidacy::first_op(entries, entries[k].client_id, entries.len() as int) == Some(
            entries[k],
        ),
{
    let client = entries[k].client_id;
    let whole = entries.len() as int;
    the_first_entry_is_found(entries, client, whole);
    assert(entries[k].client_id == client);
    if let Some(e) = candidacy::first_op(entries, client, whole) {
        let w = choose|w: int|
            0 <= w < whole && #[trigger] entries[w] == e && e.client_id == client && forall|j: int|
                0 <= j < whole && (#[trigger] entries[j]).client_id == client ==> e.op_num
                    < entries[j].op_num || (e.op_num == entries[j].op_num && w <= j);
        assert(entries[w].client_id == client);
        assert(w == k);
    }
}

proof fn what_is_found_comes_first(entries: Seq<Entry>, client: i32)
    ensures
        candidacy::first_op(entries, client, entries.len() as int) matches Some(e) ==> exists|
            k: int,
        |
            0 <= k < entries.len() && entries[k] == e && #[trigger] comes_first(entries, k),
{
    let whole = entries.len() as int;
    the_first_entry_is_found(entries, client, whole);
    if let Some(e) = candidacy::first_op(entries, client, whole) {
        let k = choose|k: int|
            0 <= k < whole && #[trigger] entries[k] == e && e.client_id == client && forall|j: int|
                0 <= j < whole && (#[trigger] entries[j]).client_id == client ==> e.op_num
                    < entries[j].op_num || (e.op_num == entries[j].op_num && k <= j);
        assert(comes_first(entries, k));
    }
}

proof fn nothing_misregistered(stats: Seq<(i32, ClientStats)>, n: int)
    requires
        0 <= n <= stats.len(),
    ensures
        candidacy::misregistered(stats, n).len() == 0 <==> forall|i: int|
            0 <= i < n ==> (#[trigger] stats[i]).1.register_count == 1,
    decreases n,
{
    if n > 0 {
        nothing_misregistered(stats, n - 1);
        if forall|i: int| 0 <= i < n ==> (#[trigger] stats[i]).1.register_count == 1 {
            assert(stats[n - 1].1.register_count == 1);
        }
    }
}

proof fn nothing_misordered(entries: Seq<Entry>, clients: Seq<i32>, n: int)
    requires
        0 <= n <= clients.len(),
    ensures
        candidacy::misordered(entries, clients, n).len() == 0 <==> forall|i: int|
            0 <= i < n ==> match candidacy::first_op(
                entries,
                #[trigger] clients[i],
                entries.len() as int,
            ) {
                Some(e) => e.op_type == 0,
                None => true,
            },
    decreases n,
{
    if n > 0 {
        nothing_misordered(entries, clients, n - 1);
    }
}

/// The sequencing check passes exactly when every client of the statistics has registered
/// exactly once and, for every client of the log, the entry with its lowest number (the
/// first logged of them, where two share it) is a registration.
pub proof fn sequencing_passes_when_each_client_registers_once_and_first(
    stats: Seq<(i32, ClientStats)>,
    entries: Seq<Entry>,
    remark: Seq<char>,
)
    ensures
        candidacy::ruling(
            candidacy::misregistered(stats, stats.len() as int) + candidacy::misordered(
                entries,
                candidacy::log_clients(entries),
                candidacy::log_clients(entries).len() as int,
            ),
            remark,
        ).0 <==> registers_once_and_first(stats, entries),
{
    let clients = candidacy::log_clients(entries);
    let whole = entries.len() as int;
    nothing_misregistered(stats, stats.len() as int);
    nothing_misordered(entries, clients, clients.len() as int);
    the_clients_are_those_the_entries_name(entries);
    if candidacy::misordered(entries, clients, clients.len() as int).len() == 0 {
        assert forall|k: int| 0 <= k < whole && #[trigger] comes_first(
            entries,
            k,
        ) implies entries[k].op_type == 0 by {
            assert(named(entries, entries[k].client_id));
            assert(clients.contains(entries[k].client_id));
            let i = choose|i: int| 0 <= i < clients.len() && clients[i] == entries[k].client_id;
            the_first_entry_comes_first(entries, k);
            assert(candidacy::first_op(entries, clients[i], whole) == Some(entries[k]));
        }
    }
    if registers_once_and_first(stats, entries) {
        assert forall|i: int| 0 <= i < clients.len() implies match candidacy::first_op(
            entries,
            #[trigger] clients[i],
            whole,
        ) {
            Some(e) => e.op_type == 0,
            None => true,
        } by {
            what_is_found_comes_first(entries, clients[i]);
        }
    }
}

// ---------------------------------------------------------------------------
// Completeness
// ---------------------------------------------------------------------------

/// The numbers from zero up, as many as asked for.
pub open spec fn from_zero(n: nat) -> Seq<u64> {
    Seq::new(n, |i: int| i as u64)
}

proof fn no_gap(sorted: Seq<u64>, from: int)
    requires
        0 <= from <= sorted.len(),
    ensures
        candidacy::gap(sorted, from) is None <==> forall|i: int|
            from <= i < sorted.len() ==> #[trigger] sorted[i] == i,
    decreases sorted.len() - from,
{
    if from < sorted.len() {
        no_gap(sorted, from + 1);
    }
}

/// Where a gap is reported, everything below it is in its place and what stands there is
/// not.
pub proof fn a_gap_is_the_first_number_out_of_place(sorted: Seq<u64>, from: int)
    requires
        0 <= from <= sorted.len(),
    ensures
        candidacy::gap(sorted, from) matches Some(g) ==> from <= g < sorted.len() && sorted[g] != g
            && forall|i: int| from <= i < g ==> #[trigger] sorted[i] == i,
    decreases sorted.len() - from,
{
    if from < sorted.len() {
        a_gap_is_the_first_number_out_of_place(sorted, from + 1);
    }
}

proof fn sorting_leaves_no_gap(client: i32, ops: Seq<u64>)
    requires
        ops.len() <= u64::MAX,
    ensures
        candidacy::gap_issue(client, ops).len() == 0 <==> ops.to_multiset() == from_zero(
            ops.len(),
        ).to_multiset(),
{
    let sorted = candidacy::sorted_ops(ops, ops.len() as int);
    candidacy::sorting_sorts(ops, ops.len() as int);
    assert(ops.take(ops.len() as int) =~= ops);
    no_gap(sorted, 0);
    let up = from_zero(ops.len());
    if candidacy::gap(sorted, 0) is None {
        assert(sorted =~= up);
    }
    if ops.to_multiset() == up.to_multiset() {
        let leq = |a: u64, b: u64| a <= b;
        vstd::seq_lib::lemma_sorted_unique(sorted, up, leq);
        assert forall|i: int| 0 <= i < sorted.len() implies #[trigger] sorted[i] == i by {
            assert(sorted[i] == up[i]);
        }
    }
}

proof fn every_client_speaks(clients: Seq<i32>, client: int, count: int)
    ensures
        candidacy::silent(clients, client, count).len() == 0 <==> forall|c: int|
            client <= c < count ==> #[trigger] spoken(clients, c),
    decreases count - client,
{
    if client < count {
        every_client_speaks(clients, client + 1, count);
        if forall|c: int| client <= c < count ==> #[trigger] spoken(clients, c) {
            assert(spoken(clients, client));
        }
        if candidacy::silent(clients, client, count).len() == 0 {
            assert(spoken(clients, client));
        }
    }
}

/// Whether there are statistics of a client.
pub open spec fn has_stats(stats: Seq<(i32, ClientStats)>, client: int) -> bool {
    exists|i: int| 0 <= i < stats.len() && (#[trigger] stats[i]).0 == client
}

/// Whether a list of clients holds one.
pub open spec fn spoken(clients: Seq<i32>, client: int) -> bool {
    exists|i: int| 0 <= i < clients.len() && #[trigger] clients[i] == client
}

proof fn no_gap_issues(stats: Seq<(i32, ClientStats)>, n: int)
    requires
        0 <= n <= stats.len(),
    ensures
        candidacy::gap_issues(stats, n).len() == 0 <==> forall|i: int|
            0 <= i < n ==> (#[trigger] stats[i]).1.op_nums@.to_multiset() == from_zero(
                stats[i].1.op_nums@.len(),
            ).to_multiset(),
    decreases n,
{
    if n > 0 {
        no_gap_issues(stats, n - 1);
        assert(stats[n - 1].1.op_nums.len() <= usize::MAX);
        sorting_leaves_no_gap(stats[n - 1].0, stats[n - 1].1.op_nums@);
    }
}

/// The completeness check passes exactly when every client below the count has statistics,
/// and every client's operation numbers are those from zero up, each once, in whatever
/// order.
pub proof fn a_complete_log_has_every_client_and_every_number(
    stats: Seq<(i32, ClientStats)>,
    count: int,
    remark: Seq<char>,
)
    ensures
        candidacy::ruling(
            candidacy::silent(candidacy::clients_in(stats), 0, count) + candidacy::gap_issues(
                stats,
                stats.len() as int,
            ),
            remark,
        ).0 <==> {
            &&& forall|c: int|
                0 <= c < count ==> #[trigger] has_stats(stats, c)
            &&& forall|i: int|
                0 <= i < stats.len() ==> (#[trigger] stats[i]).1.op_nums@.to_multiset()
                    == from_zero(stats[i].1.op_nums@.len()).to_multiset()
        },
{
    every_client_speaks(candidacy::clients_in(stats), 0, count);
    no_gap_issues(stats, stats.len() as int);
    let clients = candidacy::clients_in(stats);
    assert forall|c: int| spoken(clients, c) <==> #[trigger] has_stats(stats, c) by {
        if has_stats(stats, c) {
            let i = choose|i: int| 0 <= i < stats.len() && (#[trigger] stats[i]).0 == c;
            assert(clients[i] == c);
        }
        if spoken(clients, c) {
            let i = choose|i: int| 0 <= i < clients.len() && #[trigger] clients[i] == c;
            assert(stats[i].0 == c);
        }
    }
    assert forall|c: int| #[trigger] spoken(clients, c) <==> has_stats(stats, c) by {
        assert(has_stats(stats, c) <==> spoken(clients, c));
    }
}

// ---------------------------------------------------------------------------
// Statistics
// ---------------------------------------------------------------------------

/// At which entries something holds.
pub open spec fn at_entries(entries: Seq<Entry>, p: spec_fn(Entry) -> bool) -> spec_fn(int) -> bool {
    |k: int| p(entries[k])
}

/// A count is the number of places at which what is counted holds.
pub proof fn a_count_is_a_number_of_places(entries: Seq<Entry>, p: spec_fn(Entry) -> bool, n: int)
    ensures
        candidacy::count_where(entries, p, n) == judgement_laws::places(
            at_entries(entries, p),
            n,
        ).len(),
    decreases n,
{
    if n > 0 {
        a_count_is_a_number_of_places(entries, p, n - 1);
        judgement_laws::places_grow_by_one(at_entries(entries, p), n);
    } else {
        judgement_laws::places_are_finite(at_entries(entries, p), n);
    }
}

/// What a client's statistics count: registrations, heartbeats and attempts to lead by
/// their numbers in the log, the attempts that led, and what failed of any of these.
pub proof fn statistics_count_a_clients_operations(client: i32, e: Entry)
    ensures
        candidacy::does(client, OpType::Register)(e) <==> e.client_id == client && e.op_type == 0,
        candidacy::does(client, OpType::Heartbeat)(e) <==> e.client_id == client && e.op_type == 1,
        candidacy::does(client, OpType::TryBecomeLeader)(e) <==> e.client_id == client && e.op_type
            == 2,
        candidacy::wins(client)(e) <==> e.client_id == client && e.op_type == 2 && e.became_leader,
        candidacy::fails(client)(e) <==> e.client_id == client && 0 <= e.op_type <= 2 && !e.success,
        candidacy::leads()(e) <==> e.became_leader,
        candidacy::counts()(e) <==> 0 <= e.op_type <= 2,
        candidacy::counts_as_error()(e) <==> 0 <= e.op_type <= 2 && !e.success,
{
}

/// A client's statistics hold, field by field, how often it did what, in places of the log.
pub proof fn statistics_are_those_of_the_log(s: ClientStats, entries: Seq<Entry>, client: i32, n: int)
    requires
        s.sums_up(entries, client, n),
    ensures
        s.register_count == judgement_laws::places(
            |k: int| entries[k].client_id == client && entries[k].op_type == 0,
            n,
        ).len(),
        s.heartbeat_count == judgement_laws::places(
            |k: int| entries[k].client_id == client && entries[k].op_type == 1,
            n,
        ).len(),
        s.leadership_attempt_count == judgement_laws::places(
            |k: int| entries[k].client_id == client && entries[k].op_type == 2,
            n,
        ).len(),
        s.leadership_success_count == judgement_laws::places(
            |k: int|
                entries[k].client_id == client && entries[k].op_type == 2
                    && entries[k].became_leader,
            n,
        ).len(),
        s.error_count == judgement_laws::places(
            |k: int|
                entries[k].client_id == client && 0 <= entries[k].op_type <= 2
                    && !entries[k].success,
            n,
        ).len(),
{
    a_count_is_a_number_of_places(entries, candidacy::does(client, OpType::Register), n);
    a_count_is_a_number_of_places(entries, candidacy::does(client, OpType::Heartbeat), n);
    a_count_is_a_number_of_places(entries, candidacy::does(client, OpType::TryBecomeLeader), n);
    a_count_is_a_number_of_places(entries, candidacy::wins(client), n);
    a_count_is_a_number_of_places(entries, candidacy::fails(client), n);
    assert(at_entries(entries, candidacy::does(client, OpType::Register)) =~= (|k: int|
        entries[k].client_id == client && entries[k].op_type == 0));
    assert(at_entries(entries, candidacy::does(client, OpType::Heartbeat)) =~= (|k: int|
        entries[k].client_id == client && entries[k].op_type == 1));
    assert(at_entries(entries, candidacy::does(client, OpType::TryBecomeLeader)) =~= (|k: int|
        entries[k].client_id == client && entries[k].op_type == 2));
    assert(at_entries(entries, candidacy::wins(client)) =~= (|k: int|
        entries[k].client_id == client && entries[k].op_type == 2 && entries[k].became_leader));
    assert(at_entries(entries, candidacy::fails(client)) =~= (|k: int|
        entries[k].client_id == client && 0 <= entries[k].op_type <= 2 && !entries[k].success));
}

/// A client's first and last instants are those of entries of its own, and no entry of its
/// own lies outside them; without an entry there are none.
pub proof fn the_first_and_last_instants_span_a_clients_entries(
    entries: Seq<Entry>,
    client: i32,
    n: int,
)
    requires
        0 <= n <= entries.len(),
    ensures
        match candidacy::earliest(entries, client, n) {
            Some(at) => {
                &&& exists|k: int|
                    0 <= k < n && (#[trigger] entries[k]).client_id == client && entries[k].at == at
                &&& forall|k: int|
                    0 <= k < n && (#[trigger] entries[k]).client_id == client ==> at
                        <= entries[k].at
            },
            None => forall|k: int| 0 <= k < n ==> (#[trigger] entries[k]).client_id != client,
        },
        match candidacy::latest(entries, client, n) {
            Some(at) => {
                &&& exists|k: int|
                    0 <= k < n && (#[trigger] entries[k]).client_id == client && entries[k].at == at
                &&& forall|k: int|
                    0 <= k < n && (#[trigger] entries[k]).client_id == client ==> entries[k].at
                        <= at
            },
            None => forall|k: int| 0 <= k < n ==> (#[trigger] entries[k]).client_id != client,
        },
    decreases n,
{
    if n > 0 {
        the_first_and_last_instants_span_a_clients_entries(entries, client, n - 1);
        assert(entries[n - 1] == entries[n - 1]);
    }
}

/// A client's operation numbers are those of its own entries, in the order of the log: one
/// entry more adds its number at the end where it is the client's, and nothing otherwise.
pub proof fn the_numbers_are_those_of_the_clients_entries(entries: Seq<Entry>, client: i32, n: int)
    requires
        0 <= n <= entries.len(),
    ensures
        candidacy::ops_of(entries, client, n).len() == judgement_laws::places(
            |k: int| entries[k].client_id == client,
            n,
        ).len(),
        forall|k: int|
            0 <= k < n && (#[trigger] entries[k]).client_id == client ==> candidacy::ops_of(
                entries,
                client,
                n,
            )[judgement_laws::places(|m: int| entries[m].client_id == client, k).len() as int]
                == entries[k].op_num,
    decreases n,
{
    let own = |k: int| entries[k].client_id == client;
    judgement_laws::places_are_finite(own, n);
    if n > 0 {
        the_numbers_are_those_of_the_clients_entries(entries, client, n - 1);
        judgement_laws::places_grow_by_one(own, n);
        let before = candidacy::ops_of(entries, client, n - 1);
        assert forall|k: int|
            0 <= k < n && (#[trigger] entries[k]).client_id == client implies candidacy::ops_of(
            entries,
            client,
            n,
        )[judgement_laws::places(|m: int| entries[m].client_id == client, k).len() as int]
            == entries[k].op_num by {
            assert((|m: int| entries[m].client_id == client) =~= own);
            if k < n - 1 {
                fewer_places_before(own, k, n - 1);
            }
        }
    }
    assert((|k: int| entries[k].client_id == client) =~= own);
}

proof fn fewer_places_before(holds: spec_fn(int) -> bool, k: int, n: int)
    requires
        0 <= k < n,
        holds(k),
    ensures
        judgement_laws::places(holds, k).len() < judgement_laws::places(holds, n).len(),
    decreases n,
{
    judgement_laws::places_grow_by_one(holds, n);
    if k < n - 1 {
        fewer_places_before(holds, k, n - 1);
    }
}

// ---------------------------------------------------------------------------
// Order
// ---------------------------------------------------------------------------

/// Whether of two picked entries the one at `i` goes in front: its key is lower, or they
/// share it and it was logged first.
pub open spec fn goes_first(entries: Seq<Entry>, key: Key, i: int, j: int) -> bool {
    key.of(entries[i]) < key.of(entries[j]) || (key.of(entries[i]) == key.of(entries[j]) && i < j)
}

/// Whether two entries stand in an ordered list, the one in front of the other.
pub open spec fn in_front(list: Seq<Entry>, first: Entry, second: Entry) -> bool {
    exists|p: int, q: int|
        0 <= p < q < list.len() && #[trigger] list[p] == first && #[trigger] list[q] == second
}

proof fn a_seat_divides(list: Seq<Entry>, e: Entry, key: Key, n: int)
    requires
        0 <= n <= list.len(),
        forall|i: int, j: int| 0 <= i <= j < list.len() ==> key.of(list[i]) <= key.of(list[j]),
    ensures
        0 <= candidacy::seat(list, e, key, n) <= n,
        forall|i: int|
            0 <= i < candidacy::seat(list, e, key, n) ==> key.of(#[trigger] list[i]) <= key.of(e),
        forall|i: int|
            candidacy::seat(list, e, key, n) <= i < n ==> key.of(#[trigger] list[i]) > key.of(e),
    decreases n,
{
    if n > 0 && key.of(list[n - 1]) > key.of(e) {
        a_seat_divides(list, e, key, n - 1);
    }
}

/// Every picked entry stands in the ordered list.
pub proof fn every_picked_entry_is_put_in_order(
    entries: Seq<Entry>,
    pick: Pick,
    key: Key,
    n: int,
    i: int,
)
    requires
        0 <= i < n <= entries.len(),
        pick.takes(entries[i]),
    ensures
        exists|p: int|
            0 <= p < candidacy::ordered(entries, pick, key, n).len()
                && #[trigger] candidacy::ordered(entries, pick, key, n)[p] == entries[i],
    decreases n,
{
    let before = candidacy::ordered(entries, pick, key, n - 1);
    let after = candidacy::ordered(entries, pick, key, n);
    let e = entries[n - 1];
    candidacy::ordering_orders(entries, pick, key, n - 1);
    a_seat_divides(before, e, key, before.len() as int);
    let s = candidacy::seat(before, e, key, before.len() as int);
    if i < n - 1 {
        every_picked_entry_is_put_in_order(entries, pick, key, n - 1, i);
        let p = choose|p: int| 0 <= p < before.len() && #[trigger] before[p] == entries[i];
        if pick.takes(e) && p >= s {
            assert(after[p + 1] == entries[i]);
        } else {
            assert(after[p] == entries[i]);
        }
    } else {
        assert(after[s] == e);
    }
}

/// Of two picked entries the one with the lower key stands in front of the other, and of
/// two with the same key the one that was logged first.
pub proof fn picked_entries_keep_their_order(
    entries: Seq<Entry>,
    pick: Pick,
    key: Key,
    n: int,
    i: int,
    j: int,
)
    requires
        0 <= i < n <= entries.len(),
        0 <= j < n,
        i != j,
        pick.takes(entries[i]),
        pick.takes(entries[j]),
        goes_first(entries, key, i, j),
    ensures
        in_front(candidacy::ordered(entries, pick, key, n), entries[i], entries[j]),
    decreases n,
{
    let before = candidacy::ordered(entries, pick, key, n - 1);
    let after = candidacy::ordered(entries, pick, key, n);
    let e = entries[n - 1];
    candidacy::ordering_orders(entries, pick, key, n - 1);
    a_seat_divides(before, e, key, before.len() as int);
    let s = candidacy::seat(before, e, key, before.len() as int);
    if i < n - 1 && j < n - 1 {
        picked_entries_keep_their_order(entries, pick, key, n - 1, i, j);
        let (p, q) = choose|p: int, q: int|
            0 <= p < q < before.len() && #[trigger] before[p] == entries[i]
                && #[trigger] before[q] == entries[j];
        if !pick.takes(e) {
            assert(after[p] == entries[i] && after[q] == entries[j]);
        } else {
            let pp = if p < s {
                p
            } else {
                p + 1
            };
            let qq = if q < s {
                q
            } else {
                q + 1
            };
            assert(after[pp] == entries[i]);
            assert(after[qq] == entries[j]);
        }
    } else if j == n - 1 {
        every_picked_entry_is_put_in_order(entries, pick, key, n - 1, i);
        let p = choose|p: int| 0 <= p < before.len() && #[trigger] before[p] == entries[i];
        assert(p < s);
        assert(after[p] == entries[i]);
        assert(after[s] == entries[j]);
    } else {
        every_picked_entry_is_put_in_order(entries, pick, key, n - 1, j);
        let q = choose|q: int| 0 <= q < before.len() && #[trigger] before[q] == entries[j];
        assert(q >= s);
        assert(after[s] == entries[i]);
        assert(after[q + 1] == entries[j]);
    }
}

/// Whether what stands at `p` and `q` of an ordered list are two entries of the log, the
/// one at `p` to go first.
pub open spec fn from_the_log(
    entries: Seq<Entry>,
    key: Key,
    n: int,
    list: Seq<Entry>,
    p: int,
    q: int,
) -> bool {
    exists|i: int, j: int|
        0 <= i < n && 0 <= j < n && i != j && #[trigger] entries[i] == list[p]
            && #[trigger] entries[j] == list[q] && goes_first(entries, key, i, j)
}

proof fn one_from_the_log(entries: Seq<Entry>, pick: Pick, key: Key, n: int, p: int)
    requires
        0 <= n <= entries.len(),
        0 <= p < candidacy::ordered(entries, pick, key, n).len(),
    ensures
        exists|i: int|
            0 <= i < n && #[trigger] entries[i] == candidacy::ordered(entries, pick, key, n)[p]
                && pick.takes(entries[i]),
    decreases n,
{
    if n > 0 {
        let before = candidacy::ordered(entries, pick, key, n - 1);
        let e = entries[n - 1];
        candidacy::ordering_orders(entries, pick, key, n - 1);
        a_seat_divides(before, e, key, before.len() as int);
        let s = candidacy::seat(before, e, key, before.len() as int);
        if !pick.takes(e) || p < s {
            one_from_the_log(entries, pick, key, n - 1, p);
        } else if p == s {
            assert(entries[n - 1] == candidacy::ordered(entries, pick, key, n)[p]);
        } else {
            one_from_the_log(entries, pick, key, n - 1, p - 1);
        }
    }
}

/// Two entries that stand in an ordered list are two entries of the log, and the one in
/// front was to go first.
pub proof fn an_ordered_list_is_made_of_the_log(
    entries: Seq<Entry>,
    pick: Pick,
    key: Key,
    n: int,
    p: int,
    q: int,
)
    requires
        0 <= n <= entries.len(),
        0 <= p < q < candidacy::ordered(entries, pick, key, n).len(),
    ensures
        from_the_log(entries, key, n, candidacy::ordered(entries, pick, key, n), p, q),
    decreases n,
{
    if n > 0 {
        let before = candidacy::ordered(entries, pick, key, n - 1);
        let after = candidacy::ordered(entries, pick, key, n);
        let e = entries[n - 1];
        candidacy::ordering_orders(entries, pick, key, n - 1);
        a_seat_divides(before, e, key, before.len() as int);
        let s = candidacy::seat(before, e, key, before.len() as int);
        if pick.takes(e) && p == s {
            one_from_the_log(entries, pick, key, n - 1, q - 1);
            let j = choose|j: int| 0 <= j < n - 1 && #[trigger] entries[j] == before[q - 1];
            assert(entries[n - 1] == after[p] && entries[j] == after[q]);
        } else if pick.takes(e) && q == s {
            one_from_the_log(entries, pick, key, n - 1, p);
            let i = choose|i: int| 0 <= i < n - 1 && #[trigger] entries[i] == before[p];
            assert(entries[i] == after[p] && entries[n - 1] == after[q]);
        } else {
            let pp = if !pick.takes(e) || p < s {
                p
            } else {
                p - 1
            };
            let qq = if !pick.takes(e) || q < s {
                q
            } else {
                q - 1
            };
            an_ordered_list_is_made_of_the_log(entries, pick, key, n - 1, pp, qq);
            let (i, j) = choose|i: int, j: int|
                0 <= i < n - 1 && 0 <= j < n - 1 && i != j && #[trigger] entries[i] == before[pp]
                    && #[trigger] entries[j] == before[qq] && goes_first(entries, key, i, j);
            assert(entries[i] == after[p] && entries[j] == after[q]);
        }
    }
}

/// An ordered list is as long as there are picked entries.
pub proof fn an_ordered_list_is_as_long_as_what_was_picked(
    entries: Seq<Entry>,
    pick: Pick,
    key: Key,
    n: int,
)
    requires
        0 <= n <= entries.len(),
    ensures
        candidacy::ordered(entries, pick, key, n).len() == judgement_laws::places(
            |k: int| pick.takes(entries[k]),
            n,
        ).len(),
    decreases n,
{
    let picked = |k: int| pick.takes(entries[k]);
    judgement_laws::places_are_finite(picked, n);
    if n > 0 {
        an_ordered_list_is_as_long_as_what_was_picked(entries, pick, key, n - 1);
        judgement_laws::places_grow_by_one(picked, n);
        let before = candidacy::ordered(entries, pick, key, n - 1);
        candidacy::ordering_orders(entries, pick, key, n - 1);
        a_seat_divides(before, entries[n - 1], key, before.len() as int);
        assert((|k: int| pick.takes(entries[k])) =~= picked);
    }
}

// ---------------------------------------------------------------------------
// Instants
// ---------------------------------------------------------------------------

proof fn a_line_without_regressions_never_runs_back(line: Seq<Entry>, n: int)
    requires
        0 <= n <= line.len(),
    ensures
        candidacy::regressions(line, n).len() == 0 <==> forall|p: int, q: int|
            0 <= p < q < n ==> #[trigger] line[p].at <= #[trigger] line[q].at,
    decreases n,
{
    if n > 1 {
        a_line_without_regressions_never_runs_back(line, n - 1);
        if candidacy::regressions(line, n).len() == 0 {
            assert forall|p: int, q: int| 0 <= p < q < n implies #[trigger] line[p].at
                <= #[trigger] line[q].at by {
                if q == n - 1 && p < n - 2 {
                    assert(line[p].at <= line[n - 2].at);
                }
            }
        }
        if forall|p: int, q: int| 0 <= p < q < n ==> #[trigger] line[p].at <= #[trigger] line[q].at {
            assert(line[n - 2].at <= line[n - 1].at);
            assert forall|p: int, q: int| 0 <= p < q < n - 1 implies #[trigger] line[p].at
                <= #[trigger] line[q].at by {}
        }
    }
}

proof fn no_regression_on_any_line(entries: Seq<Entry>, clients: Seq<i32>, n: int)
    requires
        0 <= n <= clients.len(),
    ensures
        candidacy::all_regressions(entries, clients, n).len() == 0 <==> forall|c: int|
            0 <= c < n ==> candidacy::regressions(
                candidacy::timeline(entries, #[trigger] clients[c]),
                candidacy::timeline(entries, clients[c]).len() as int,
            ).len() == 0,
    decreases n,
{
    if n > 0 {
        no_regression_on_any_line(entries, clients, n - 1);
    }
}

/// Whether no client's instants run back: of two entries of one client the one with the
/// lower number (the first logged, where they share it) is not the later.
pub open spec fn never_runs_back(entries: Seq<Entry>) -> bool {
    forall|i: int, j: int|
        0 <= i < entries.len() && 0 <= j < entries.len() && (#[trigger] entries[i]).client_id == (
        #[trigger] entries[j]).client_id && (entries[i].op_num < entries[j].op_num || (
        entries[i].op_num == entries[j].op_num && i < j)) ==> entries[i].at <= entries[j].at
}

/// The check of the instants finds nothing exactly when no client's instants run back as
/// its numbers go up.
pub proof fn instants_are_in_order_when_nothing_is_found(entries: Seq<Entry>)
    ensures
        candidacy::all_regressions(
            entries,
            candidacy::log_clients(entries),
            candidacy::log_clients(entries).len() as int,
        ).len() == 0 <==> never_runs_back(entries),
{
    let clients = candidacy::log_clients(entries);
    let whole = entries.len() as int;
    the_clients_are_those_the_entries_name(entries);
    no_regression_on_any_line(entries, clients, clients.len() as int);
    if candidacy::all_regressions(entries, clients, clients.len() as int).len() == 0 {
        assert forall|i: int, j: int|
            0 <= i < entries.len() && 0 <= j < entries.len() && (#[trigger] entries[i]).client_id
                == (#[trigger] entries[j]).client_id && (entries[i].op_num < entries[j].op_num || (
            entries[i].op_num == entries[j].op_num && i < j)) implies entries[i].at
            <= entries[j].at by {
            let client = entries[i].client_id;
            assert(named(entries, client));
            assert(clients.contains(client));
            let c = choose|c: int| 0 <= c < clients.len() && clients[c] == client;
            let line = candidacy::timeline(entries, clients[c]);
            a_line_without_regressions_never_runs_back(line, line.len() as int);
            picked_entries_keep_their_order(
                entries,
                Pick::Client(client),
                Key::OpNum,
                whole,
                i,
                j,
            );
            let (p, q) = choose|p: int, q: int|
                0 <= p < q < line.len() && #[trigger] line[p] == entries[i]
                    && #[trigger] line[q] == entries[j];
            assert(line[p].at <= line[q].at);
        }
    }
    if never_runs_back(entries) {
        assert forall|c: int| 0 <= c < clients.len() implies candidacy::regressions(
            candidacy::timeline(entries, #[trigger] clients[c]),
            candidacy::timeline(entries, clients[c]).len() as int,
        ).len() == 0 by {
            let client = clients[c];
            let line = candidacy::timeline(entries, client);
            candidacy::ordering_orders(entries, Pick::Client(client), Key::OpNum, whole);
            assert forall|p: int, q: int| 0 <= p < q < line.len() implies #[trigger] line[p].at
                <= #[trigger] line[q].at by {
                an_ordered_list_is_made_of_the_log(
                    entries,
                    Pick::Client(client),
                    Key::OpNum,
                    whole,
                    p,
                    q,
                );
                let (i, j) = choose|i: int, j: int|
                    0 <= i < whole && 0 <= j < whole && i != j && #[trigger] entries[i] == line[p]
                        && #[trigger] entries[j] == line[q] && goes_first(
                        entries,
                        Key::OpNum,
                        i,
                        j,
                    );
                assert(Pick::Client(client).takes(line[p]));
                assert(Pick::Client(client).takes(line[q]));
                assert(entries[i].client_id == entries[j].client_id);
            }
            a_line_without_regressions_never_runs_back(line, line.len() as int);
        }
    }
}

/// A regression that is found names two entries of one client, next to each other by their
/// numbers, of which the one with the higher number is the earlier.
pub proof fn a_regression_names_the_two_entries(line: Seq<Entry>, n: int, r: int)
    requires
        0 <= n <= line.len(),
        0 <= r < candidacy::regressions(line, n).len(),
    ensures
        exists|p: int|
            0 < p < n && #[trigger] line[p] == candidacy::regressions(line, n)[r].entry && line[p
                - 1] == candidacy::regressions(line, n)[r].before && line[p].at < line[p - 1].at,
    decreases n,
{
    if n > 1 {
        if r < candidacy::regressions(line, n - 1).len() {
            a_regression_names_the_two_entries(line, n - 1, r);
        } else {
            assert(line[n - 1] == candidacy::regressions(line, n)[r].entry);
        }
    }
}

// ---------------------------------------------------------------------------
// Overlapping leadership
// ---------------------------------------------------------------------------

/// Whether no client claims the lead while another's lease runs: of two claims by different
/// clients the later (the one logged last, where they share the instant) does not lie
/// before the end of the other's lease.
pub open spec fn leases_do_not_overlap(entries: Seq<Entry>) -> bool {
    forall|i: int, j: int|
        0 <= i < entries.len() && 0 <= j < entries.len() && is_claim(#[trigger] entries[i])
            && is_claim(#[trigger] entries[j]) && entries[i].client_id != entries[j].client_id && (
        entries[i].at < entries[j].at || (entries[i].at == entries[j].at && i < j))
            ==> entries[i].lease_end <= entries[j].at
}

/// Whether an entry is an attempt to lead that went through and led.
pub open spec fn is_claim(e: Entry) -> bool {
    e.op_type == 2 && e.success && e.became_leader
}

/// No overlap is found exactly when no client claims the lead while another's lease runs;
/// and every claim of the log is looked at.
pub proof fn no_overlap_is_found_when_leases_do_not_overlap(entries: Seq<Entry>)
    ensures
        candidacy::overlaps(
            candidacy::claims_of(entries),
            candidacy::claims_of(entries).len() as int,
        ).len() == 0 <==> leases_do_not_overlap(entries),
        candidacy::claims_of(entries).len() == judgement_laws::places(
            |k: int| is_claim(entries[k]),
            entries.len() as int,
        ).len(),
{
    let claims = candidacy::claims_of(entries);
    let whole = entries.len() as int;
    candidacy::ordering_orders(entries, Pick::Claims, Key::At, whole);
    candidacy::no_report_means_no_overlap(claims, claims.len() as int);
    an_ordered_list_is_as_long_as_what_was_picked(entries, Pick::Claims, Key::At, whole);
    assert((|k: int| Pick::Claims.takes(entries[k])) =~= (|k: int| is_claim(entries[k])));
    if candidacy::overlaps(claims, claims.len() as int).len() == 0 {
        assert forall|i: int, j: int|
            0 <= i < entries.len() && 0 <= j < entries.len() && is_claim(#[trigger] entries[i])
                && is_claim(#[trigger] entries[j]) && entries[i].client_id != entries[j].client_id
                && (entries[i].at < entries[j].at || (entries[i].at == entries[j].at && i
                < j)) implies entries[i].lease_end <= entries[j].at by {
            picked_entries_keep_their_order(entries, Pick::Claims, Key::At, whole, i, j);
            let (p, q) = choose|p: int, q: int|
                0 <= p < q < claims.len() && #[trigger] claims[p] == entries[i]
                    && #[trigger] claims[q] == entries[j];
            assert(!candidacy::overlap(claims[p], claims[q]));
        }
    }
    if leases_do_not_overlap(entries) {
        assert forall|p: int, q: int|
            0 <= p < claims.len() && p < q < claims.len() implies !candidacy::overlap(
            #[trigger] claims[p],
            #[trigger] claims[q],
        ) by {
            an_ordered_list_is_made_of_the_log(entries, Pick::Claims, Key::At, whole, p, q);
            let (i, j) = choose|i: int, j: int|
                0 <= i < whole && 0 <= j < whole && i != j && #[trigger] entries[i] == claims[p]
                    && #[trigger] entries[j] == claims[q] && goes_first(entries, Key::At, i, j);
            assert(Pick::Claims.takes(claims[p]));
            assert(Pick::Claims.takes(claims[q]));
            assert(is_claim(entries[i]) && is_claim(entries[j]));
        }
    }
}

proof fn an_overlap_with_one_names_both(claims: Seq<Entry>, i: int, n: int, r: int)
    requires
        0 <= i < claims.len(),
        n <= claims.len(),
        0 <= r < candidacy::overlaps_with(claims, i, n).len(),
    ensures
        ({
            let o = candidacy::overlaps_with(claims, i, n)[r];
            o.first == claims[i] && exists|j: int| i < j < n && #[trigger] claims[j] == o.second
                && o.first.client_id != o.second.client_id && o.second.at < o.first.lease_end
        }),
    decreases n - i,
{
    if n > i + 1 {
        let before = candidacy::overlaps_with(claims, i, n - 1);
        if r < before.len() {
            an_overlap_with_one_names_both(claims, i, n - 1, r);
            assert(candidacy::overlaps_with(claims, i, n)[r] == before[r]);
        } else {
            assert(claims[n - 1] == candidacy::overlaps_with(claims, i, n)[r].second);
        }
    }
}

/// An overlap that is found names two claims of different clients, the earlier first, and
/// the second lies before the end of the first one's lease.
pub proof fn an_overlap_names_both_claims(claims: Seq<Entry>, n: int, r: int)
    requires
        0 <= n <= claims.len(),
        0 <= r < candidacy::overlaps(claims, n).len(),
    ensures
        ({
            let o = candidacy::overlaps(claims, n)[r];
            exists|i: int, j: int|
                0 <= i < j < claims.len() && #[trigger] claims[i] == o.first
                    && #[trigger] claims[j] == o.second && o.first.client_id != o.second.client_id
                    && o.second.at < o.first.lease_end
        }),
    decreases n,
{
    if n > 0 {
        let before = candidacy::overlaps(claims, n - 1);
        if r < before.len() {
            an_overlap_names_both_claims(claims, n - 1, r);
        } else {
            an_overlap_with_one_names_both(
                claims,
                n - 1,
                claims.len() as int,
                r - before.len(),
            );
            let o = candidacy::overlaps(claims, n)[r];
            assert(o == candidacy::overlaps_with(claims, n - 1, claims.len() as int)[r
                - before.len()]);
            assert(claims[n - 1] == o.first);
        }
    }
}

// ---------------------------------------------------------------------------
// Ballots
// ---------------------------------------------------------------------------

/// Ballots are conserved exactly when the ballot is the number of claims in the log.
pub proof fn ballots_are_conserved_when_the_claims_are_counted(entries: Seq<Entry>, actual: u64)
    ensures
        candidacy::ballot_ruling(candidacy::claims_counted(entries), actual).0 <==> actual
            == judgement_laws::places(
            |k: int| is_claim(entries[k]),
            entries.len() as int,
        ).len(),
{
    let p = |e: Entry| e.claims();
    a_count_is_a_number_of_places(entries, p, entries.len() as int);
    assert(at_entries(entries, p) =~= (|k: int| is_claim(entries[k])));
}

/// How far a ballot is off is how far the two numbers lie apart, as far as both fit in a
/// signed word; and it is nothing only where they are the same.
pub proof fn the_distance_is_how_far_apart_they_are(expected: nat, actual: u64)
    requires
        expected <= u64::MAX,
    ensures
        candidacy::distance(expected, actual) == 0 <==> expected == actual,
        expected <= i64::MAX && actual <= i64::MAX && expected <= actual
            ==> candidacy::distance(expected, actual) == actual - expected,
        expected <= i64::MAX && actual <= i64::MAX && actual <= expected
            ==> candidacy::distance(expected, actual) == expected - actual,
        candidacy::distance(expected, actual) == candidacy::distance(actual as nat, expected as u64),
{
}

// ---------------------------------------------------------------------------
// Candidates
// ---------------------------------------------------------------------------

/// Whether some candidate goes by a process name.
pub open spec fn stands_as(candidates: Seq<Candidate>, process: Seq<char>) -> bool {
    exists|k: int| 0 <= k < candidates.len() && (#[trigger] candidates[k]).process_id@ == process
}

/// Whether a stamp has a byte that is not zero.
pub open spec fn is_stamped(c: Candidate) -> bool {
    exists|b: int| 0 <= b < 12 && #[trigger] c.versionstamp@[b] != 0
}

proof fn a_stamp_is_blank_or_stamped(c: Candidate)
    ensures
        candidacy::is_blank(c.versionstamp) <==> !is_stamped(c),
{
    let zeroes = Seq::new(12, |i: int| 0u8);
    if candidacy::is_blank(c.versionstamp) {
        assert forall|b: int| 0 <= b < 12 implies #[trigger] c.versionstamp@[b] == 0 by {
            assert(zeroes[b] == 0);
        }
    }
    if !is_stamped(c) {
        assert(c.versionstamp@.len() == 12);
        assert(c.versionstamp@ =~= zeroes);
    }
}

proof fn everybody_is_registered(
    stats: Seq<(i32, ClientStats)>,
    candidates: Seq<Candidate>,
    n: int,
)
    requires
        0 <= n <= stats.len(),
    ensures
        candidacy::unregistered(stats, candidates, n).len() == 0 <==> forall|i: int|
            0 <= i < n && (#[trigger] stats[i]).1.heartbeat_count > 0 ==> stands_as(
                candidates,
                "process_"@ + text::int_text(stats[i].0 as int),
            ),
    decreases n,
{
    if n > 0 {
        everybody_is_registered(stats, candidates, n - 1);
        let name = "process_"@ + text::int_text(stats[n - 1].0 as int);
        assert(candidacy::registered(candidates, name, candidates.len() as int) <==> stands_as(
            candidates,
            name,
        ));
    }
}

proof fn everybody_is_stamped(candidates: Seq<Candidate>, n: int)
    requires
        0 <= n <= candidates.len(),
    ensures
        candidacy::unstamped(candidates, n).len() == 0 <==> forall|k: int|
            0 <= k < n ==> is_stamped(#[trigger] candidates[k]),
    decreases n,
{
    if n > 0 {
        everybody_is_stamped(candidates, n - 1);
        a_stamp_is_blank_or_stamped(candidates[n - 1]);
    }
}

/// The candidates are consistent exactly when every client that sent a heartbeat stands
/// among them under its process name, and none of them has a stamp of zeroes alone.
pub proof fn candidates_are_consistent_when_senders_stand_and_all_are_stamped(
    stats: Seq<(i32, ClientStats)>,
    candidates: Seq<Candidate>,
    remark: Seq<char>,
)
    ensures
        candidacy::ruling(
            candidacy::unregistered(stats, candidates, stats.len() as int) + candidacy::unstamped(
                candidates,
                candidates.len() as int,
            ),
            remark,
        ).0 <==> {
            &&& forall|i: int|
                0 <= i < stats.len() && (#[trigger] stats[i]).1.heartbeat_count > 0 ==> stands_as(
                    candidates,
                    "process_"@ + text::int_text(stats[i].0 as int),
                )
            &&& forall|k: int| 0 <= k < candidates.len() ==> is_stamped(#[trigger] candidates[k])
        },
{
    everybody_is_registered(stats, candidates, stats.len() as int);
    everybody_is_stamped(candidates, candidates.len() as int);
}

proof fn a_candidate_is_found_first(candidates: Seq<Candidate>, process: Seq<char>, from: int)
    requires
        0 <= from <= candidates.len(),
    ensures
        match candidacy::candidate_at(candidates, process, from) {
            Some(k) => from <= k < candidates.len() && candidates[k].process_id@ == process
                && forall|j: int| from <= j < k ==> (#[trigger] candidates[j]).process_id@ != process,
            None => forall|j: int|
                from <= j < candidates.len() ==> (#[trigger] candidates[j]).process_id@ != process,
        },
    decreases candidates.len() - from,
{
    if from < candidates.len() && candidates[from].process_id@ != process {
        a_candidate_is_found_first(candidates, process, from + 1);
    }
}

/// A leader is in order exactly when the first candidate under its name has its stamp, byte
/// for byte; and no leader at all is in order too.
pub proof fn a_leader_is_the_candidate_of_its_name(
    leader: Option<Candidate>,
    candidates: Seq<Candidate>,
)
    ensures
        candidacy::leader_ruling(leader, candidates).0 <==> match leader {
            Some(l) => exists|k: int|
                0 <= k < candidates.len() && (#[trigger] candidates[k]).process_id@
                    == l.process_id@ && candidates[k].versionstamp@ == l.versionstamp@ && (forall|
                    j: int,
                |
                    0 <= j < k ==> (#[trigger] candidates[j]).process_id@ != l.process_id@),
            None => true,
        },
{
    if let Some(l) = leader {
        a_candidate_is_found_first(candidates, l.process_id@, 0);
        if let Some(k) = candidacy::candidate_at(candidates, l.process_id@, 0) {
            assert(candidates[k].process_id@ == l.process_id@);
        }
    }
}

// ---------------------------------------------------------------------------
// Totals and rulings
// ---------------------------------------------------------------------------

/// The totals over all clients are the operations of the log and those of them that failed.
pub proof fn totals_count_the_operations_of_the_log(
    stats: Seq<(i32, ClientStats)>,
    entries: Seq<Entry>,
)
    requires
        candidacy::stats_cover(stats, entries),
    ensures
        candidacy::ops_total(stats, stats.len() as int) == judgement_laws::places(
            |k: int| 0 <= entries[k].op_type <= 2,
            entries.len() as int,
        ).len(),
        candidacy::errors_total(stats, stats.len() as int) == judgement_laws::places(
            |k: int| 0 <= entries[k].op_type <= 2 && !entries[k].success,
            entries.len() as int,
        ).len(),
{
    candidacy::totals_are_those_of_the_log(stats, entries);
    a_count_is_a_number_of_places(entries, candidacy::counts(), entries.len() as int);
    a_count_is_a_number_of_places(entries, candidacy::counts_as_error(), entries.len() as int);
    assert(at_entries(entries, candidacy::counts()) =~= (|k: int| 0 <= entries[k].op_type <= 2));
    assert(at_entries(entries, candidacy::counts_as_error()) =~= (|k: int|
        0 <= entries[k].op_type <= 2 && !entries[k].success));
}

/// A ruling passes, with its remark, exactly where there is no issue; otherwise it says the
/// issues.
pub proof fn a_ruling_passes_without_issues(issues: Seq<Seq<char>>, remark: Seq<char>)
    ensures
        candidacy::ruling(issues, remark).0 <==> issues.len() == 0,
        issues.len() == 0 ==> candidacy::ruling(issues, remark).1 == remark,
        issues.len() > 0 ==> candidacy::ruling(issues, remark).1 == candidacy::joined(
            issues,
            issues.len() as int,
        ),
{
}

/// Where issue `k` begins in the joined text: behind those before it, each with its
/// semicolon and space.
pub open spec fn issue_begins(issues: Seq<Seq<char>>, k: int) -> int
    decreases k,
{
    if k <= 0 {
        0
    } else {
        issue_begins(issues, k - 1) + issues[k - 1].len() + 2
    }
}

/// The joined text holds every issue, each behind the ones before it, with a semicolon and
/// a space between two; and nothing else.
pub proof fn joining_keeps_every_issue_in_its_place(issues: Seq<Seq<char>>, n: int, k: int)
    requires
        0 <= k < n <= issues.len(),
    ensures
        candidacy::joined(issues, n).len() == issue_begins(issues, n) - 2,
        0 <= issue_begins(issues, k),
        issue_begins(issues, k) + issues[k].len() <= candidacy::joined(issues, n).len(),
        candidacy::joined(issues, n).subrange(
            issue_begins(issues, k),
            issue_begins(issues, k) + issues[k].len(),
        ) == issues[k],
        k > 0 ==> 2 <= issue_begins(issues, k) && candidacy::joined(issues, n)[issue_begins(
            issues,
            k,
        ) - 2] == ';' && candidacy::joined(issues, n)[issue_begins(issues, k) - 1] == ' ',
    decreases n,
{
    reveal_strlit("; ");
    let whole = candidacy::joined(issues, n);
    let at = issue_begins(issues, k);
    if n == 1 {
        assert(issue_begins(issues, 0) == 0);
        assert(issue_begins(issues, 1) == issue_begins(issues, 0) + issues[0].len() + 2);
        assert(whole.subrange(0, whole.len() as int) =~= whole);
    } else {
        let before = candidacy::joined(issues, n - 1);
        let last = if k < n - 1 {
            k
        } else {
            n - 2
        };
        joining_keeps_every_issue_in_its_place(issues, n - 1, last);
        if k < n - 1 {
            assert(whole.subrange(at, at + issues[k].len()) =~= before.subrange(
                at,
                at + issues[k].len(),
            ));
        } else {
            assert(at == before.len() + 2);
            assert(whole.subrange(at, at + issues[k].len()) =~= issues[k]);
        }
    }
}

/// The summary counts the checks that passed, and names the others in order: a check more
/// counts, or is named at the end.
pub proof fn a_summary_counts_or_names_every_check(results: Seq<Outcome>, n: int)
    requires
        0 <= n <= results.len(),
    ensures
        candidacy::passes(results, n) == judgement_laws::places(|k: int| results[k].passed, n).len(),
        candidacy::passes(results, n) + candidacy::failures(results, n).len() == n,
        forall|k: int|
            0 <= k < n && !(#[trigger] results[k]).passed ==> candidacy::failures(results, n)[k
                - judgement_laws::places(|m: int| results[m].passed, k).len()] == results[k].name@,
    decreases n,
{
    let passed = |k: int| results[k].passed;
    judgement_laws::places_are_finite(passed, n);
    if n > 0 {
        a_summary_counts_or_names_every_check(results, n - 1);
        judgement_laws::places_grow_by_one(passed, n);
        assert forall|k: int| 0 <= k < n && !(#[trigger] results[k]).passed implies (
        candidacy::failures(results, n)[k - judgement_laws::places(
            |m: int| results[m].passed,
            k,
        ).len()] == results[k].name@) by {
            assert((|m: int| results[m].passed) =~= passed);
            if k < n - 1 {
                places_before_a_gap(passed, k, n - 1);
            }
        }
    }
    assert((|k: int| results[k].passed) =~= passed);
}

proof fn places_before_a_gap(holds: spec_fn(int) -> bool, k: int, n: int)
    requires
        0 <= k < n,
        !holds(k),
    ensures
        judgement_laws::places(holds, k).len() <= k,
        k - judgement_laws::places(holds, k).len() < n - judgement_laws::places(holds, n).len(),
    decreases n,
{
    judgement_laws::places_grow_by_one(holds, n);
    if k < n - 1 {
        places_before_a_gap(holds, k, n - 1);
    } else {
        no_more_places_than_numbers(holds, k);
    }
}

proof fn no_more_places_than_numbers(holds: spec_fn(int) -> bool, n: int)
    requires
        0 <= n,
    ensures
        judgement_laws::places(holds, n).len() <= n,
    decreases n,
{
    judgement_laws::places_are_finite(holds, n);
    if n > 0 {
        no_more_places_than_numbers(holds, n - 1);
        judgement_laws::places_grow_by_one(holds, n);
    }
}

// ---------------------------------------------------------------------------
// The candidate's script
// ---------------------------------------------------------------------------

/// A candidate stays the client it is. Its stamp changes only where one was read, and is
/// then the one that was read.
pub proof fn a_candidate_keeps_the_stamp_it_read(c: CandidateScript, answer: Answer)
    ensures
        candidacy::scripted(c, answer).0.client_id == c.client_id,
        c.place == Place::ReadStamp ==> match answer {
            Answer::Stamp(stamp) => candidacy::scripted(c, answer).0.versionstamp == stamp,
            _ => candidacy::scripted(c, answer).0.versionstamp == c.versionstamp,
        },
        c.place != Place::ReadStamp ==> candidacy::scripted(c, answer).0.versionstamp
            == c.versionstamp,
        candidacy::scripted(c, answer).1 matches Step::Claim(stamp) ==> stamp == c.versionstamp,
{
}

/// What a candidate counts: a heartbeat that worked, an attempt to lead and whether it led,
/// and a heartbeat or an attempt that failed. Nothing else moves a count.
pub proof fn a_candidate_counts_what_it_was_answered(c: CandidateScript, answer: Answer)
    requires
        c.heartbeat_count < u64::MAX,
        c.leadership_attempts < u64::MAX,
        c.times_became_leader < u64::MAX,
        c.error_count < u64::MAX,
    ensures
        ({
            let next = candidacy::scripted(c, answer).0;
            let beat = c.place == Place::Heartbeat;
            let claim = c.place == Place::Claim;
            let failed = answer is Failed;
            &&& next.heartbeat_count == c.heartbeat_count + if beat && !failed {
                1int
            } else {
                0
            }
            &&& next.leadership_attempts == c.leadership_attempts + if claim {
                1int
            } else {
                0
            }
            &&& next.times_became_leader == c.times_became_leader + if claim && answer is Led {
                1int
            } else {
                0
            }
            &&& next.error_count == c.error_count + if (beat || claim) && failed {
                1int
            } else {
                0
            }
        }),
{
}

/// A candidate logs each operation right after its answer, under its own kind: the
/// registration once it is stamped or has failed, a heartbeat, an attempt to lead. What it
/// logs went through unless the answer failed.
pub proof fn a_candidate_logs_what_it_did(c: CandidateScript, answer: Answer)
    ensures
        ({
            let step = candidacy::scripted(c, answer).1;
            let failed = answer is Failed;
            &&& step is Log <==> (c.place == Place::Register && failed) || c.place
                == Place::ReadStamp || c.place == Place::Heartbeat || c.place == Place::Claim
            &&& step matches Step::Log { op, op_num, success, became_leader } ==> {
                &&& op_num == c.op_num
                &&& c.place == Place::Register ==> op == OpType::Register && !success
                    && !became_leader
                &&& c.place == Place::ReadStamp ==> op == OpType::Register && success
                    && !became_leader
                &&& c.place == Place::Heartbeat ==> op == OpType::Heartbeat && success == !failed
                    && !became_leader
                &&& c.place == Place::Claim ==> op == OpType::TryBecomeLeader && success == !failed
                    && became_leader == (answer is Led)
            }
        }),
{
}

/// A candidate's rounds: a heartbeat begins one and uses it up, an attempt to lead follows
/// the heartbeat's entry in the log, and it stops for good only when no round is left.
pub proof fn a_candidate_goes_round_as_often_as_it_may(c: CandidateScript, answer: Answer)
    ensures
        ({
            let (next, step) = candidacy::scripted(c, answer);
            let between = c.place == Place::Ready || c.place == Place::LogClaim;
            &&& step is Heartbeat <==> between && c.rounds_left > 0
            &&& step is Heartbeat ==> next.rounds_left == c.rounds_left - 1 && next.place
                == Place::Heartbeat
            &&& !(step is Heartbeat) ==> next.rounds_left == c.rounds_left
            &&& step is Claim <==> c.place == Place::LogHeartbeat
            &&& step is Claim ==> next.place == Place::Claim
            &&& next.place == Place::Done <==> c.place == Place::Done || (between && c.rounds_left
                == 0)
            &&& step is Stop <==> c.place == Place::Done || c.place == Place::LogRegister || (
            between && c.rounds_left == 0)
            &&& step is Register <==> c.place == Place::Initialize
            &&& step is ReadStamp <==> c.place == Place::Register && !(answer is Failed)
            &&& c.place == Place::Heartbeat ==> next.place == Place::LogHeartbeat
            &&& c.place == Place::Claim ==> next.place == Place::LogClaim
            &&& c.place == Place::LogRegister ==> next.place == Place::Ready
            &&& c.place == Place::Initialize ==> next.place == Place::Register
            &&& c.place == Place::ReadStamp ==> next.place == Place::LogRegister
            &&& c.place == Place::Register ==> next.place == if answer is Failed {
                Place::LogRegister
            } else {
                Place::ReadStamp
            }
        }),
{
}

} // verus!
