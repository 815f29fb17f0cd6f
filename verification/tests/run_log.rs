//! The log of a run, what replaying it shows, and the invariants it is held to.
//!
//! Every invariant test starts from a well-behaved log and changes one thing, so
//! a test that fails names the property it broke.

use recipes_simulation::duration::Duration;
use recipes_simulation::invariants::{
    ballot_succession, check_all, dual_path_replay, fencing_holds, history_faithful,
    is_resolution, no_belief_overlap, one_claim_per_ballot, progress_made, recovery_exercised,
    sleeper_was_fenced, steal_observation_discipline, uuid_recovery_no_dup, vacant_reclaim,
    CheckInputs, HistoryEntry, HistoryKind, ProgressThresholds, Tolerances,
};
use recipes_simulation::log_schema::{
    incomplete_log_key, log_subspace, LogEntry, LogRecord, ObservedIdentity, OpKind, Outcome,
    LOG_SCHEMA_VERSION,
};
use recipes_simulation::replay::{replay, ExpectedRecord, Replay, TransitionKind};
use recipes_simulation::report::{
    InvariantReport, Violation, Violations, MAX_INDICES_KEPT, MAX_VIOLATIONS_KEPT,
};

/// Seconds, in nanoseconds
const SEC: u64 = 1_000_000_000;
/// The lease every fixture advertises
const LEASE: u64 = 10 * SEC;

/// The tolerances that clocks within a relative rate error of each other need
fn from_clock_rate_error(lease: Duration, max_rate_error: f64) -> Tolerances {
    let error = max_rate_error.abs();
    let slack = lease.as_nanos() as f64 * 2.0 * error / (1.0 + error);
    Tolerances::with_slack(Duration::from_nanos(slack as u64))
}

fn token(byte: u8) -> [u8; 16] {
    [byte; 16]
}

/// The leader id the fixtures (and the workload) derive from a client id
fn leader_id(client_id: i32) -> String {
    format!("process_{client_id}")
}

/// Accumulates entries in commit order
#[derive(Debug, Default)]
struct LogBuilder {
    entries: Vec<LogEntry>,
    next_op_num: u64,
}

impl LogBuilder {
    fn new() -> Self {
        Self::default()
    }

    /// Append `record` as written by `client_id`, returning its index
    fn push(&mut self, client_id: i32, record: LogRecord) -> usize {
        let index = self.entries.len();
        let mut versionstamp = [0u8; 12];
        versionstamp[..8].copy_from_slice(&(index as u64 + 1).to_be_bytes());
        self.entries.push(LogEntry {
            versionstamp,
            client_id,
            op_num: self.next_op_num,
            record,
        });
        self.next_op_num += 1;
        index
    }

    fn entries(&self) -> &[LogEntry] {
        &self.entries
    }

    fn into_entries(self) -> Vec<LogEntry> {
        self.entries
    }
}

/// A claim or steal that landed
fn write(op: OpKind, ballot: u64, generation: u64, tok: u8, sim: u64) -> LogRecord {
    let mut record = LogRecord::new(op);
    record.ballot = ballot;
    record.generation = generation;
    record.token = token(tok);
    record.lease_nanos = LEASE;
    record.leader_record_written = true;
    record.local_nanos = sim;
    record.sim_nanos = sim;
    record.attempt_id = ballot;
    record
}

/// A resign, which preserves both halves of the identity
fn resign(ballot: u64, generation: u64, tok: u8, sim: u64) -> LogRecord {
    let mut record = write(OpKind::Resign, ballot, generation, tok, sim);
    record.lease_nanos = 0;
    record.observed = Some(ObservedIdentity {
        ballot,
        generation,
        vacant: false,
    });
    record
}

fn observed(record: &mut LogRecord, ballot: u64, generation: u64, vacant: bool) {
    record.observed = Some(ObservedIdentity {
        ballot,
        generation,
        vacant,
    });
}

/// The canonical well-behaved run.
///
/// Client 0 claims an absent record, renews twice, resigns. Client 1
/// reclaims the vacancy instantly, recovers an unknown commit without
/// double-claiming, renews, then stops writing (a crash: it never logs a
/// belief end). Client 2 times the abandoned identity for a full lease,
/// steals it, and fences a write; client 1 wakes up afterwards and has both
/// a stale fenced write and a stale renewal rejected.
fn clean_log() -> Vec<LogEntry> {
    let mut log = LogBuilder::new();

    log.push(0, write(OpKind::Claim, 1, 0, 1, SEC));
    log.push(0, belief_begin(0, 1, SEC, 9 * SEC));
    log.push(2, observe(1, 0, false, 2 * SEC));
    log.push(0, write(OpKind::Renew, 1, 1, 1, 3 * SEC));
    log.push(0, fenced_write(1, Outcome::Applied, 3 * SEC + SEC / 2));
    log.push(2, observe(1, 1, false, 4 * SEC));
    {
        // A renewal extends the belief: the driver logs the new horizon.
        let mut extend = belief_begin(0, 1, 5 * SEC, 13 * SEC);
        extend.attempt_id = 2;
        log.push(0, extend);
    }
    log.push(0, write(OpKind::Renew, 1, 2, 1, 5 * SEC));

    log.push(0, belief_end(0, 1, 6 * SEC));
    log.push(0, resign(1, 2, 1, 6 * SEC + SEC / 10));

    let mut claim = write(OpKind::Claim, 2, 2, 2, 6 * SEC + SEC / 2);
    observed(&mut claim, 1, 2, true);
    log.push(1, claim);

    // The reply to that claim was lost; the retry recognizes its own
    // record and writes nothing.
    let mut recovery = write(OpKind::Claim, 2, 2, 2, 6 * SEC + 6 * SEC / 10);
    recovery.leader_record_written = false;
    recovery.recovery_noop = true;
    recovery.maybe_committed = true;
    observed(&mut recovery, 2, 2, false);
    log.push(1, recovery);

    log.push(
        1,
        belief_begin(1, 2, 6 * SEC + 5 * SEC / 10, 15 * SEC + 4 * SEC / 10),
    );
    log.push(2, observe(2, 2, false, 7 * SEC));
    log.push(1, write(OpKind::Renew, 2, 3, 2, 8 * SEC));

    let mut first_sighting = observe(2, 3, false, 8 * SEC + 2 * SEC / 10);
    first_sighting.observation_start_nanos = Some(8 * SEC + 2 * SEC / 10);
    log.push(2, first_sighting);

    let mut mid_sighting = observe(2, 3, false, 13 * SEC);
    mid_sighting.observation_start_nanos = Some(8 * SEC + 2 * SEC / 10);
    log.push(2, mid_sighting);

    // 10.1 s of continuous observation, one tenth of a second past the
    // lease the abandoned record advertises.
    let mut steal = write(OpKind::Steal, 3, 3, 3, 18 * SEC + 3 * SEC / 10);
    steal.observation_start_nanos = Some(8 * SEC + 2 * SEC / 10);
    observed(&mut steal, 2, 3, false);
    log.push(2, steal);

    log.push(2, belief_begin(2, 3, 18 * SEC + 3 * SEC / 10, 27 * SEC));
    log.push(2, fenced_write(3, Outcome::Applied, 19 * SEC));

    log.push(1, sleeper_woke(2, 20 * SEC));
    log.push(1, fenced_write(2, Outcome::Rejected, 20 * SEC));
    let mut stale_renew = write(OpKind::Renew, 2, 4, 2, 20 * SEC + SEC / 10);
    stale_renew.leader_record_written = false;
    stale_renew.outcome = Outcome::Rejected;
    observed(&mut stale_renew, 3, 3, false);
    log.push(1, stale_renew);

    log.into_entries()
}

/// The database state the clean log replays to
fn clean_snapshot() -> ExpectedRecord {
    ExpectedRecord {
        ballot: 3,
        generation: 3,
        leader_id: leader_id(2),
        token: token(3),
        lease_nanos: LEASE,
    }
}

/// The transitions the recipe's own history subspace should hold
fn clean_history() -> Vec<HistoryEntry> {
    vec![
        HistoryEntry {
            kind: HistoryKind::Claim,
            ballot: 1,
            leader_id: leader_id(0),
        },
        HistoryEntry {
            kind: HistoryKind::Resign,
            ballot: 1,
            leader_id: leader_id(0),
        },
        HistoryEntry {
            kind: HistoryKind::Claim,
            ballot: 2,
            leader_id: leader_id(1),
        },
        HistoryEntry {
            kind: HistoryKind::Steal,
            ballot: 3,
            leader_id: leader_id(2),
        },
    ]
}

/// The marker a client writes when it throws a claim reply away
fn injected_unknown(ballot: u64, tok: u8, sim: u64) -> LogRecord {
    let mut record = LogRecord::new(OpKind::InjectedUnknown);
    record.ballot = ballot;
    record.token = token(tok);
    record.attempt_id = ballot;
    record.maybe_committed = true;
    record.local_nanos = sim;
    record.sim_nanos = sim;
    record
}

/// A re-probe that found a stranger at or past the ballot it wrote
///
/// The terminal half of the recovery contract: nothing was written, the
/// outcome is a refusal, and the token is spent from here on.
fn superseded(observed_ballot: u64, tok: u8, sim: u64) -> LogRecord {
    let mut record = LogRecord::new(OpKind::Steal);
    record.outcome = Outcome::Rejected;
    record.token = token(tok);
    record.attempt_id = u64::from(tok);
    record.superseded = true;
    record.maybe_committed = true;
    record.lease_nanos = LEASE;
    record.local_nanos = sim;
    record.sim_nanos = sim;
    observed(&mut record, observed_ballot, 1, false);
    record
}

fn injected_recovery_log() -> Vec<LogEntry> {
    let mut log = LogBuilder::new();

    log.push(0, write(OpKind::Claim, 1, 0, 1, SEC));
    log.push(0, injected_unknown(1, 1, SEC + SEC / 10));

    let mut adopted = write(OpKind::Claim, 1, 0, 1, SEC + 5 * SEC / 10);
    adopted.leader_record_written = false;
    adopted.recovery_noop = true;
    adopted.maybe_committed = true;
    observed(&mut adopted, 1, 0, false);
    log.push(0, adopted);

    log.push(0, belief_begin(0, 1, SEC + 5 * SEC / 10, 9 * SEC));
    log.push(2, observe(1, 0, false, 2 * SEC));
    log.push(0, write(OpKind::Renew, 1, 1, 1, 3 * SEC));
    log.push(2, observe(1, 1, false, 4 * SEC));
    log.push(0, belief_end(0, 1, 5 * SEC));
    log.push(0, resign(1, 1, 1, 5 * SEC + SEC / 10));

    let mut claim = write(OpKind::Claim, 2, 1, 2, 5 * SEC + 5 * SEC / 10);
    observed(&mut claim, 1, 1, true);
    log.push(1, claim);
    log.push(1, injected_unknown(2, 2, 5 * SEC + 6 * SEC / 10));
    // No belief: a client that never heard back never starts believing,
    // which is what makes the injection the same shape as a crash.

    let mut first_sighting = observe(2, 1, false, 5 * SEC + 8 * SEC / 10);
    first_sighting.observation_start_nanos = Some(5 * SEC + 8 * SEC / 10);
    log.push(2, first_sighting);

    let mut mid_sighting = observe(2, 1, false, 12 * SEC);
    mid_sighting.observation_start_nanos = Some(5 * SEC + 8 * SEC / 10);
    log.push(2, mid_sighting);

    let mut steal = write(OpKind::Steal, 3, 1, 3, 16 * SEC);
    steal.observation_start_nanos = Some(5 * SEC + 8 * SEC / 10);
    observed(&mut steal, 2, 1, false);
    log.push(2, steal);
    log.push(2, belief_begin(2, 3, 16 * SEC, 25 * SEC));

    log.push(1, superseded(3, 2, 17 * SEC));

    log.push(2, write(OpKind::Renew, 3, 2, 3, 18 * SEC));
    log.push(2, belief_end(2, 3, 20 * SEC));
    log.push(2, resign(3, 2, 3, 20 * SEC + SEC / 10));

    // -- and campaigns again under a token the retirement did not spend -
    let mut fresh = write(OpKind::Claim, 4, 2, 4, 20 * SEC + 5 * SEC / 10);
    observed(&mut fresh, 3, 2, true);
    log.push(1, fresh);
    let mut belief = belief_begin(1, 4, 20 * SEC + 5 * SEC / 10, 29 * SEC);
    belief.token = token(4);
    log.push(1, belief);

    log.into_entries()
}

fn injected_recovery_snapshot() -> ExpectedRecord {
    ExpectedRecord {
        ballot: 4,
        generation: 2,
        leader_id: leader_id(1),
        token: token(4),
        lease_nanos: LEASE,
    }
}

fn injected_recovery_history()
-> Vec<HistoryEntry> {
    let entry = |kind, ballot, client| HistoryEntry {
        kind,
        ballot,
        leader_id: leader_id(client),
    };
    vec![
        entry(HistoryKind::Claim, 1, 0),
        entry(HistoryKind::Resign, 1, 0),
        entry(HistoryKind::Claim, 2, 1),
        entry(HistoryKind::Steal, 3, 2),
        entry(HistoryKind::Resign, 3, 2),
        entry(HistoryKind::Claim, 4, 1),
    ]
}

fn observe(ballot: u64, generation: u64, vacant: bool, sim: u64) -> LogRecord {
    let mut record = LogRecord::new(OpKind::Observe);
    record.local_nanos = sim;
    record.sim_nanos = sim;
    record.lease_nanos = if vacant { 0 } else { LEASE };
    observed(&mut record, ballot, generation, vacant);
    record
}

fn fenced_write(ballot: u64, outcome: Outcome, sim: u64) -> LogRecord {
    let mut record = LogRecord::new(OpKind::FencedWrite);
    record.ballot = ballot;
    record.outcome = outcome;
    record.local_nanos = sim;
    record.sim_nanos = sim;
    record
}

fn belief_begin(client_id: i32, ballot: u64, sim: u64, horizon: u64) -> LogRecord {
    let mut record = LogRecord::new(OpKind::BeliefBegin);
    record.ballot = ballot;
    record.token = token(client_id as u8 + 1);
    record.local_nanos = sim;
    record.sim_nanos = sim;
    record.horizon_nanos = horizon;
    record.lease_nanos = LEASE;
    record
}

fn belief_end(client_id: i32, ballot: u64, sim: u64) -> LogRecord {
    let mut record = LogRecord::new(OpKind::BeliefEnd);
    record.ballot = ballot;
    record.token = token(client_id as u8 + 1);
    record.local_nanos = sim;
    record.sim_nanos = sim;
    record
}

/// The marker a paused client leaves before it touches its stale term
fn sleeper_woke(ballot: u64, sim: u64) -> LogRecord {
    let mut record = LogRecord::new(OpKind::SleeperWoke);
    record.ballot = ballot;
    record.local_nanos = sim;
    record.sim_nanos = sim;
    record
}

fn sample() -> LogRecord {
    let mut record = LogRecord::new(OpKind::Steal);
    record.outcome = Outcome::Rejected;
    record.attempt_id = 17;
    record.token = token(9);
    record.ballot = 42;
    record.generation = 7;
    record.observed = Some(ObservedIdentity {
        ballot: 41,
        generation: 3,
        vacant: true,
    });
    record.leader_record_written = true;
    record.recovery_noop = true;
    record.maybe_committed = true;
    record.superseded = true;
    record.local_nanos = 123_456_789;
    record.sim_nanos = 987_654_321;
    record.observation_start_nanos = Some(555);
    record.lease_nanos = LEASE;
    record.horizon_nanos = 42 * SEC;
    record
}

#[test]
fn every_field_survives_a_round_trip() {
    let record = sample();
    assert_eq!(LogRecord::decode(&record.encode()).unwrap(), record);
}

#[test]
fn an_absent_observation_stays_absent() {
    // `Some(0)` and `None` mean very different things to the observation
    // discipline check, so the encoding must not collapse them.
    let mut record = LogRecord::new(OpKind::Claim);
    record.observed = None;
    record.observation_start_nanos = None;
    let decoded = LogRecord::decode(&record.encode()).unwrap();
    assert_eq!(decoded.observed, None);
    assert_eq!(decoded.observation_start_nanos, None);

    record.observation_start_nanos = Some(0);
    record.observed = Some(ObservedIdentity {
        ballot: 0,
        generation: 0,
        vacant: false,
    });
    let decoded = LogRecord::decode(&record.encode()).unwrap();
    assert_eq!(decoded.observation_start_nanos, Some(0));
    assert!(decoded.observed.is_some());
}

#[test]
fn every_op_kind_round_trips_through_its_wire_name() {
    for op in [
        OpKind::Claim,
        OpKind::Steal,
        OpKind::Renew,
        OpKind::Resign,
        OpKind::FencedWrite,
        OpKind::Observe,
        OpKind::BeliefBegin,
        OpKind::BeliefEnd,
        OpKind::InjectedUnknown,
    ] {
        assert_eq!(OpKind::parse(op.as_str()), Some(op));
    }
    assert_eq!(OpKind::parse("nonsense"), None);
}

#[test]
fn an_injected_unknown_marker_may_not_touch_the_leader_record() {
    // The marker is written in a transaction of its own, after the claim it
    // describes committed. Nothing about it is a transition, and replay
    // treats an op that says otherwise as an anomaly.
    assert!(!OpKind::InjectedUnknown.touches_leader_record());
    for op in [OpKind::Claim, OpKind::Steal, OpKind::Renew, OpKind::Resign] {
        assert!(op.touches_leader_record());
    }
}

#[test]
fn a_key_round_trips_and_orders_by_commit() {
    let subspace = log_subspace();
    // The incomplete versionstamp is what the mutation resolves; a decoded
    // key must still yield the client and op number the writer put there.
    let key = incomplete_log_key(&subspace, 3, 17);
    let mut resolved = key.clone();
    // Strip the 4-byte offset suffix the versionstamp mutation consumes.
    resolved.truncate(resolved.len() - 4);
    // Fill the incomplete stamp with a plausible commit version.
    let stamp_start = resolved.len() - 12 - 2 - 1;
    resolved[stamp_start..stamp_start + 10].copy_from_slice(&[7u8; 10]);

    let record = LogRecord::new(OpKind::Observe);
    let entry = LogEntry::decode(&subspace, &resolved, &record.encode()).unwrap();
    assert_eq!(entry.client_id, 3);
    assert_eq!(entry.op_num, 17);
    assert_eq!(entry.record.op, OpKind::Observe);
}

#[test]
fn malformed_values_are_rejected_loudly() {
    assert!(LogRecord::decode(&[]).is_err());
    assert!(LogRecord::decode(b"not a tuple at all").is_err());

    // A future schema version must not be read as if it were this one.
    let mut bytes = LogRecord::new(OpKind::Claim).encode();
    // The version is the first packed element: a 1-byte integer code plus
    // its payload. Bumping the payload bumps the version.
    let version_byte = bytes
        .iter()
        .position(|b| *b == LOG_SCHEMA_VERSION as u8)
        .expect("the schema version is encoded verbatim");
    bytes[version_byte] = 9;
    assert!(LogRecord::decode(&bytes).is_err());
}

#[test]
fn the_injected_recovery_fixture_carries_both_resolutions() {
    let entries = injected_recovery_log();
    assert_eq!(
        entries
            .iter()
            .filter(|entry| entry.record.op == OpKind::InjectedUnknown)
            .count(),
        2
    );
    assert_eq!(
        entries
            .iter()
            .filter(|entry| entry.record.recovery_noop)
            .count(),
        1
    );
    assert_eq!(
        entries
            .iter()
            .filter(|entry| entry.record.superseded)
            .count(),
        1
    );
    for entry in &entries {
        let decoded = LogRecord::decode(&entry.record.encode()).unwrap();
        assert_eq!(decoded, entry.record);
    }
}

#[test]
fn the_clean_fixture_is_ordered_and_decodable() {
    let entries = clean_log();
    assert!(entries.len() > 15, "the fixture should be a real run");
    for entry in &entries {
        let decoded = LogRecord::decode(&entry.record.encode()).unwrap();
        assert_eq!(decoded, entry.record);
    }
    // Versionstamps stand in for commit order in the fixtures.
    for pair in entries.windows(2) {
        assert!(pair[0].versionstamp < pair[1].versionstamp);
    }
}

fn replay_clean() -> Replay {
    replay(&clean_log(), leader_id)
}

#[test]
fn a_claim_renew_resign_sequence_ends_vacant_at_the_same_ballot() {
    let mut log = LogBuilder::new();
    log.push(0, write(OpKind::Claim, 1, 0, 1, SEC));
    log.push(0, write(OpKind::Renew, 1, 1, 1, 2 * SEC));
    log.push(0, write(OpKind::Renew, 1, 2, 1, 3 * SEC));
    log.push(0, resign(1, 2, 1, 4 * SEC));

    let out = replay(log.entries(), leader_id);
    let state = out.final_state.expect("the log wrote a record");
    assert!(state.is_vacant());
    assert_eq!(state.ballot, 1, "a resign preserves the ballot");
    assert_eq!(state.generation, 2);
    assert_eq!(out.transitions.len(), 4);
    assert_eq!(out.terms.len(), 1);
    assert_eq!(out.terms[0].renewals, vec![1, 2]);
    assert_eq!(out.terms[0].end, Some(3));
}

#[test]
fn a_vacant_record_is_reclaimed_at_the_next_ballot() {
    let mut log = LogBuilder::new();
    log.push(0, write(OpKind::Claim, 1, 0, 1, SEC));
    log.push(0, resign(1, 0, 1, 2 * SEC));
    let mut reclaim = write(OpKind::Claim, 2, 0, 2, 3 * SEC);
    observed(&mut reclaim, 1, 0, true);
    log.push(1, reclaim);

    let out = replay(log.entries(), leader_id);
    let state = out.final_state.expect("the log wrote a record");
    assert_eq!(state.ballot, 2);
    assert_eq!(state.leader_id, leader_id(1));
    assert!(!state.is_vacant());
    assert_eq!(out.terms.len(), 2);
    assert_eq!(out.terms[1].client_id, 1);
}

#[test]
fn a_steal_closes_the_victims_term() {
    let out = replay_clean();
    let stolen = out
        .terms
        .iter()
        .find(|term| term.ballot == 2)
        .expect("client 1 held ballot 2");
    let stealer = out
        .terms
        .iter()
        .find(|term| term.ballot == 3)
        .expect("client 2 stole ballot 3");
    assert_eq!(stolen.end, Some(stealer.start));
    assert_eq!(stealer.client_id, 2);
    assert_eq!(out.final_state.as_ref().unwrap(), &clean_snapshot());
}

#[test]
fn a_recovered_unknown_commit_is_not_a_second_transition() {
    // The whole point of `leader_record_written`: the recovery reports the
    // same ballot and the same token as the claim it recovered, and replay
    // must not read that as two applied claims.
    let out = replay_clean();
    let claims: Vec<_> = out
        .transitions
        .iter()
        .filter(|t| t.kind == TransitionKind::Claim && t.ballot == 2)
        .collect();
    assert_eq!(claims.len(), 1);

    // Flipping just that flag is what would double-count it.
    let mut entries = clean_log();
    let recovery = entries
        .iter_mut()
        .find(|entry| entry.record.recovery_noop)
        .expect("the fixture contains a recovery");
    recovery.record.leader_record_written = true;
    let mutated = replay(&entries, leader_id);
    assert_eq!(
        mutated
            .transitions
            .iter()
            .filter(|t| t.kind == TransitionKind::Claim && t.ballot == 2)
            .count(),
        2
    );
    assert!(!mutated.anomalies.is_empty());
}

#[test]
fn an_injected_unknown_marker_is_not_a_transition() {
    // The marker says a reply was thrown away, not that anything was
    // written: the claim it follows is the only transition of the pair, and
    // counting the marker would put the log one acquisition ahead of the
    // database.
    let entries = injected_recovery_log();
    let out = replay(&entries, leader_id);
    assert!(out.anomalies.is_empty(), "{:?}", out.anomalies);
    assert_eq!(
        out.final_state.as_ref(),
        Some(&injected_recovery_snapshot())
    );

    let markers: Vec<usize> = entries
        .iter()
        .enumerate()
        .filter(|(_, entry)| entry.record.op == OpKind::InjectedUnknown)
        .map(|(index, _)| index)
        .collect();
    assert_eq!(markers.len(), 2);
    for index in markers {
        assert!(out.transitions.iter().all(|t| t.index != index));
    }
    // Three claims and a steal: neither the adoption nor the superseded
    // re-probe is among them.
    assert_eq!(
        out.transitions
            .iter()
            .filter(|t| t.kind.is_acquisition())
            .count(),
        4
    );
}

#[test]
fn rejected_operations_leave_the_state_alone() {
    let out = replay_clean();
    // The paused client's stale renewal is in the log and changed nothing.
    let stale = clean_log()
        .iter()
        .position(|entry| {
            entry.record.outcome == Outcome::Rejected && entry.record.op == OpKind::Renew
        })
        .expect("the fixture contains a rejected renewal");
    assert!(out.transitions.iter().all(|t| t.index != stale));
    assert_eq!(out.final_state.as_ref().unwrap().ballot, 3);
}

#[test]
fn beliefs_are_paired_and_extended_by_renewals() {
    let out = replay_clean();
    assert_eq!(out.beliefs.len(), 3);

    let first = &out.beliefs[0];
    assert_eq!(first.client_id, 0);
    assert_eq!(first.end_sim_nanos, Some(6 * SEC));
    // The renewal's belief-begin pushed the horizon out.
    assert_eq!(first.horizon_nanos, 13 * SEC);

    // Client 1 was killed and never reported an end, so its belief is
    // bounded by the horizon it had computed.
    let crashed = &out.beliefs[1];
    assert_eq!(crashed.end_sim_nanos, None);
    assert_eq!(crashed.effective_end_sim_nanos(), 15 * SEC + 4 * SEC / 10);
}

#[test]
fn an_unmatched_belief_end_is_an_anomaly() {
    let mut log = LogBuilder::new();
    log.push(0, belief_end(0, 1, SEC));
    let out = replay(log.entries(), leader_id);
    assert_eq!(out.anomalies.len(), 1);
    assert!(out.beliefs.is_empty());
}

#[test]
fn an_op_that_cannot_write_the_record_but_says_it_did_is_an_anomaly() {
    let mut log = LogBuilder::new();
    let mut record = LogRecord::new(OpKind::FencedWrite);
    record.leader_record_written = true;
    log.push(0, record);
    let out = replay(log.entries(), leader_id);
    assert_eq!(out.anomalies.len(), 1);
    assert!(out.transitions.is_empty());
}

#[test]
fn the_state_before_an_entry_is_what_the_entry_read() {
    let out = replay_clean();
    let entries = clean_log();
    for (index, entry) in entries.iter().enumerate() {
        let observed = match entry.record.observed {
            Some(observed) => observed,
            None => continue,
        };
        // Every fixture op read the state replay says was there.
        match &out.states_before[index] {
            Some(state) => assert_eq!(
                state.identity(),
                observed,
                "entry {index} ({}) observed a state replay does not have",
                entry.record.op.as_str()
            ),
            None => panic!("entry {index} observed a record that replay says was absent"),
        }
    }
}

#[test]
fn transition_producing_finds_the_write_behind_an_observation() {
    let out = replay_clean();
    let steal = out
        .transitions
        .iter()
        .find(|t| t.kind == TransitionKind::Steal)
        .expect("the fixture contains a steal");
    let source = out
        .transition_producing(steal.observed.unwrap(), steal.index)
        .expect("the observed identity was written by somebody");
    assert_eq!(source.kind, TransitionKind::Renew);
    assert_eq!(source.ballot, 2);
    assert_eq!(source.generation, 3);
}

fn thresholds() -> ProgressThresholds {
    ProgressThresholds {
        min_acquisitions: 3,
        min_renewals: 3,
        min_observed_identities: 4,
        renew_interval: Duration::from_nanos(LEASE / 3),
        min_recoveries: 0,
    }
}

/// What a run that drew the forced-recovery feature has to show
fn recovery_thresholds() -> ProgressThresholds {
    ProgressThresholds {
        min_acquisitions: 4,
        min_renewals: 2,
        min_observed_identities: 3,
        renew_interval: Duration::from_nanos(LEASE / 3),
        min_recoveries: 1,
    }
}

/// Replay a log the way the check phase does
fn replayed(entries: &[LogEntry]) -> Replay {
    replay(entries, leader_id)
}

fn inputs<'a>(
    entries: &'a [LogEntry],
    out: &'a Replay,
    snapshot: &'a ExpectedRecord,
    history: &'a [HistoryEntry],
    thresholds: ProgressThresholds,
) -> CheckInputs<'a> {
    CheckInputs {
        entries,
        replay: out,
        snapshot: Some(snapshot),
        history,
        tolerances: Tolerances::strict(),
        thresholds,
    }
}

/// Assert the invariant failed, *and* that it failed for the reason the
/// test set out to provoke.
///
/// Without the second half, a mutation that happens to trip some unrelated
/// check would look like a passing falsification test, and the invariant
/// under test could quietly become a tautology again.
fn assert_failed(report: &InvariantReport, because: &str) {
    assert!(
        !report.passed(),
        "{} passed on a log built to break it",
        report.name
    );
    assert!(
        report
            .violations
            .iter()
            .any(|violation| violation.detail.contains(because)),
        "{} failed, but not for the reason under test ({because:?}): {:?}",
        report.name,
        report.violations
    );
}

fn find(entries: &[LogEntry], predicate: impl Fn(&LogEntry) -> bool) -> usize {
    entries
        .iter()
        .position(predicate)
        .expect("the fixture contains the entry this test mutates")
}


#[test]
fn a_well_behaved_run_satisfies_every_invariant() {
    let entries = clean_log();
    let out = replayed(&entries);
    let snapshot = clean_snapshot();
    let history = clean_history();
    for report in check_all(&inputs(&entries, &out, &snapshot, &history, thresholds())) {
        assert!(
            report.passed(),
            "{} failed on the clean log: {:?}",
            report.name,
            report.violations
        );
    }
}

#[test]
fn a_run_that_forced_two_unknown_commits_satisfies_every_invariant() {
    // Both resolutions in one log: an adoption and a retirement, each
    // following an injected marker, with no slack spent anywhere.
    let entries = injected_recovery_log();
    let out = replayed(&entries);
    let snapshot = injected_recovery_snapshot();
    let history = injected_recovery_history();
    for report in check_all(&inputs(
        &entries,
        &out,
        &snapshot,
        &history,
        recovery_thresholds(),
    )) {
        assert!(
            report.passed(),
            "{} failed on the injected-recovery log: {:?}",
            report.name,
            report.violations
        );
    }
}


#[test]
fn dual_path_replay_catches_a_database_that_moved_on_its_own() {
    let entries = clean_log();
    let out = replayed(&entries);
    assert!(dual_path_replay(&out, Some(&clean_snapshot())).passed());

    // A write nobody logged: the database is one ballot ahead.
    let mut snapshot = clean_snapshot();
    snapshot.ballot += 1;
    assert_failed(
        &dual_path_replay(&out, Some(&snapshot)),
        "the database holds",
    );

    // And a logged write that never landed.
    assert_failed(&dual_path_replay(&out, None), "the database holds");
}

#[test]
fn dual_path_replay_catches_a_self_contradictory_entry() {
    let mut entries = clean_log();
    let fenced = find(&entries, |entry| entry.record.op == OpKind::FencedWrite);
    entries[fenced].record.leader_record_written = true;

    let out = replayed(&entries);
    assert_failed(
        &dual_path_replay(&out, Some(&clean_snapshot())),
        "cannot write the leader record",
    );
}


#[test]
fn ballot_succession_catches_a_ballot_that_reset() {
    let mut entries = clean_log();
    let reclaim = find(&entries, |entry| {
        entry.record.op == OpKind::Claim && entry.record.ballot == 2
    });
    entries[reclaim].record.ballot = 1;

    assert_failed(
        &ballot_succession(&replayed(&entries)),
        "ballots never reset and never skip",
    );
}

#[test]
fn ballot_succession_catches_a_ballot_that_skipped() {
    let mut entries = clean_log();
    let steal = find(&entries, |entry| entry.record.op == OpKind::Steal);
    entries[steal].record.ballot = 5;

    assert_failed(
        &ballot_succession(&replayed(&entries)),
        "ballots never reset and never skip",
    );
}

#[test]
fn ballot_succession_catches_a_renewal_that_moved_the_ballot() {
    let mut entries = clean_log();
    let renew = find(&entries, |entry| {
        entry.record.op == OpKind::Renew && entry.record.leader_record_written
    });
    entries[renew].record.ballot += 1;

    assert_failed(
        &ballot_succession(&replayed(&entries)),
        "a renewal keeps ballot",
    );
}

#[test]
fn ballot_succession_catches_a_renewal_that_skipped_a_generation() {
    let mut entries = clean_log();
    let renew = find(&entries, |entry| {
        entry.record.op == OpKind::Renew && entry.record.leader_record_written
    });
    entries[renew].record.generation += 1;

    assert_failed(
        &ballot_succession(&replayed(&entries)),
        "a renewal adds exactly one generation",
    );
}

#[test]
fn ballot_succession_catches_a_write_decided_on_a_stale_read() {
    let mut entries = clean_log();
    let steal = find(&entries, |entry| entry.record.op == OpKind::Steal);
    let observed = entries[steal]
        .record
        .observed
        .as_mut()
        .expect("a steal records what it read");
    observed.generation -= 1;

    assert_failed(&ballot_succession(&replayed(&entries)), "stale read");
}


#[test]
fn one_claim_per_ballot_catches_two_holders_of_one_term() {
    let mut entries = clean_log();
    let steal = find(&entries, |entry| entry.record.op == OpKind::Steal);
    // A second process lands the same ballot: both now hold ranks that
    // neither dominates.
    let mut duplicate = entries[steal].clone();
    duplicate.client_id = 0;
    duplicate.record.token = token(7);
    duplicate.record.sim_nanos += SEC;
    entries.insert(steal + 1, duplicate);

    assert_failed(
        &one_claim_per_ballot(&replayed(&entries)),
        "was acquired twice",
    );
}


#[test]
fn a_capped_report_still_fails_and_says_what_it_dropped() {
    let mut violations = Violations::new();
    for index in 0..(MAX_VIOLATIONS_KEPT * 3) {
        violations.push(Violation::at(index, "broke it".to_owned()));
    }
    let report = violations.into_report("Bounded");

    assert!(!report.passed(), "a capped report must still fail the run");
    assert_eq!(
        report.violations.len(),
        MAX_VIOLATIONS_KEPT + 1,
        "everything kept, plus the one line counting the rest"
    );
    let last = report.violations.last().expect("the remainder line");
    assert!(
        last.detail
            .contains(&format!("{} were found", MAX_VIOLATIONS_KEPT * 3)),
        "the remainder must name the real total, got {:?}",
        last.detail
    );
    assert!(last.indices.is_empty(), "the remainder names no entry");
}

#[test]
fn a_report_under_the_cap_is_untouched() {
    let mut violations = Violations::new();
    violations.push(Violation::at(7, "broke it".to_owned()));
    let report = violations.into_report("Bounded");
    assert_eq!(report.violations, vec![Violation::at(7, "broke it".to_owned())]);

    // And an invariant that held reports nothing at all, remainder line
    // included: the cap must not turn a pass into a failure.
    assert!(Violations::new().into_report("Bounded").passed());
}

#[test]
fn one_violation_cannot_name_an_unbounded_number_of_entries() {
    let indices = Violations::indices((0..10_000).collect());
    assert_eq!(indices.len(), MAX_INDICES_KEPT);
    assert_eq!(indices[0], 0, "the first are the ones a reader needs");
}


#[test]
fn no_belief_overlap_catches_two_leaders_believing_at_once() {
    let entries = clean_log();
    assert!(no_belief_overlap(&replayed(&entries), &Tolerances::strict()).passed());

    // The successor starts believing while the predecessor still does.
    let mut entries = clean_log();
    let successor = find(&entries, |entry| {
        entry.record.op == OpKind::BeliefBegin && entry.record.ballot == 2
    });
    entries[successor].record.sim_nanos = 3 * SEC;
    entries[successor].record.local_nanos = 3 * SEC;

    assert_failed(
        &no_belief_overlap(&replayed(&entries), &Tolerances::strict()),
        "of overlap",
    );
}

#[test]
fn no_belief_overlap_holds_a_killed_leader_to_its_horizon() {
    // Client 1 is killed without ever reporting an end. Pushing its horizon
    // past the moment client 2 starts believing is exactly the failure a
    // too-generous hard-stop would produce.
    let mut entries = clean_log();
    let crashed = find(&entries, |entry| {
        entry.record.op == OpKind::BeliefBegin && entry.record.ballot == 2
    });
    entries[crashed].record.horizon_nanos = 30 * SEC;

    assert_failed(
        &no_belief_overlap(&replayed(&entries), &Tolerances::strict()),
        "of overlap",
    );
}

#[test]
fn belief_overlap_tolerance_is_only_spent_where_a_configuration_allows_it() {
    let mut entries = clean_log();
    let successor = find(&entries, |entry| {
        entry.record.op == OpKind::BeliefBegin && entry.record.ballot == 3
    });
    // A tenth of a second of overlap with the crashed leader's horizon: a
    // violation with identical clocks, inside the budget once a 5% rate
    // error is admitted over a ten second lease.
    entries[successor].record.sim_nanos = 15 * SEC + 3 * SEC / 10;
    let out = replayed(&entries);

    assert_failed(&no_belief_overlap(&out, &Tolerances::strict()), "of overlap");
    let generous = from_clock_rate_error(Duration::from_nanos(LEASE), 0.05);
    assert!(no_belief_overlap(&out, &generous).passed());
}


#[test]
fn steal_discipline_catches_a_window_shorter_than_the_lease() {
    let mut entries = clean_log();
    let steal = find(&entries, |entry| entry.record.op == OpKind::Steal);
    // Started timing five seconds late: half a lease of observation.
    entries[steal].record.observation_start_nanos = Some(13 * SEC);

    let out = replayed(&entries);
    assert_failed(
        &steal_observation_discipline(&entries, &out, &Tolerances::strict()),
        "advertised a lease of",
    );
}

#[test]
fn steal_discipline_catches_an_interrupted_window() {
    // The victim renewed inside the window: the taker was timing a record
    // that had already moved.
    let mut entries = clean_log();
    let steal = find(&entries, |entry| entry.record.op == OpKind::Steal);
    let renewal = LogEntry {
        versionstamp: entries[steal].versionstamp,
        client_id: 1,
        op_num: 999,
        record: write(OpKind::Renew, 2, 4, 2, 15 * SEC),
    };
    entries.insert(steal, renewal);
    // The taker still writes what the (now stale) record it timed implies.
    entries[steal + 1].record.generation = 4;

    let out = replayed(&entries);
    assert_failed(
        &steal_observation_discipline(&entries, &out, &Tolerances::strict()),
        "inside the observation window",
    );
}

#[test]
fn steal_discipline_catches_a_steal_with_no_window_at_all() {
    let mut entries = clean_log();
    let steal = find(&entries, |entry| entry.record.op == OpKind::Steal);
    entries[steal].record.observation_start_nanos = None;

    let out = replayed(&entries);
    assert_failed(
        &steal_observation_discipline(&entries, &out, &Tolerances::strict()),
        "without an observation window",
    );
}

#[test]
fn steal_discipline_spends_its_tolerance_on_clock_rate_error_only() {
    let mut entries = clean_log();
    let steal = find(&entries, |entry| entry.record.op == OpKind::Steal);
    // A tenth of a second short of a full lease.
    entries[steal].record.observation_start_nanos = Some(8 * SEC + 4 * SEC / 10);
    let out = replayed(&entries);

    assert_failed(
        &steal_observation_discipline(&entries, &out, &Tolerances::strict()),
        "advertised a lease of",
    );
    let generous = from_clock_rate_error(Duration::from_nanos(LEASE), 0.01);
    assert!(steal_observation_discipline(&entries, &out, &generous).passed());
}


#[test]
fn vacant_reclaim_catches_a_resign_that_reset_the_ballot() {
    let mut entries = clean_log();
    let resign = find(&entries, |entry| entry.record.op == OpKind::Resign);
    entries[resign].record.ballot = 0;

    assert_failed(
        &vacant_reclaim(&replayed(&entries)),
        "a resign preserves ballot",
    );
}

#[test]
fn vacant_reclaim_catches_a_claim_over_a_live_record() {
    // A claim skips the observation window entirely, so taking a held
    // record with one is the instant-override defect.
    let mut entries = clean_log();
    let steal = find(&entries, |entry| entry.record.op == OpKind::Steal);
    entries[steal].record.op = OpKind::Claim;

    assert_failed(
        &vacant_reclaim(&replayed(&entries)),
        "claimed a held record",
    );
}

#[test]
fn vacant_reclaim_catches_a_steal_of_a_resigned_term() {
    let mut entries = clean_log();
    let reclaim = find(&entries, |entry| {
        entry.record.op == OpKind::Claim && entry.record.ballot == 2
    });
    entries[reclaim].record.op = OpKind::Steal;

    assert_failed(
        &vacant_reclaim(&replayed(&entries)),
        "stole a vacant record",
    );
}


#[test]
fn fencing_holds_catches_the_paused_leaders_write_landing() {
    let mut entries = clean_log();
    let stale = find(&entries, |entry| {
        entry.record.op == OpKind::FencedWrite && entry.record.outcome == Outcome::Rejected
    });
    entries[stale].record.outcome = Outcome::Applied;

    assert_failed(
        &fencing_holds(&entries, &replayed(&entries)),
        "already moved to",
    );
}

#[test]
fn fencing_holds_catches_a_write_at_somebody_elses_ballot() {
    let mut entries = clean_log();
    let fenced = find(&entries, |entry| {
        entry.record.op == OpKind::FencedWrite && entry.record.outcome == Outcome::Applied
    });
    entries[fenced].client_id = 2;

    assert_failed(&fencing_holds(&entries, &replayed(&entries)), "held ballot");
}


#[test]
fn sleeper_was_fenced_catches_a_scenario_that_never_ran() {
    let entries = clean_log();
    assert!(sleeper_was_fenced(&entries).passed());

    // The defect this exists for, and the one `FencingHolds` cannot see:
    // the Sleeper passes its barrier and then never touches its stale term,
    // so there is no applied write at a stale ballot for the fencing check
    // to object to, and the run passes having proved nothing.
    let mut entries = clean_log();
    entries.retain(|entry| {
        !(entry.client_id == 1
            && entry.record.ballot == 2
            && matches!(entry.record.op, OpKind::FencedWrite | OpKind::Renew)
            && entry.record.outcome == Outcome::Rejected)
    });
    assert!(
        fencing_holds(&entries, &replayed(&entries)).passed(),
        "the safety half is exactly what stays silent here"
    );
    assert_failed(&sleeper_was_fenced(&entries), "never attempted the stale");
}

#[test]
fn sleeper_was_fenced_catches_each_missing_operation_on_its_own() {
    // Only the write goes missing.
    let mut entries = clean_log();
    entries.retain(|entry| {
        !(entry.client_id == 1
            && entry.record.op == OpKind::FencedWrite
            && entry.record.outcome == Outcome::Rejected)
    });
    assert_failed(
        &sleeper_was_fenced(&entries),
        "never attempted the stale fenced write",
    );

    // Only the renewal goes missing.
    let mut entries = clean_log();
    entries.retain(|entry| {
        !(entry.client_id == 1
            && entry.record.op == OpKind::Renew
            && entry.record.outcome == Outcome::Rejected)
    });
    assert_failed(
        &sleeper_was_fenced(&entries),
        "never attempted the stale renewal",
    );
}

#[test]
fn sleeper_was_fenced_catches_a_stale_operation_that_was_not_refused() {
    let mut entries = clean_log();
    let stale = find(&entries, |entry| {
        entry.client_id == 1
            && entry.record.op == OpKind::FencedWrite
            && entry.record.outcome == Outcome::Rejected
    });
    entries[stale].record.outcome = Outcome::Applied;

    assert_failed(&sleeper_was_fenced(&entries), "was applied rather than");
}

#[test]
fn sleeper_was_fenced_demands_nothing_of_a_run_without_one() {
    // No marker, no demand. A run that drew no Sleeper, and one whose
    // Sleeper was killed before its barrier, both look like this, and
    // neither is a failure: attrition is a scenario that did not happen.
    let mut entries = clean_log();
    entries.retain(|entry| entry.record.op != OpKind::SleeperWoke);
    assert!(sleeper_was_fenced(&entries).passed());

    assert!(sleeper_was_fenced(&[]).passed());
}

#[test]
fn sleeper_was_fenced_ignores_what_the_term_did_while_it_was_live() {
    // The stale operations follow the marker. A fenced write the Sleeper
    // made at the same ballot *before* pausing is the term acting while it
    // still held, and counting it would let a run pass on evidence from
    // before the pause.
    let mut entries = clean_log();
    let marker = find(&entries, |entry| entry.record.op == OpKind::SleeperWoke);
    let live_write = {
        let mut record = fenced_write(2, Outcome::Applied, 7 * SEC);
        record.local_nanos = 7 * SEC;
        record
    };
    entries.insert(
        marker,
        LogEntry {
            client_id: 1,
            op_num: 0,
            versionstamp: [0u8; 12],
            record: live_write,
        },
    );
    // Now remove the genuinely stale write: only the pre-pause one is left.
    entries.retain(|entry| {
        !(entry.client_id == 1
            && entry.record.op == OpKind::FencedWrite
            && entry.record.outcome == Outcome::Rejected)
    });

    assert_failed(
        &sleeper_was_fenced(&entries),
        "never attempted the stale fenced write",
    );
}


#[test]
fn uuid_recovery_catches_a_recovered_claim_written_twice() {
    // The unknown-commit path: the retry must adopt the record it already
    // wrote. Writing again consumes a second ballot under one token.
    let mut entries = clean_log();
    let recovery = find(&entries, |entry| entry.record.recovery_noop);
    entries[recovery].record.leader_record_written = true;
    entries[recovery].record.recovery_noop = false;
    entries[recovery].record.ballot = 3;

    assert_failed(
        &uuid_recovery_no_dup(&entries, &replayed(&entries)),
        "claimed twice under one token",
    );
}

#[test]
fn uuid_recovery_catches_a_recovery_that_wrote() {
    let mut entries = clean_log();
    let recovery = find(&entries, |entry| entry.record.recovery_noop);
    entries[recovery].record.leader_record_written = true;

    assert_failed(
        &uuid_recovery_no_dup(&entries, &replayed(&entries)),
        "wrote a second time",
    );
}

#[test]
fn uuid_recovery_catches_a_retired_token_claiming_again() {
    // A retirement is terminal: the attempt may have written a record
    // somebody else now owns, so the token cannot come back. Here it comes
    // back as an adoption, which is the shape that would silently give one
    // client two accounts of the same term.
    let mut entries = injected_recovery_log();
    let adoption = find(&entries, |entry| entry.record.recovery_noop);
    let mut again = entries[adoption].clone();
    again.client_id = 1;
    again.record.token = token(2);
    again.versionstamp = [0xff; 12];
    entries.push(again);

    assert_failed(
        &uuid_recovery_no_dup(&entries, &replayed(&entries)),
        "under a token retired at entry",
    );
}

#[test]
fn uuid_recovery_catches_a_superseded_entry_that_wrote() {
    let mut entries = injected_recovery_log();
    let retired = find(&entries, |entry| entry.record.superseded);
    entries[retired].record.leader_record_written = true;
    assert_failed(
        &uuid_recovery_no_dup(&entries, &replayed(&entries)),
        "a retirement is terminal",
    );

    // And a retirement that reports success: the attempt won nothing, and
    // an applied outcome here is what would make replay count it as a term.
    let mut entries = injected_recovery_log();
    entries[retired].record.outcome = Outcome::Applied;
    assert_failed(
        &uuid_recovery_no_dup(&entries, &replayed(&entries)),
        "a retired attempt wins nothing",
    );
}

#[test]
fn uuid_recovery_catches_a_superseded_recovery_noop_contradiction() {
    // The two resolutions are exclusive: an attempt either found its own
    // record or found a stranger. An entry claiming both would let a run
    // pass the resolution count while describing something impossible.
    let mut entries = injected_recovery_log();
    let retired = find(&entries, |entry| entry.record.superseded);
    entries[retired].record.recovery_noop = true;

    assert_failed(
        &uuid_recovery_no_dup(&entries, &replayed(&entries)),
        "both adopted and superseded",
    );
}


#[test]
fn progress_made_catches_a_run_where_nothing_happened() {
    let entries: Vec<LogEntry> = Vec::new();
    let out = replayed(&entries);
    assert_failed(
        &progress_made(&entries, &out, &thresholds()),
        "applied claims and steals",
    );
}

#[test]
fn progress_made_catches_a_run_that_only_ever_elected_once() {
    let mut log = LogBuilder::new();
    log.push(0, write(OpKind::Claim, 1, 0, 1, SEC));
    let entries = log.into_entries();
    let out = replayed(&entries);
    assert_failed(
        &progress_made(&entries, &out, &thresholds()),
        "applied claims and steals",
    );
}

#[test]
fn progress_made_catches_a_leader_that_lived_long_enough_to_renew_and_did_not() {
    // Every belief in the clean log outlives its renewal deadline, so the
    // floor applies in full: losing the renewals is a defect, not bad luck.
    let entries: Vec<LogEntry> = clean_log()
        .into_iter()
        .filter(|entry| entry.record.op != OpKind::Renew)
        .collect();
    let out = replayed(&entries);
    assert_failed(
        &progress_made(&entries, &out, &thresholds()),
        "outlived their renewal deadline",
    );
}

#[test]
fn progress_made_excuses_a_run_that_never_got_the_chance_to_renew() {
    // The hostile configurations produce honest runs like this one: the
    // cluster spends the window in recovery, each claim takes most of its
    // lease just to commit, and the belief that comes out of it is nearly
    // over before it begins. Nobody ever reaches a renewal deadline, and a
    // flat floor would fail the run for the cluster's behaviour.
    let thresholds = ProgressThresholds {
        min_acquisitions: 2,
        min_renewals: 3,
        min_observed_identities: 0,
        renew_interval: Duration::from_nanos(LEASE / 3),
        min_recoveries: 0,
    };

    let mut log = LogBuilder::new();
    log.push(0, write(OpKind::Claim, 1, 0, 1, 9 * SEC));
    // Anchored at zero, committed at nine: one second of horizon survives,
    // and the leader is killed without ever reporting an end.
    log.push(0, belief_begin(0, 1, 9 * SEC, 10 * SEC));
    let mut steal = write(OpKind::Steal, 2, 0, 2, 20 * SEC);
    steal.observation_start_nanos = Some(10 * SEC);
    observed(&mut steal, 1, 0, false);
    log.push(1, steal);
    log.push(1, belief_begin(1, 2, 20 * SEC, 21 * SEC));

    let mut entries = log.into_entries();
    let out = replayed(&entries);
    assert!(
        progress_made(&entries, &out, &thresholds).passed(),
        "a run in which nobody reached a renewal deadline must not be held to the floor"
    );

    // The condition is a condition, not an escape hatch: one belief that
    // does outlive its deadline brings the floor back.
    let belief = find(&entries, |entry| entry.record.op == OpKind::BeliefBegin);
    entries[belief].record.horizon_nanos = 19 * SEC;
    let out = replayed(&entries);
    assert_failed(
        &progress_made(&entries, &out, &thresholds),
        "outlived their renewal deadline",
    );
}

#[test]
fn progress_made_catches_a_blind_watcher() {
    let entries: Vec<LogEntry> = clean_log()
        .into_iter()
        .filter(|entry| entry.record.op != OpKind::Observe)
        .collect();
    let out = replayed(&entries);
    assert_failed(
        &progress_made(&entries, &out, &thresholds()),
        "distinct leader identities",
    );
}


#[test]
fn history_faithful_accepts_a_trimmed_trail() {
    // Retention drops the oldest entries, so a suffix is legitimate.
    let entries = clean_log();
    let out = replayed(&entries);
    let history = clean_history();
    assert!(history_faithful(&out, &history[2..]).passed());
}

#[test]
fn history_faithful_catches_a_transition_missing_from_the_middle() {
    let entries = clean_log();
    let out = replayed(&entries);
    let mut history = clean_history();
    history.remove(1);
    assert_failed(&history_faithful(&out, &history), "the history records");
}

#[test]
fn history_faithful_catches_a_wrong_ballot() {
    let entries = clean_log();
    let out = replayed(&entries);
    let mut history = clean_history();
    history[3].ballot = 9;
    assert_failed(&history_faithful(&out, &history), "the history records");
}

#[test]
fn history_faithful_catches_an_entry_for_a_transition_that_never_happened() {
    let entries = clean_log();
    let out = replayed(&entries);
    let mut history = clean_history();
    history.push(HistoryEntry {
        kind: HistoryKind::Steal,
        ballot: 4,
        leader_id: leader_id(0),
    });
    assert_failed(&history_faithful(&out, &history), "but only");
}

#[test]
fn history_faithful_rejects_a_renewal_that_leaked_into_the_trail() {
    // Renewals are deliberately not recorded: the trail is a rare-event
    // audit trail, and logging every heartbeat would make it a contention
    // point. An extra entry shifts the suffix and is caught.
    let entries = clean_log();
    let out = replayed(&entries);
    let mut history = clean_history();
    history.insert(
        1,
        HistoryEntry {
            kind: HistoryKind::Claim,
            ballot: 1,
            leader_id: leader_id(0),
        },
    );
    assert_failed(&history_faithful(&out, &history), "but only");
}


#[test]
fn recovery_exercised_catches_an_injection_that_never_resolved() {
    // The markers say two replies were thrown away and nothing in the log
    // says either attempt was ever re-probed: the resumption path stopped
    // working, and every safety check about recovery is vacuous.
    let entries: Vec<LogEntry> = injected_recovery_log()
        .into_iter()
        .filter(|entry| !is_resolution(&entry.record))
        .collect();
    let out = replayed(&entries);

    assert_failed(
        &recovery_exercised(&entries, &out, &recovery_thresholds()),
        "was never re-probed",
    );
}

#[test]
fn recovery_exercised_catches_an_injector_that_rotted() {
    // The anti-rot half. The clean log wins terms and carries no marker at
    // all, which for a configuration that drew the feature means the
    // injection is broken rather than the run lucky. Without this the
    // feature could stop firing and every run would still pass.
    let entries = clean_log();
    let out = replayed(&entries);

    assert_failed(
        &recovery_exercised(&entries, &out, &recovery_thresholds()),
        "not one reply was thrown away",
    );
}

#[test]
fn recovery_exercised_is_not_demanded_when_the_feature_was_not_drawn() {
    // Off means the run cannot inject, so demanding a recovery of it would
    // fail honest runs. The same log, judged by a plan that drew nothing.
    let entries = clean_log();
    let out = replayed(&entries);
    assert!(recovery_exercised(&entries, &out, &thresholds()).passed());

    // And a run that did nothing at all is ProgressMade's business: with no
    // term won there was no reply to throw away.
    let empty: Vec<LogEntry> = Vec::new();
    let out = replayed(&empty);
    assert!(recovery_exercised(&empty, &out, &recovery_thresholds()).passed());
}

#[test]
fn recovery_exercised_counts_a_natural_recovery() {
    // The point is that the path ran, not who provoked it: the clean log's
    // own lost reply is a resolution, so a run that recovered naturally and
    // also injected is not held to a second recovery.
    let mut entries = injected_recovery_log();
    let marker = find(&entries, |entry| entry.record.op == OpKind::InjectedUnknown);
    let adoption = find(&entries, |entry| entry.record.recovery_noop);
    entries.remove(adoption);
    let out = replayed(&entries);
    assert!(
        recovery_exercised(&entries, &out, &recovery_thresholds()).passed(),
        "the retirement alone resolves the run"
    );

    // Both markers still there, and the floor is the count of resolutions.
    assert!(entries[marker].record.op == OpKind::InjectedUnknown);
    let demanding = ProgressThresholds {
        min_recoveries: 2,
        ..recovery_thresholds()
    };
    assert_failed(
        &recovery_exercised(&entries, &out, &demanding),
        "expected at least 2",
    );
}


#[test]
fn the_strict_configuration_admits_no_slack_at_all() {
    assert_eq!(Tolerances::strict().belief_overlap, Duration::zero());
    assert_eq!(
        from_clock_rate_error(Duration::from_secs(10), 0.0),
        Tolerances::strict()
    );
    // 0.1% of rate error over ten seconds is just under twenty milliseconds.
    let derived = from_clock_rate_error(Duration::from_secs(10), 1e-3);
    assert!(Duration::from_millis(19).shorter_than(&derived.observation_slack));
    assert!(derived.observation_slack.shorter_than(&Duration::from_millis(20)));
}

#[test]
fn a_resign_writes_no_token() {
    let entries = clean_log();
    let out = replayed(&entries);
    let resigned = out
        .transitions
        .iter()
        .find(|transition| transition.kind == TransitionKind::Resign)
        .expect("the clean log holds a resign");
    assert_eq!(resigned.token, [0; 16]);
    assert_eq!(entries[resigned.index].record.token, token(1));
    let claimed = out
        .transitions
        .iter()
        .find(|transition| transition.kind == TransitionKind::Claim)
        .expect("the clean log holds a claim");
    assert_eq!(claimed.token, token(1));
}

#[test]
fn overlapping_beliefs_are_named_in_commit_order() {
    // The belief committed second says that it began first.
    let mut log = LogBuilder::new();
    log.push(0, write(OpKind::Claim, 1, 0, 1, SEC));
    let early = log.push(0, belief_begin(0, 1, 10 * SEC, 20 * SEC));
    let late = log.push(1, belief_begin(1, 2, 5 * SEC, 15 * SEC));
    let report = no_belief_overlap(&replayed(&log.into_entries()), &Tolerances::strict());
    assert_eq!(report.violations.len(), 1);
    assert_eq!(report.violations[0].indices, vec![early, late]);
}
