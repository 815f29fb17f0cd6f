//! The records that the operations of a run leave.

use recipes_simulation::journal::{
    belief_begin_record, belief_end_record, claim_record, fenced_write_record, identity_of,
    injected_unknown_record, leader_id, observe_record, refresh_record, register_writer,
    resign_record, sleeper_woke_record, stamped, writer_value, Claim, ClaimOutcome, Grant, Standing,
};
use recipes_simulation::log_schema::{LogRecord, ObservedIdentity, OpKind, Outcome};
use recipes_simulation::replay::same_token;

const MINE: [u8; 16] = [1; 16];
const OTHER: [u8; 16] = [2; 16];
const LEASE: u64 = 10_000_000_000;

fn standing(client_id: i32, token: [u8; 16], ballot: u64, generation: u64) -> Option<Standing> {
    Some(Standing {
        leader_id: leader_id(client_id),
        token,
        ballot,
        generation,
        vacant: false,
        lease_nanos: Some(LEASE),
    })
}

fn vacated(ballot: u64, generation: u64) -> Option<Standing> {
    Some(Standing {
        leader_id: String::new(),
        token: [0; 16],
        ballot,
        generation,
        vacant: true,
        lease_nanos: None,
    })
}

fn grant(ballot: u64, generation: u64) -> Grant {
    Grant { token: MINE, ballot, generation, lease_nanos: LEASE }
}

fn claim() -> Claim {
    Claim {
        attempt_id: 5,
        token: MINE,
        maybe_committed: false,
        local_nanos: 77,
        observed_since: Some(11),
    }
}

#[test]
fn a_client_claims_under_its_own_name() {
    assert_eq!(leader_id(3), "process_3");
    assert_eq!(leader_id(-1), "process_-1");
    assert!(same_token(&MINE, &MINE));
    assert!(!same_token(&MINE, &OTHER));
}

#[test]
fn a_claim_of_nothing_is_a_claim_and_of_a_held_record_a_steal() {
    let me = leader_id(1);
    let won = ClaimOutcome::Won(grant(1, 0));
    let record = claim_record(&None, &me, claim(), won);
    let mut expected = LogRecord::new(OpKind::Claim);
    expected.attempt_id = 5;
    expected.token = MINE;
    expected.ballot = 1;
    expected.leader_record_written = true;
    expected.local_nanos = 77;
    expected.observation_start_nanos = Some(11);
    expected.lease_nanos = LEASE;
    assert_eq!(record, expected);

    let record = claim_record(&vacated(4, 2), &me, claim(), ClaimOutcome::Won(grant(5, 2)));
    assert_eq!(record.op, OpKind::Claim);
    assert_eq!(record.ballot, 5);
    assert_eq!(
        record.observed,
        Some(ObservedIdentity { ballot: 4, generation: 2, vacant: true })
    );

    let record = claim_record(&standing(2, OTHER, 4, 2), &me, claim(), ClaimOutcome::Won(grant(5, 2)));
    assert_eq!(record.op, OpKind::Steal);
    assert!(record.leader_record_written);
    assert!(!record.recovery_noop);
}

#[test]
fn a_claim_that_finds_its_own_record_recovers_it() {
    let record = claim_record(
        &standing(1, MINE, 5, 0),
        &leader_id(1),
        claim(),
        ClaimOutcome::Won(grant(5, 0)),
    );
    assert!(record.recovery_noop);
    assert!(!record.leader_record_written);
    assert_eq!(record.outcome, Outcome::Applied);
}

#[test]
fn a_refused_claim_writes_nothing() {
    let me = leader_id(1);
    let held = standing(2, OTHER, 4, 2);
    let record = claim_record(&held, &me, claim(), ClaimOutcome::Denied);
    assert_eq!(record.outcome, Outcome::Rejected);
    assert_eq!((record.ballot, record.generation), (0, 0));
    assert_eq!(record.lease_nanos, LEASE);
    assert!(!record.superseded && !record.leader_record_written);

    let record = claim_record(&held, &me, claim(), ClaimOutcome::Superseded);
    assert_eq!(record.outcome, Outcome::Rejected);
    assert!(record.superseded && !record.leader_record_written);
}

#[test]
fn a_thrown_away_reply_leaves_a_marker() {
    let record = injected_unknown_record(claim(), 9);
    assert_eq!(record.op, OpKind::InjectedUnknown);
    assert_eq!((record.attempt_id, record.ballot, record.token), (5, 9, MINE));
    assert!(!record.leader_record_written);
}

#[test]
fn a_renewal_adds_a_generation_once() {
    let me = leader_id(1);
    let record = refresh_record(&standing(1, MINE, 5, 2), &me, grant(5, 2), 2, true, 88);
    assert_eq!((record.op, record.ballot, record.generation), (OpKind::Renew, 5, 3));
    assert!(record.leader_record_written && !record.recovery_noop);

    // The reply was lost and the renewal is already there.
    let record = refresh_record(&standing(1, MINE, 5, 3), &me, grant(5, 2), 2, true, 88);
    assert!(!record.leader_record_written && record.recovery_noop);

    let record = refresh_record(&standing(2, OTHER, 6, 0), &me, grant(5, 2), 2, false, 88);
    assert_eq!(record.outcome, Outcome::Rejected);
    assert!(!record.leader_record_written && !record.recovery_noop);
}

#[test]
fn a_resignation_keeps_the_identity_it_found() {
    let record = resign_record(&standing(1, MINE, 5, 3), grant(5, 2), true, 99);
    assert_eq!((record.op, record.ballot, record.generation), (OpKind::Resign, 5, 3));
    assert!(record.leader_record_written);
    assert_eq!(record.lease_nanos, 0);

    let record = resign_record(&vacated(5, 3), grant(5, 3), true, 99);
    assert!(record.recovery_noop && !record.leader_record_written);

    let record = resign_record(&None, grant(5, 3), false, 99);
    assert_eq!((record.ballot, record.generation, record.outcome), (5, 3, Outcome::Rejected));
    assert_eq!(record.observed, None);
}

#[test]
fn the_other_records_say_what_happened() {
    let record = fenced_write_record(5, 3, true, 12);
    assert_eq!((record.op, record.ballot, record.generation), (OpKind::FencedWrite, 5, 3));
    assert_eq!(record.outcome, Outcome::Applied);
    assert_eq!(record.token, [0; 16]);
    assert_eq!(fenced_write_record(5, 3, false, 12).outcome, Outcome::Rejected);

    let record = observe_record(&standing(2, OTHER, 4, 2), 13);
    assert_eq!(record.op, OpKind::Observe);
    assert_eq!(record.observed, standing(2, OTHER, 4, 2).as_ref().map(identity_of));
    assert_eq!(record.lease_nanos, LEASE);
    assert_eq!(observe_record(&None, 13).observed, None);

    let record = belief_begin_record(5, MINE, 1_000, LEASE, 14);
    assert_eq!((record.op, record.ballot, record.horizon_nanos), (OpKind::BeliefBegin, 5, 1_000));
    let record = belief_end_record(5, MINE, LEASE, 15);
    assert_eq!((record.op, record.ballot, record.local_nanos), (OpKind::BeliefEnd, 5, 15));

    let record = stamped(record, true, 16);
    assert!(record.maybe_committed);
    assert_eq!(record.sim_nanos, 16);
    assert!(stamped(record, false, 17).maybe_committed);
}

#[test]
fn the_register_names_its_writer() {
    let value = writer_value(3, 7, 2);
    assert_eq!(value, b"\x15\x03\x15\x07\x15\x02");
    assert_eq!(register_writer(&Some(value)), Ok(Some((3, 7, 2))));
    assert_eq!(register_writer(&None), Ok(None));
    assert!(register_writer(&Some(b"garbage".to_vec())).is_err());
}

#[test]
fn a_paused_client_announces_what_it_owes() {
    let record = sleeper_woke_record(4, MINE, 77);
    assert_eq!(record.op, OpKind::SleeperWoke);
    assert_eq!(record.outcome, Outcome::Applied);
    assert_eq!(record.ballot, 4);
    assert!(same_token(&record.token, &MINE));
    assert_eq!(record.local_nanos, 77);
    assert!(!record.leader_record_written);
    let read = LogRecord::decode(&record.encode()).expect("the marker is a record");
    assert_eq!(read.op, OpKind::SleeperWoke);
    assert_eq!(read.ballot, 4);
}
