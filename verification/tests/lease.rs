//! The lease election: what is logged, what is planned, and what is judged.

use recipes_simulation::duration::Duration;
use recipes_simulation::lease_check::{conclude, joined, Conclusion};
use recipes_simulation::lease_driver::{
    count_statuses, marker_key, Barrier, Breach, Mishap, Status,
};
use recipes_simulation::lease_oracle::{
    adopted_after_planned_delay, coverage, is_coherent, is_racer, record_race_takeover,
    renewal_enabled, replay, replay_poll, replay_resign, replay_stale_write, takeover_enabled, validate_reported_poll, CoverageReport, Oracle, ReplayWitnesses,
    FORCED_WITNESS_COUNT, PROBABILISTIC_WITNESS_COUNT, RACE_PARTICIPANT_PREFIX,
};
use recipes_simulation::lease_plan::{
    name_incarnation, participant_text, AdoptionDelay, Plan, SwarmProfile, OPTIONAL_OBSERVER,
    OPTIONAL_RESIGN,
};
use recipes_simulation::lease_records::{
    adoption_instant, planned_follower_adoption_delay, record_observer, record_poll,
    record_resign, record_stale_write, transition_code, FencedWrite, Occasion, PollOutcome,
    PollTransition,
};
use recipes_simulation::lease_types::{
    DurableState, LocalInput, LogEntry, Snapshot, Token, OP_OBSERVE, OP_POLL, OP_RESIGN, OP_STALE_WRITE,
    TRANSITION_ACQUIRED, TRANSITION_FOLLOWED, TRANSITION_NONE, TRANSITION_REACQUIRED,
    TRANSITION_RENEWED, TRANSITION_TOOK_OVER,
};
use recipes_simulation::lease_wire::{
    decode_log_entry, duration_from_wire, duration_wire, durable_from_wire, durable_wire,
    entry_key, entry_value, is_packable, local_from_wire, local_wire, optional_duration,
    optional_duration_wire, optional_owner, optional_value, protected_payload, stale_payload,
    LogError,
};
use recipes_simulation::log_schema::{named_space, KeySpace};
use recipes_simulation::name_set::NameSet;

fn secs(secs: u64) -> Duration {
    Duration::from_secs(secs)
}

fn occasion(client_id: i32, op_num: u64, at: Duration) -> Occasion {
    Occasion {
        client_id,
        incarnation: 0,
        op_num,
        tracks_local_state: true,
        attempt_started_at: at,
        configured_lease_duration: secs(4),
    }
}

fn stamp(order: u64) -> [u8; 12] {
    let mut stamp = [0u8; 12];
    stamp[..8].copy_from_slice(&order.to_be_bytes());
    stamp
}

fn held(rank: u64, owner: &str) -> DurableState {
    DurableState {
        rank,
        owner: Some(owner.to_owned()),
        lease_duration: Some(secs(4)),
    }
}

fn leadership(participant: &str, rank: u64, renewed_at: Duration) -> LocalInput {
    LocalInput::Leadership {
        participant: participant.to_owned(),
        rank,
        lease_duration: secs(4),
        renewed_at,
    }
}

fn token(participant: &str, rank: u64, renewed_at: Duration) -> Token {
    Token {
        participant: participant.to_owned(),
        rank,
        lease_duration: secs(4),
        renewed_at,
    }
}

fn observation(owner: &str, rank: u64, observed_at: Duration) -> LocalInput {
    LocalInput::Observation {
        owner: owner.to_owned(),
        rank,
        lease_duration: secs(4),
        observed_at,
    }
}

fn fenced(rank: u64, observed_rank: u64, observed: Option<Vec<u8>>) -> Option<FencedWrite> {
    Some(FencedWrite { rank, observed_rank, observed_value: observed, committed: true })
}

/// A log in which `a` acquires, renews and is taken over from by `b`.
fn log() -> Vec<LogEntry> {
    let first = protected_payload("a", 1);
    let second = protected_payload("a", 2);
    let mut entries = vec![
        record_poll(
            occasion(0, 1, secs(10)),
            "a".to_owned(),
            DurableState::default(),
            held(1, "a"),
            LocalInput::Unknown,
            None,
            PollTransition::Acquired,
            fenced(1, 0, None),
        ),
        record_poll(
            occasion(0, 2, secs(12)),
            "a".to_owned(),
            held(1, "a"),
            held(2, "a"),
            leadership("a", 1, secs(10)),
            None,
            PollTransition::Renewed,
            fenced(2, 1, Some(first)),
        ),
        record_poll(
            occasion(1, 1, secs(13)),
            "b".to_owned(),
            held(2, "a"),
            held(2, "a"),
            LocalInput::Unknown,
            None,
            PollTransition::Followed,
            None,
        ),
        record_poll(
            occasion(1, 2, secs(18)),
            "b".to_owned(),
            held(2, "a"),
            held(3, "b"),
            observation("a", 2, secs(14)),
            None,
            PollTransition::TookOver,
            fenced(3, 2, Some(second)),
        ),
    ];
    for (order, entry) in entries.iter_mut().enumerate() {
        entry.versionstamp = stamp(order as u64 + 1);
    }
    entries
}

fn snapshot() -> Snapshot {
    Snapshot {
        election: held(3, "b"),
        protected_rank: 3,
        protected_value: Some(protected_payload("b", 2)),
    }
}

fn refused(entries: &[LogEntry]) -> String {
    replay(entries, &snapshot()).err().expect("a log that is turned down")
}

#[test]
fn race_prefix_matches_replacement_incarnations() {
    assert!("race\0λ-0-0-1".starts_with(RACE_PARTICIPANT_PREFIX));
    assert!(!r"race\0λ-0-0-1".starts_with(RACE_PARTICIPANT_PREFIX));
    assert!(is_racer("race\0λ-0-0-1"));
    assert!(!is_racer(r"race\0λ-0-0-1"));
    assert_eq!(name_incarnation("race", 0, 0, 1), "race\0λ-0-0-1");
}

#[test]
fn delayed_adoption_tolerates_only_one_nanosecond_round_trip_loss() {
    let not_before = secs(10);
    let delay = secs(2);

    assert!(adopted_after_planned_delay(
        secs(12).saturating_sub(Duration::from_nanos(1)),
        not_before,
        delay,
    ));
    assert!(!adopted_after_planned_delay(
        secs(12).saturating_sub(Duration::from_nanos(2)),
        not_before,
        delay,
    ));
}

#[test]
fn an_honest_log_is_accepted() {
    let report = replay(&log(), &snapshot()).expect("an honest log");
    assert_eq!(report.forced_observed, 2);
    assert_eq!(
        joined(&report.forced_missing),
        "before_expiry, after_expiry, stale_renew, stale_write, delayed_observation_adoption, \
         exact_resign, follower_duration_reset"
    );
    assert_eq!(report.probabilistic_observed, 1);
    assert!(!report.probabilistic_missing.contains(&"exact_expiry"));
    assert!(!report.saw_coordinated_race);
    assert_eq!(report.coordinated_race_contenders, 0);
    // And so is every beginning of it, against what it left.
    let election = Snapshot {
        election: held(2, "a"),
        protected_rank: 2,
        protected_value: Some(protected_payload("a", 2)),
    };
    assert!(replay(&log()[..3], &election).is_ok());
}

#[test]
fn a_log_out_of_order_is_turned_down() {
    let mut entries = log();
    entries[1].versionstamp = stamp(1);
    assert_eq!(refused(&entries), "operation log is not strictly commit ordered");
    let mut entries = log();
    entries[0].versionstamp[..10].copy_from_slice(&[0xff; 10]);
    assert_eq!(refused(&entries), "operation log is not strictly commit ordered");
}

#[test]
fn an_operation_stands_in_the_log_once() {
    let mut entries = log();
    entries[1].op_num = 1;
    assert_eq!(refused(&entries), "invalid logical operation (a, 1)");
    let mut entries = log();
    entries[0].actor = String::new();
    assert_eq!(refused(&entries), "invalid logical operation (, 1)");
}

#[test]
fn an_entry_that_read_something_else_is_turned_down() {
    let mut entries = log();
    entries[1].prior.rank = 7;
    assert_eq!(
        refused(&entries),
        "operation (0, 2) prior state DurableState { rank: 7, owner: Some(\"a\"), \
         lease_duration: Some(4s) } differs from replay DurableState { rank: 1, owner: \
         Some(\"a\"), lease_duration: Some(4s) }"
    );
    let mut entries = log();
    entries[2].configured_lease_duration = Duration::zero();
    assert_eq!(refused(&entries), "operation (1, 1) configured zero lease");
}

#[test]
fn a_poll_shows_its_evidence() {
    let mut entries = log();
    entries[1].transition = 9;
    assert_eq!(refused(&entries), "unknown poll transition 9");
    let mut entries = log();
    entries[1].protected_write_committed = false;
    assert_eq!(
        refused(&entries),
        "leader poll (0, 2) has invalid durable or fenced-write evidence"
    );
    let mut entries = log();
    entries[2].current.rank = 3;
    assert_eq!(refused(&entries), "follower poll (1, 1) changed state");
    // Taken over a moment before the lease ran out.
    let mut entries = log();
    entries[3].attempt_started_at = secs(18).saturating_sub(Duration::from_nanos(1));
    assert_eq!(
        refused(&entries),
        "poll (1, 2) transition 2 invalid: reported transition violates its safety preconditions"
    );
    let mut entries = log();
    entries[1].transition = TRANSITION_TOOK_OVER;
    assert_eq!(refused(&entries), "poll (0, 2) transition 2 invalid: takeover lacks an observation");
    let mut entries = log();
    entries[0].transition = TRANSITION_RENEWED;
    assert_eq!(
        refused(&entries),
        "poll (0, 1) transition 1 invalid: renewal lacks a leadership token"
    );
    let mut entries = log();
    entries[0].kind = 17;
    assert_eq!(refused(&entries), "unknown operation kind 17");
}

#[test]
fn a_client_brings_what_it_learned() {
    let mut entries = log();
    entries[0].local_input = observation("a", 1, secs(1));
    assert_eq!(
        refused(&entries),
        "incarnation (a, 0) adopted local state without a prior poll"
    );
    let mut entries = log();
    entries[1].local_input = leadership("a", 1, secs(11));
    assert_eq!(
        refused(&entries),
        "incarnation (a, 0) local state regressed or changed unexpectedly"
    );
    let mut entries = log();
    entries[3].local_input = observation("a", 2, secs(13));
    assert_eq!(refused(&entries), "incarnation (b, 0) did not adopt its follower observation");
}

#[test]
fn the_end_of_the_log_is_what_the_database_holds() {
    let mut left = snapshot();
    left.protected_rank = 2;
    assert_eq!(
        replay(&log(), &left).err(),
        Some("final public election or ranked-register state differs from replay".to_owned())
    );
    let nothing = Snapshot {
        election: DurableState::default(),
        protected_rank: 0,
        protected_value: None,
    };
    assert_eq!(
        replay(&[], &nothing).err(),
        Some("no fenced leader write committed".to_owned())
    );
}

#[test]
fn resignations_observations_and_stale_writes_are_judged() {
    let mut entries = log();
    let value = Some(protected_payload("b", 2));
    let mut observe = record_observer(occasion(2, 1, secs(19)), "c".to_owned(), held(3, "b"));
    observe.versionstamp = stamp(5);
    assert_eq!((observe.kind, observe.transition), (OP_OBSERVE, TRANSITION_NONE));
    let mut stale = record_stale_write(
        occasion(0, 3, secs(19)),
        "a".to_owned(),
        held(3, "b"),
        FencedWrite { rank: 2, observed_rank: 3, observed_value: value.clone(), committed: false },
    );
    stale.versionstamp = stamp(6);
    assert_eq!((stale.kind, stale.payload.clone()), (OP_STALE_WRITE, stale_payload("a", 3)));
    let vacant = DurableState { rank: 3, owner: None, lease_duration: Some(secs(4)) };
    let mut resign = record_resign(
        occasion(1, 3, secs(20)),
        token("b", 3, secs(18)),
        held(3, "b"),
        vacant.clone(),
        true,
    );
    resign.versionstamp = stamp(7);
    assert_eq!(resign.kind, OP_RESIGN);
    let mut again = record_resign(
        occasion(1, 4, secs(30)),
        token("b", 3, secs(18)),
        vacant.clone(),
        vacant.clone(),
        false,
    );
    again.versionstamp = stamp(8);
    again.tracks_local_state = false;
    entries.push(observe);
    entries.push(stale);
    entries.push(resign);
    entries.push(again);
    let left = Snapshot { election: vacant, protected_rank: 3, protected_value: value };
    let report = replay(&entries, &left).expect("an honest log");
    assert!(!report.forced_missing.contains(&"stale_write"));
    assert!(!report.forced_missing.contains(&"exact_resign"));
    assert!(!report.probabilistic_missing.contains(&"post_advance_stale_write"));
    assert!(!report.probabilistic_missing.contains(&"stale_resign"));
    assert!(!report.probabilistic_missing.contains(&"delayed_stale_resign"));

    entries[4].result = false;
    assert_eq!(replay(&entries, &left).err(), Some("observer (2, 1) changed state".to_owned()));
    entries[4].result = true;
    entries[5].result = true;
    assert_eq!(
        replay(&entries, &left).err(),
        Some("stale write (0, 3) was not rejected".to_owned())
    );
    entries[5].result = false;
    entries[6].result = false;
    assert_eq!(
        replay(&entries, &left).err(),
        Some("resign (1, 3) has invalid result".to_owned())
    );
    entries[6].result = true;
    entries[6].local_input = LocalInput::Unknown;
    entries[6].tracks_local_state = false;
    assert_eq!(
        replay(&entries, &left).err(),
        Some("resign (1, 3) lacks leadership token".to_owned())
    );
}

#[test]
fn a_transition_needs_what_enables_it() {
    let entries = log();
    assert!(renewal_enabled(&entries[1], &held(1, "a")));
    assert!(!renewal_enabled(&entries[1], &held(2, "a")));
    assert!(!renewal_enabled(&entries[1], &held(1, "b")));
    assert!(takeover_enabled(&entries[3], &held(2, "a")));
    assert!(!takeover_enabled(&entries[3], &held(2, "b")));
    assert_eq!(validate_reported_poll(&entries[0], &DurableState::default()), Ok(true));
    assert_eq!(validate_reported_poll(&entries[2], &held(2, "a")), Ok(false));
    assert!(validate_reported_poll(&entries[0], &held(1, "a")).is_err());
}

#[test]
fn a_snapshot_fits_together() {
    assert!(is_coherent(&snapshot()));
    let empty = Snapshot {
        election: DurableState::default(),
        protected_rank: 0,
        protected_value: None,
    };
    assert!(is_coherent(&empty));
    assert!(!is_coherent(&Snapshot { protected_rank: 4, ..snapshot() }));
    assert!(!is_coherent(&Snapshot { protected_value: None, ..snapshot() }));
    assert!(!is_coherent(&Snapshot {
        election: DurableState { rank: 3, owner: None, lease_duration: None },
        ..snapshot()
    }));
    assert!(!is_coherent(&Snapshot { election: held(0, "a"), ..empty }));
}

#[test]
fn nothing_witnessed_is_everything_missing() {
    let report = coverage(&ReplayWitnesses::default());
    assert_eq!(report.forced_missing.len(), FORCED_WITNESS_COUNT);
    assert_eq!(report.probabilistic_missing.len(), PROBABILISTIC_WITNESS_COUNT);
    assert_eq!((report.forced_observed, report.probabilistic_observed), (0, 0));
}

fn report(forced: &[&'static str], probabilistic: &[&'static str]) -> CoverageReport {
    CoverageReport {
        forced_observed: FORCED_WITNESS_COUNT - forced.len(),
        forced_missing: forced.to_vec(),
        probabilistic_observed: PROBABILISTIC_WITNESS_COUNT - probabilistic.len(),
        probabilistic_missing: probabilistic.to_vec(),
        saw_coordinated_race: true,
        coordinated_race_contenders: 3,
    }
}

#[test]
fn a_run_passes_when_nothing_is_missing() {
    assert_eq!(conclude(&report(&[], &[]), 0, true, 3), Conclusion::Passed);
    assert_eq!(
        conclude(&report(&["expiry"], &[]), 0, true, 3),
        Conclusion::ForcedWitnessMissing
    );
    // A completion that failed excuses what it was to force.
    assert_eq!(
        conclude(&report(&["expiry"], &[]), 1, true, 3),
        Conclusion::CoverageIncomplete
    );
    assert_eq!(
        conclude(&report(&[], &["stale_resign"]), 0, true, 3),
        Conclusion::CoverageIncomplete
    );
    assert_eq!(conclude(&report(&[], &[]), 0, false, 3), Conclusion::ForcedWitnessMissing);
    assert_eq!(conclude(&report(&[], &[]), 0, true, 2), Conclusion::ForcedWitnessMissing);

    assert_eq!(Conclusion::Passed.event(), "LeaderLeaseCheckPassed");
    assert_eq!(Conclusion::CoverageIncomplete.event(), "LeaderLeaseCoverageIncomplete");
    assert_eq!(Conclusion::ForcedWitnessMissing.event(), "LeaderLeaseForcedWitnessMissing");
    assert_eq!(joined(&[]), "");
    assert_eq!(joined(&["a"]), "a");
    assert_eq!(joined(&["a", "b", "c"]), "a, b, c");
}

#[test]
fn an_entry_is_read_back_as_it_was_stored() {
    let space = named_space("lease_log");
    for (order, entry) in log().iter().enumerate() {
        let mut key = entry_key(&space, entry.client_id, entry.incarnation, entry.op_num);
        // The last four bytes say where the commit writes its version.
        let place = space.prefix.len() + 1;
        assert_eq!(key[key.len() - 4..], (place as u32).to_le_bytes());
        key.truncate(key.len() - 4);
        assert_eq!(key[place..place + 10], [0xff; 10]);
        key[place..place + 8].copy_from_slice(&(order as u64 + 1).to_be_bytes());
        key[place + 8..place + 10].copy_from_slice(&[0, 0]);
        let read = decode_log_entry(&space, &key, &entry_value(entry)).expect("a stored entry");
        assert_eq!(read.versionstamp, entry.versionstamp);
        assert_eq!((read.client_id, read.incarnation), (entry.client_id, entry.incarnation));
        assert_eq!((read.op_num, read.kind), (entry.op_num, entry.kind));
        assert_eq!(read.actor, entry.actor);
        assert!(read.prior.same_as(&entry.prior));
        assert!(read.current.same_as(&entry.current));
        assert!(read.local_input.same_as(&entry.local_input));
        assert_eq!(read.tracks_local_state, entry.tracks_local_state);
        assert_eq!(read.attempt_started_at, entry.attempt_started_at);
        assert_eq!(read.configured_lease_duration, entry.configured_lease_duration);
        assert_eq!(read.planned_adoption_delay, entry.planned_adoption_delay);
        assert_eq!((read.transition, read.result), (entry.transition, entry.result));
        assert_eq!(read.requested_write_rank, entry.requested_write_rank);
        assert_eq!(read.observed_write_rank, entry.observed_write_rank);
        assert_eq!(read.observed_value, entry.observed_value);
        assert_eq!(read.protected_write_committed, entry.protected_write_committed);
        assert_eq!(read.payload, entry.payload);
    }
}

#[test]
fn what_is_not_an_entry_is_not_read_as_one() {
    let space = named_space("lease_log");
    let mut key = entry_key(&space, 1, 2, 3);
    key.truncate(key.len() - 4);
    assert!(matches!(decode_log_entry(&space, &key, b"nonsense"), Err(LogError::Pack(_))));
    assert!(matches!(decode_log_entry(&space, b"nonsense", b""), Err(LogError::Pack(_))));
    let elsewhere = KeySpace { prefix: b"\x02other\x00".to_vec() };
    assert!(matches!(decode_log_entry(&elsewhere, &key, b""), Err(LogError::Pack(_))));
}

#[test]
fn the_parts_of_an_entry_round_trip() {
    let span = Duration::new(3, 999_999_999);
    assert_eq!(duration_wire(span), (3, 999_999_999));
    assert_eq!(duration_from_wire((3, 999_999_999)).ok(), Some(span));
    assert!(matches!(duration_from_wire((3, 1_000_000_000)), Err(LogError::Invalid(_))));
    assert_eq!(optional_duration_wire(None), (false, 0, 0));
    assert_eq!(optional_duration_wire(Some(span)), (true, 3, 999_999_999));
    assert_eq!(optional_duration(false, 0, 0).ok(), Some(None));
    assert_eq!(optional_duration(true, 3, 5).ok(), Some(Some(Duration::new(3, 5))));
    assert!(optional_duration(false, 1, 0).is_err());
    assert_eq!(optional_owner(true, "a".to_owned()).ok(), Some(Some("a".to_owned())));
    assert_eq!(optional_owner(false, String::new()).ok(), Some(None));
    assert!(optional_owner(false, "a".to_owned()).is_err());
    assert_eq!(optional_value(true, vec![1]).ok(), Some(Some(vec![1])));
    assert_eq!(optional_value(false, vec![]).ok(), Some(None));
    assert!(optional_value(false, vec![1]).is_err());

    for state in [DurableState::default(), held(7, "a")] {
        let read = durable_from_wire(durable_wire(&state)).ok().expect("a stored state");
        assert!(read.same_as(&state));
    }
    for local in [LocalInput::Unknown, leadership("a", 2, secs(3)), observation("b", 4, secs(5))] {
        let read = local_from_wire(local_wire(&local)).ok().expect("a stored state");
        assert!(read.same_as(&local));
    }
}

#[test]
fn payloads_name_their_writer() {
    assert_eq!(protected_payload("a", 12), b"leader:a:12");
    assert_eq!(stale_payload("a", 12), b"stale:a:12");
}

fn plan(swarm: u32) -> Plan {
    Plan::settled(2, 77, SwarmProfile::Standard, None, None, 0, 0, 0, swarm)
}

#[test]
fn a_profile_settles_what_is_not_given() {
    let standard = plan(0);
    assert_eq!(standard.operation_count, SwarmProfile::Standard.operation_count());
    assert_eq!(standard.lease_base_secs, SwarmProfile::Standard.lease_base_secs());
    let given = Plan::settled(2, 77, SwarmProfile::Contention, Some(5), Some(9), 0, 0, 0, 0);
    assert_eq!((given.operation_count, given.lease_base_secs), (5, 9));
    assert_eq!(given.profile.name(), "contention");
    assert_eq!(
        [0, 1, 2].map(|profile| SwarmProfile::from_random(profile).name()),
        ["standard", "contention", "suspicion"]
    );
    assert!(plan(OPTIONAL_RESIGN).has(OPTIONAL_RESIGN));
    assert!(!plan(OPTIONAL_RESIGN).has(OPTIONAL_OBSERVER));
}

#[test]
fn a_weight_picks_one_thing_to_do() {
    let mut plan = plan(0);
    plan.normal_weight = 10;
    plan.adversarial_weight = 30;
    for weight in 0..50 {
        let picked = [
            weight < 10,
            plan.is_observation(weight),
            plan.is_resignation(weight),
            plan.is_stale_attempt(weight),
            plan.is_lease_change(weight),
            plan.is_drop(weight),
        ];
        assert_eq!(picked.iter().filter(|picked| **picked).count(), 1, "weight {weight}");
    }
    assert!(plan.is_observation(19) && plan.is_resignation(20));
    assert!(plan.is_resignation(29) && plan.is_stale_attempt(30));
    assert!(plan.is_stale_attempt(33) && plan.is_lease_change(34));
    assert!(plan.is_lease_change(39) && plan.is_drop(40));
    assert!(plan.is_poll(0, 40) && plan.is_poll(1, 9) && plan.is_poll(1, 34));
    assert!(!plan.is_poll(1, 40));
}

#[test]
fn rounds_wait_out_a_part_of_the_lease() {
    let local = observation("a", 2, secs(14));
    assert_eq!(plan(0).inter_round_target(0, &local, secs(15)), secs(16));
    assert_eq!(plan(0).inter_round_target(1, &local, secs(15)), secs(18));
    assert_eq!(
        plan(0).inter_round_target(2, &local, secs(15)),
        secs(18).saturating_add(Duration::from_millis(1))
    );
    assert_eq!(
        Plan::boundary_target(&local, secs(15)),
        secs(18).saturating_add(Duration::from_millis(1))
    );
    assert_eq!(
        Plan::boundary_target(&LocalInput::Unknown, secs(15)),
        secs(15).saturating_add(Duration::from_millis(1))
    );
    let lease = plan(0).lease_duration;
    assert_eq!(plan(0).lease_duration_for_round(2), lease.saturating_add(secs(2)));
    assert_eq!(plan(u32::MAX).lease_duration_for_round(1), lease);
}

#[test]
fn delays_take_turns() {
    assert_eq!(AdoptionDelay::from_random(3), AdoptionDelay::Shorter);
    assert_eq!(AdoptionDelay::from_random(4), AdoptionDelay::Exact);
    assert_eq!(AdoptionDelay::from_random(5), AdoptionDelay::Longer);
    assert_eq!(AdoptionDelay::Shorter.duration(secs(4)), secs(2));
    assert_eq!(AdoptionDelay::Exact.duration(secs(4)), secs(4));
    assert_eq!(AdoptionDelay::Longer.duration(secs(4)), Duration::from_millis(4_001));
    for phase in 0..3 {
        assert_eq!(
            AdoptionDelay::for_completion_phase(phase),
            AdoptionDelay::from_random(phase as u32)
        );
    }
}

#[test]
fn participants_are_named_awkwardly() {
    assert_eq!(participant_text(0, 2, 77), "participant-2-77");
    assert_eq!(participant_text(1, 2, 77), "participant\x002-77");
    assert_eq!(participant_text(2, 2, 77), "participant-λ-2-77");
    let long = participant_text(3, 2, 77);
    assert!(long.starts_with("participant-2-77-xxx"));
    assert!(long.ends_with('x'));
}

#[test]
fn only_a_new_observation_is_adopted_late() {
    let follower = PollOutcome::Follower { owner: "a".to_owned(), rank: 2, lease_duration: secs(4) };
    let late = Some(AdoptionDelay::Exact);
    let planned = |local: &LocalInput| planned_follower_adoption_delay(&follower, local, late);
    assert_eq!(planned(&LocalInput::Unknown), Some(secs(4)));
    assert_eq!(planned(&observation("a", 1, secs(1))), Some(secs(4)));
    assert_eq!(planned(&observation("a", 2, secs(1))), None);
    assert_eq!(
        planned_follower_adoption_delay(&follower, &LocalInput::Unknown, None),
        None
    );
    assert_eq!(
        planned_follower_adoption_delay(
            &PollOutcome::Leader { rank: 2 },
            &LocalInput::Unknown,
            late
        ),
        None
    );
    assert_eq!(adoption_instant(secs(5), secs(4)), secs(5));
    assert_eq!(
        adoption_instant(secs(4), secs(4)),
        secs(4).saturating_add(Duration::from_nanos(1))
    );
}

#[test]
fn transitions_are_stored_by_number() {
    let codes = [
        (PollTransition::Acquired, TRANSITION_ACQUIRED),
        (PollTransition::Renewed, TRANSITION_RENEWED),
        (PollTransition::TookOver, TRANSITION_TOOK_OVER),
        (PollTransition::Reacquired, TRANSITION_REACQUIRED),
        (PollTransition::Followed, TRANSITION_FOLLOWED),
    ];
    for (transition, code) in codes {
        assert_eq!(transition_code(transition), code);
    }
    assert_eq!(log()[0].kind, OP_POLL);
}

#[test]
fn statuses_are_counted() {
    let statuses =
        vec![Status::Contended.bytes(), Status::Incumbent.bytes(), Status::Contended.bytes()];
    assert_eq!(count_statuses(&statuses, Status::Contended), 2);
    assert_eq!(count_statuses(&statuses, Status::Incumbent), 1);
    assert_eq!(count_statuses(&statuses, Status::Error), 0);
    let names = [Barrier::Ready, Barrier::Observed, Barrier::Expired, Barrier::Done]
        .map(|barrier| barrier.name());
    for (place, name) in names.iter().enumerate() {
        assert!(!names[..place].contains(name));
    }
    assert_eq!(Mishap::Poll.failure_event(), "PollRunFailed");
    assert_eq!(Breach::StaleWriteCommitted.event(), "StaleWriteCommitted");
}

#[test]
fn a_set_of_names_holds_each_once() {
    let mut names = NameSet::new();
    assert!(names.insert("a".to_owned()));
    assert!(names.insert("b".to_owned()));
    assert!(!names.insert("a".to_owned()));
    assert_eq!(names.len(), 2);
    assert!(names.contains("a") && !names.contains("c"));
    let mut others = NameSet::new();
    others.insert("b".to_owned());
    assert!(others.is_subset_of(&names) && !names.is_subset_of(&others));
    others.insert("a".to_owned());
    assert!(names.same_as(&others));
}

#[test]
fn a_client_marks_a_barrier_under_its_own_key() {
    let space = KeySpace { prefix: b"race".to_vec() };
    assert_eq!(marker_key(&space, Barrier::Done, 3), b"race\x02done\x00\x15\x03".to_vec());
    assert_eq!(marker_key(&space, Barrier::Ready, 0), b"race\x02ready\x00\x14".to_vec());
}

#[test]
fn an_entry_of_an_ordinary_size_is_packable() {
    assert!(log().iter().all(is_packable));
}

fn oracle(election: DurableState) -> Oracle {
    Oracle {
        election,
        protected_rank: 0,
        protected_value: None,
        witnesses: ReplayWitnesses::default(),
    }
}

#[test]
fn a_refused_entry_leaves_the_oracle_as_it_was() {
    let vacant = DurableState { rank: 3, owner: None, lease_duration: Some(secs(4)) };
    let refused = record_resign(
        occasion(1, 3, secs(20)),
        token("b", 3, secs(18)),
        held(3, "b"),
        vacant,
        false,
    );
    let mut resigned = oracle(held(3, "b"));
    assert!(replay_resign(&refused, &mut resigned).is_err());
    assert!(resigned.election.same_as(&held(3, "b")));

    let mut polled = oracle(held(9, "z"));
    assert!(replay_poll(&log()[0], &mut polled, false).is_err());
    assert!(polled.election.same_as(&held(9, "z")));
    assert_eq!(polled.protected_rank, 0);

    let written = record_stale_write(
        occasion(0, 3, secs(19)),
        "a".to_owned(),
        held(3, "b"),
        FencedWrite { rank: 2, observed_rank: 2, observed_value: None, committed: true },
    );
    let mut fenced = oracle(held(3, "b"));
    assert!(replay_stale_write(&written, &mut fenced).is_err());
    assert_eq!(fenced.protected_rank, 0);
    assert!(fenced.witnesses.race.winner.is_none());
}

#[test]
fn a_second_winner_is_put_down_before_it_is_turned_down() {
    let bid = |name: &str, op_num: u64| {
        record_poll(
            occasion(0, op_num, secs(20)),
            format!("{RACE_PARTICIPANT_PREFIX}{name}"),
            held(3, "b"),
            held(4, name),
            observation("b", 3, secs(10)),
            None,
            PollTransition::TookOver,
            fenced(4, 3, None),
        )
    };
    let mut race = ReplayWitnesses::default().race;
    assert_eq!(record_race_takeover(&bid("1", 1), &mut race), Ok(()));
    assert_eq!(
        record_race_takeover(&bid("2", 2), &mut race),
        Err("coordinated race elected more than one winner".to_owned())
    );
    assert_eq!(race.winner, Some(format!("{RACE_PARTICIPANT_PREFIX}2")));
}
