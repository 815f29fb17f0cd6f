//! Candidates, their log, and what it is held to.

use recipes_simulation::candidacy::{
    candidate_key, client_stats, clients_of, count_totals, decode_candidate_key,
    extract_client_stats, op_name, put_in_order,
    running_leaderships, summarize, verify_ballot_conservation, verify_candidate_consistency,
    verify_leader_is_candidate, verify_log_completeness, verify_no_overlapping_leadership,
    verify_operation_sequencing, verify_timestamp_monotonicity, within_error_rate, Answer,
    Candidate, CandidateScript, Entry, Key, OpType, Outcome, Pick, Step,
};
use recipes_simulation::log_schema::{log_subspace, named_space};

fn entry(client_id: i32, op_num: u64, op: OpType, at: u64) -> Entry {
    Entry {
        client_id,
        op_num,
        op_type: op.as_i64(),
        success: true,
        became_leader: false,
        at,
        lease_end: 0,
    }
}

fn claim(client_id: i32, op_num: u64, at: u64, lease_end: u64) -> Entry {
    Entry {
        became_leader: true,
        lease_end,
        ..entry(client_id, op_num, OpType::TryBecomeLeader, at)
    }
}

/// Two clients that take turns leading.
fn log() -> Vec<Entry> {
    vec![
        entry(0, 0, OpType::Register, 10),
        entry(1, 0, OpType::Register, 11),
        entry(0, 1, OpType::Heartbeat, 20),
        claim(0, 2, 21, 31),
        entry(1, 1, OpType::Heartbeat, 22),
        claim(1, 2, 31, 41),
    ]
}

fn candidate(name: &str, byte: u8) -> Candidate {
    Candidate { process_id: name.to_owned(), versionstamp: [byte; 12] }
}

#[test]
fn operations_are_stored_by_number() {
    for op in [OpType::Register, OpType::Heartbeat, OpType::TryBecomeLeader] {
        assert_eq!(OpType::from_i64(op.as_i64()), Some(op));
        assert_eq!(op_name(op.as_i64()), op.as_str());
    }
    assert_eq!(OpType::from_i64(3), None);
    assert_eq!(op_name(3), "Unknown");
    assert_eq!(OpType::TryBecomeLeader.as_str(), "TryBecomeLeader");
}

#[test]
fn clients_are_tallied() {
    let mut entries = log();
    entries[2].success = false;
    assert_eq!(clients_of(&entries), vec![0, 1]);
    let stats = client_stats(&entries, 0);
    assert_eq!(stats.register_count, 1);
    assert_eq!(stats.heartbeat_count, 1);
    assert_eq!((stats.leadership_attempt_count, stats.leadership_success_count), (1, 1));
    assert_eq!(stats.error_count, 1);
    assert_eq!((stats.first_timestamp, stats.last_timestamp), (Some(10), Some(21)));
    assert_eq!(stats.op_nums, vec![0, 1, 2]);
    let all = extract_client_stats(&entries);
    assert_eq!(all.len(), 2);
    assert_eq!(all[1].0, 1);
    assert_eq!(count_totals(&all), Some((6, 1)));
    assert_eq!(count_totals(&[]), Some((0, 0)));
    assert_eq!(running_leaderships(&entries), vec![0, 0, 0, 1, 1, 2]);
}

#[test]
fn a_complete_log_has_everybody_and_no_gap() {
    let stats = extract_client_stats(&log());
    assert_eq!(
        verify_log_completeness(&stats, 2),
        (true, "All 2 clients logged sequential operations".to_owned())
    );
    assert_eq!(
        verify_log_completeness(&stats, 3),
        (false, "Client 2 has no log entries".to_owned())
    );
    let mut entries = log();
    entries[5].op_num = 7;
    assert_eq!(
        verify_log_completeness(&extract_client_stats(&entries), 3),
        (
            false,
            "Client 2 has no log entries; Client 1: op_num gap at index 2, expected 2, got 7"
                .to_owned()
        )
    );
}

#[test]
fn time_does_not_go_back_for_a_client() {
    assert!(verify_timestamp_monotonicity(&log()).is_empty());
    let mut entries = log();
    entries[3].at = 19;
    let regressions = verify_timestamp_monotonicity(&entries);
    assert_eq!(regressions.len(), 1);
    assert_eq!((regressions[0].before.at, regressions[0].entry.at), (20, 19));
}

#[test]
fn leaderships_do_not_overlap() {
    let (claims, overlaps) = verify_no_overlapping_leadership(&log());
    assert_eq!(claims, 2);
    assert!(overlaps.is_empty());
    let mut entries = log();
    entries[5].at = 30;
    let (_, overlaps) = verify_no_overlapping_leadership(&entries);
    assert_eq!(overlaps.len(), 1);
    assert_eq!((overlaps[0].first.client_id, overlaps[0].second.client_id), (0, 1));
}

#[test]
fn claims_come_in_order_of_time() {
    let mut entries = log();
    entries.swap(3, 5);
    let claims = put_in_order(&entries, Pick::Claims, Key::At);
    assert_eq!(claims.iter().map(|entry| entry.at).collect::<Vec<u64>>(), vec![21, 31]);
    let mine = put_in_order(&entries, Pick::Client(0), Key::OpNum);
    assert_eq!(mine.iter().map(|entry| entry.op_num).collect::<Vec<u64>>(), vec![0, 1, 2]);
}

#[test]
fn ballots_are_conserved() {
    let (held, words) = verify_ballot_conservation(&log(), Some(2));
    assert!(held);
    assert!(words.starts_with("Ballot conservation holds: expected=2, actual=2"));
    let (held, words) = verify_ballot_conservation(&log(), Some(5));
    assert!(!held);
    assert_eq!(words, "Ballot conservation VIOLATED: expected=2, actual=5, diff=3");
    let (held, words) = verify_ballot_conservation(&log(), Some(u64::MAX));
    assert!(!held);
    assert!(words.ends_with(", actual=18446744073709551615, diff=3"));
    let (held, _) = verify_ballot_conservation(&log(), None);
    assert!(!held);
}

#[test]
fn candidates_are_registered_and_stamped() {
    let stats = extract_client_stats(&log());
    let both = [candidate("process_0", 1), candidate("process_1", 2)];
    assert_eq!(
        verify_candidate_consistency(&stats, &both),
        (true, "All 2 candidates are consistent".to_owned())
    );
    let one = [candidate("process_0", 0)];
    assert_eq!(
        verify_candidate_consistency(&stats, &one),
        (
            false,
            "Client 1 sent 1 heartbeats but not in candidate list; Candidate process_0 has zero \
             versionstamp"
                .to_owned()
        )
    );
}

#[test]
fn the_leader_is_a_candidate() {
    let both = [candidate("process_0", 1), candidate("process_1", 2)];
    assert_eq!(
        verify_leader_is_candidate(&None, &both),
        (true, "No leader to verify".to_owned())
    );
    assert_eq!(
        verify_leader_is_candidate(&Some(candidate("process_1", 2)), &both),
        (
            true,
            "Leader process_1 is registered candidate with matching versionstamp".to_owned()
        )
    );
    assert_eq!(
        verify_leader_is_candidate(&Some(candidate("process_2", 2)), &both),
        (false, "Leader process_2 is NOT in candidate list".to_owned())
    );
    let (held, words) = verify_leader_is_candidate(&Some(candidate("process_1", 3)), &both);
    assert!(!held);
    assert_eq!(
        words,
        format!(
            "Leader process_1 versionstamp mismatch: leader={:?}, candidate={:?}",
            [3u8; 12], [2u8; 12]
        )
    );
}

#[test]
fn a_client_registers_first_and_once() {
    let entries = log();
    let stats = extract_client_stats(&entries);
    assert_eq!(
        verify_operation_sequencing(&entries, &stats),
        (true, "All clients have correct operation sequencing".to_owned())
    );
    let mut entries = log();
    entries[1].op_type = OpType::Heartbeat.as_i64();
    let stats = extract_client_stats(&entries);
    assert_eq!(
        verify_operation_sequencing(&entries, &stats),
        (
            false,
            "Client 1 has 0 registrations (expected 1); Client 1: first operation is Heartbeat \
             (op_num=0), not Register"
                .to_owned()
        )
    );
}

#[test]
fn first_operations_are_those_of_the_log() {
    let heartbeat = entry(1, 4, OpType::Heartbeat, 10);
    assert_eq!(
        verify_operation_sequencing(&[heartbeat], &[]),
        (
            false,
            "Client 1: first operation is Heartbeat (op_num=4), not Register".to_owned()
        )
    );
    let stats = extract_client_stats(&log());
    assert_eq!(
        verify_operation_sequencing(&[], &stats),
        (true, "All clients have correct operation sequencing".to_owned())
    );
}

#[test]
fn totals_that_do_not_fit_are_not_given() {
    let mut stats = extract_client_stats(&log());
    stats[0].1.heartbeat_count = usize::MAX;
    assert_eq!(count_totals(&stats), None);
}

#[test]
fn a_tenth_may_fail() {
    assert!(within_error_rate(0, 0));
    assert!(within_error_rate(0, 3));
    assert!(within_error_rate(10, 1));
    assert!(!within_error_rate(10, 2));
    assert!(!within_error_rate(9, 1));
    let outcomes = [
        Outcome { name: "A", passed: true, detail: String::new() },
        Outcome { name: "B", passed: false, detail: String::new() },
        Outcome { name: "C", passed: true, detail: String::new() },
    ];
    assert_eq!(summarize(&outcomes), (2, 1, vec!["B"]));
}

#[test]
fn a_candidate_walks_its_script() {
    let (script, step) = CandidateScript::begin(0, 1);
    assert!(matches!(step, Step::Initialize));
    let (script, step) = script.step(Answer::Done);
    assert!(matches!(step, Step::Register));
    let (script, step) = script.step(Answer::Done);
    assert!(matches!(step, Step::ReadStamp));
    let (script, step) = script.step(Answer::Stamp([7; 12]));
    assert!(matches!(
        step,
        Step::Log { op: OpType::Register, op_num: 0, success: true, became_leader: false }
    ));
    let (script, step) = script.step(Answer::Done);
    assert!(matches!(step, Step::Stop), "the first part of the run is over");
    let (script, step) = script.step(Answer::Done);
    assert!(matches!(step, Step::Heartbeat));
    let (script, step) = script.step(Answer::Failed);
    assert!(matches!(
        step,
        Step::Log { op: OpType::Heartbeat, op_num: 1, success: false, became_leader: false }
    ));
    let (script, step) = script.step(Answer::Done);
    assert!(matches!(step, Step::Claim(stamp) if stamp == [7; 12]));
    let (script, step) = script.step(Answer::Led);
    assert!(matches!(
        step,
        Step::Log { op: OpType::TryBecomeLeader, op_num: 2, success: true, became_leader: true }
    ));
    let (script, step) = script.step(Answer::Done);
    assert!(matches!(step, Step::Stop));
    assert_eq!((script.error_count, script.heartbeat_count), (1, 0));
    assert_eq!((script.leadership_attempts, script.times_became_leader), (1, 1));

    let (_, step) = CandidateScript::begin(1, 1);
    assert!(matches!(step, Step::Register));
}

#[test]
fn a_key_says_whose_operation_it_is() {
    let space = log_subspace();
    for (client_id, op_num) in [(0, 0), (3, 1), (-1, 255), (i32::MIN, u64::MAX), (i32::MAX, 256)] {
        let key = candidate_key(&space, client_id, op_num);
        assert!(key.starts_with(&space.prefix));
        assert_eq!(decode_candidate_key(&space, &key), Ok((client_id, op_num)));
    }
    assert_eq!(candidate_key(&space, 3, 1), b"\x02le_log\x00\x15\x03\x15\x01".to_vec());
}

#[test]
fn a_key_from_elsewhere_is_not_of_the_log() {
    let space = log_subspace();
    let elsewhere = candidate_key(&named_space("other"), 3, 1);
    let error = decode_candidate_key(&space, &elsewhere).expect_err("a key of another region");
    assert!(!error.0.is_empty());
    let mut short = candidate_key(&space, 3, 1);
    short.pop();
    assert!(decode_candidate_key(&space, &short).is_err());
}
