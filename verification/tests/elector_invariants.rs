//! What the elections of the recipe's own elector are held to.

use recipes_simulation::elector_invariants::{
    check_elector, elector_belief_honest, elector_fencing_holds, elector_invariants,
    elector_no_belief_overlap, elector_progress_made, elector_snapshot_agrees,
    elector_terms_from_history, first_judgeable_ballot, merge, writes_outside_the_window,
    ElectorEvent, ElectorEvidence, ElectorSnapshot, ElectorThresholds, MergedEvent,
    StampedTransition,
};
use recipes_simulation::invariants::{HistoryKind, Tolerances};
use recipes_simulation::log_schema::{LogEntry, LogRecord, OpKind, Outcome};
use recipes_simulation::replay::replay;
use recipes_simulation::report::InvariantReport;

/// Seconds, in nanoseconds
const SEC: u64 = 1_000_000_000;
/// The lease every fixture advertises
const LEASE: u64 = 10 * SEC;

fn leader_id(client_id: i32) -> String {
    format!("process_{client_id}")
}

fn stamp(order: u64) -> [u8; 10] {
    let mut stamp = [0u8; 10];
    stamp[..8].copy_from_slice(&order.to_be_bytes());
    stamp
}

/// Accumulates both streams against one shared commit order
#[derive(Debug, Default)]
struct Fixture {
    history: Vec<StampedTransition>,
    log: Vec<LogEntry>,
    order: u64,
}

impl Fixture {
    fn next(&mut self) -> u64 {
        self.order += 1;
        self.order
    }

    fn transition(&mut self, kind: HistoryKind, ballot: u64, client_id: i32) {
        let stamp = stamp(self.next());
        self.history.push(StampedTransition {
            stamp,
            kind,
            ballot,
            leader_id: leader_id(client_id),
        });
    }

    fn push(&mut self, client_id: i32, record: LogRecord) {
        let order = self.next();
        let mut versionstamp = [0u8; 12];
        versionstamp[..10].copy_from_slice(&stamp(order));
        self.log.push(LogEntry {
            versionstamp,
            client_id,
            op_num: order,
            record,
        });
    }

    fn belief_begin(&mut self, client_id: i32, ballot: u64, at: u64, horizon: u64) {
        let mut record = LogRecord::new(OpKind::BeliefBegin);
        record.ballot = ballot;
        record.local_nanos = at;
        record.sim_nanos = at;
        record.horizon_nanos = horizon;
        record.lease_nanos = LEASE;
        self.push(client_id, record);
    }

    fn belief_end(&mut self, client_id: i32, ballot: u64, at: u64) {
        let mut record = LogRecord::new(OpKind::BeliefEnd);
        record.ballot = ballot;
        record.local_nanos = at;
        record.sim_nanos = at;
        self.push(client_id, record);
    }

    fn fenced_write(&mut self, client_id: i32, ballot: u64, outcome: Outcome, at: u64) {
        let mut record = LogRecord::new(OpKind::FencedWrite);
        record.ballot = ballot;
        record.outcome = outcome;
        record.local_nanos = at;
        record.sim_nanos = at;
        self.push(client_id, record);
    }

    fn merged(&self) -> Vec<MergedEvent> {
        merge(&self.history, &self.log)
    }

    fn reports(&self, snapshot: &ElectorSnapshot) -> Vec<InvariantReport> {
        let replayed = replay(&self.log, leader_id);
        check_elector(
            &ElectorEvidence {
                history: &self.history,
                log: &self.log,
                replay: &replayed,
                snapshot: Some(snapshot),
                tolerances: Tolerances::strict(),
                thresholds: ElectorThresholds::active(),
            },
            leader_id,
        )
    }
}

/// The canonical well-behaved run of two electors.
///
/// Client 6 takes ballot 1, fences a write, ends its belief and resigns.
/// Client 7 reclaims the vacancy at ballot 2 and fences a write of its own.
/// Client 6 then tries one more write under its dead term, and the fence
/// client 7 installed refuses it.
fn clean() -> Fixture {
    let mut run = Fixture::default();

    run.transition(HistoryKind::Claim, 1, 6);
    run.belief_begin(6, 1, SEC, 9 * SEC);
    run.fenced_write(6, 1, Outcome::Applied, 2 * SEC);
    run.belief_end(6, 1, 5 * SEC);
    run.transition(HistoryKind::Resign, 1, 6);

    run.transition(HistoryKind::Claim, 2, 7);
    run.belief_begin(7, 2, 6 * SEC, 14 * SEC);
    run.fenced_write(7, 2, Outcome::Applied, 7 * SEC);
    run.fenced_write(6, 1, Outcome::Rejected, 8 * SEC);

    run
}

fn clean_snapshot() -> ElectorSnapshot {
    ElectorSnapshot {
        ballot: 2,
        leader_id: leader_id(7),
        vacant: false,
    }
}

/// Assert the invariant failed, *and* that it failed for the reason the
/// test set out to provoke: without the second half a mutation that trips
/// some unrelated check would look like a passing falsification test.
fn assert_failed(report: &InvariantReport, because: &str) {
    assert!(
        !report.passed(),
        "{} passed on a run built to break it",
        report.name
    );
    assert!(
        report
            .violations
            .iter()
            .any(|violation| violation.detail.contains(because)),
        "{} failed, but not for the reason under test ({because:?}): {:?}",
        report.name,
        report.violations
    );
}

#[test]
fn the_clean_run_satisfies_every_invariant() {
    for report in clean().reports(&clean_snapshot()) {
        assert!(
            report.passed(),
            "{} failed on the clean run: {:?}",
            report.name,
            report.violations
        );
    }
}

#[test]
fn the_merge_puts_both_streams_in_commit_order() {
    let run = clean();
    let merged = run.merged();
    assert_eq!(merged.len(), run.history.len() + run.log.len());
    for pair in merged.windows(2) {
        assert!(pair[0].stamp < pair[1].stamp, "the merge is not ordered");
    }
    // And it really is interleaved: a history entry sits between two log
    // entries, which is the only reason the merge is worth doing.
    assert!(matches!(
        merged[4].event,
        ElectorEvent::Transition {
            kind: HistoryKind::Resign,
            ..
        }
    ));
}


#[test]
fn a_skipped_ballot_is_caught() {
    let mut run = clean();
    run.history[2].ballot = 4;
    assert_failed(
        &elector_terms_from_history(&run.history),
        "ballots never reset and never skip",
    );
}

#[test]
fn a_ballot_acquired_twice_is_caught() {
    let mut run = Fixture::default();
    run.transition(HistoryKind::Claim, 1, 6);
    run.transition(HistoryKind::Resign, 1, 6);
    // A second acquisition at a ballot somebody already held: two processes
    // would hold ranks neither of which dominates the other.
    run.history.push(StampedTransition {
        stamp: stamp(99),
        kind: HistoryKind::Claim,
        ballot: 1,
        leader_id: leader_id(7),
    });
    assert_failed(
        &elector_terms_from_history(&run.history),
        "was acquired twice",
    );
}

#[test]
fn a_resign_that_moves_the_ballot_is_caught() {
    let mut run = clean();
    run.history[1].ballot = 7;
    assert_failed(
        &elector_terms_from_history(&run.history),
        "a resign preserves ballot 1",
    );
}

#[test]
fn a_trimmed_trail_is_read_from_wherever_it_starts() {
    let mut run = Fixture::default();
    run.transition(HistoryKind::Resign, 57, 6);
    run.transition(HistoryKind::Claim, 58, 7);
    assert!(elector_terms_from_history(&run.history).passed());
}


fn truncated() -> Fixture {
    let mut run = clean();
    // Retention kept only the newest entry: client 6's whole term at
    // ballot 1 is gone from the trail, while its log records survive.
    run.history = run.history.split_off(2);
    run
}

#[test]
fn a_trimmed_trail_does_not_invent_fencing_violations() {
    let run = truncated();
    assert_eq!(run.history.len(), 1, "the fixture must reproduce the shape");

    for report in run.reports(&clean_snapshot()) {
        assert!(
            report.passed(),
            "{} failed on a trimmed but honest run: {:?}",
            report.name,
            report.violations
        );
    }
    assert_eq!(writes_outside_the_window(&run.merged()), 1);
}

#[test]
fn the_window_opens_where_the_trail_does() {
    let full = clean();
    // The trail opens on the acquisition of ballot 1, so ballot 1 is
    // covered.
    assert_eq!(first_judgeable_ballot(&full.merged()), Some(1));

    // It opens on the acquisition of ballot 2, so ballot 1 is not.
    assert_eq!(first_judgeable_ballot(&truncated().merged()), Some(2));

    // A trail opening on a resign cannot vouch for that ballot's own
    // acquisition, which was trimmed with everything before it.
    let mut resign_first = clean();
    resign_first.history = resign_first.history.split_off(1);
    assert_eq!(first_judgeable_ballot(&resign_first.merged()), Some(2));

    // No trail, nothing to judge.
    let mut empty = clean();
    empty.history.clear();
    assert_eq!(first_judgeable_ballot(&empty.merged()), None);
    assert!(elector_fencing_holds(&empty.merged(), leader_id).passed());
}

#[test]
fn a_stale_write_inside_the_window_is_still_caught_on_a_trimmed_trail() {
    let mut run = truncated();
    let stale = run
        .log
        .iter_mut()
        .find(|entry| entry.record.outcome == Outcome::Rejected)
        .expect("the fixture contains a refused write");
    stale.record.outcome = Outcome::Applied;

    assert_failed(
        &elector_fencing_holds(&run.merged(), leader_id),
        "while process_7 held ballot 2",
    );
}

#[test]
fn a_dishonest_belief_inside_the_window_is_still_caught_on_a_trimmed_trail() {
    // Same guarantee for the grant check: ballot 2 is inside the window, so
    // a belief in it by somebody the trail never granted it to still fires.
    let mut run = truncated();
    run.history[0].leader_id = leader_id(6);
    assert_failed(
        &elector_belief_honest(&run.merged(), leader_id),
        "which no earlier acquisition ever granted it",
    );
}

#[test]
fn a_belief_end_past_its_horizon_is_caught_even_outside_the_window() {
    // The horizon half reads only the log, which retention never touches,
    // so trimming the trail must not buy a client the right to claim it
    // believed longer than it did.
    let mut run = truncated();
    let end = run
        .log
        .iter_mut()
        .find(|entry| entry.record.op == OpKind::BeliefEnd)
        .expect("the fixture contains a belief end");
    end.record.local_nanos = 9 * SEC;
    assert_failed(
        &elector_belief_honest(&run.merged(), leader_id),
        "the horizon had already ended it",
    );
}


#[test]
fn a_stale_write_that_landed_is_caught() {
    // The Kleppmann pause, as an effect: client 6's write under its dead
    // ballot 1 committed while client 7 held ballot 2.
    let mut run = clean();
    let stale = run
        .log
        .iter_mut()
        .find(|entry| entry.record.outcome == Outcome::Rejected)
        .expect("the fixture contains a refused write");
    stale.record.outcome = Outcome::Applied;

    assert_failed(
        &elector_fencing_holds(&run.merged(), leader_id),
        "while process_7 held ballot 2",
    );
}

#[test]
fn a_write_under_a_resigned_term_is_caught() {
    let mut run = Fixture::default();
    run.transition(HistoryKind::Claim, 1, 6);
    run.transition(HistoryKind::Resign, 1, 6);
    run.fenced_write(6, 1, Outcome::Applied, 3 * SEC);
    assert_failed(
        &elector_fencing_holds(&run.merged(), leader_id),
        "while nobody held the term",
    );
}


#[test]
fn two_electors_believing_at_once_are_caught() {
    let mut run = clean();
    // Client 7 starts believing at three seconds, two seconds before client
    // 6 said it had stopped.
    let begin = run
        .log
        .iter_mut()
        .find(|entry| entry.client_id == 7 && entry.record.op == OpKind::BeliefBegin)
        .expect("the fixture contains client 7's belief");
    begin.record.sim_nanos = 3 * SEC;
    begin.record.local_nanos = 3 * SEC;

    let replayed = replay(&run.log, leader_id);
    assert_failed(
        &elector_no_belief_overlap(&replayed, &Tolerances::strict()),
        "of overlap",
    );
}

#[test]
fn a_killed_elector_is_held_to_the_horizon_it_logged() {
    // No belief end at all: the client stopped responding. It is held to
    // the horizon it computed, and a successor that starts before that is
    // an overlap even though nobody ever wrote an end.
    let mut run = Fixture::default();
    run.transition(HistoryKind::Claim, 1, 6);
    run.belief_begin(6, 1, SEC, 9 * SEC);
    run.transition(HistoryKind::Steal, 2, 7);
    run.belief_begin(7, 2, 5 * SEC, 13 * SEC);

    let replayed = replay(&run.log, leader_id);
    assert_failed(
        &elector_no_belief_overlap(&replayed, &Tolerances::strict()),
        "of overlap",
    );
}


#[test]
fn a_belief_at_a_term_nobody_granted_is_caught() {
    let mut run = clean();
    // Client 7 believes it holds ballot 2, which the history granted to
    // client 6.
    run.history[2].leader_id = leader_id(6);
    assert_failed(
        &elector_belief_honest(&run.merged(), leader_id),
        "which no earlier acquisition ever granted it",
    );
}

#[test]
fn a_belief_end_written_past_its_horizon_is_caught() {
    let mut run = clean();
    let end = run
        .log
        .iter_mut()
        .find(|entry| entry.record.op == OpKind::BeliefEnd)
        .expect("the fixture contains a belief end");
    end.record.local_nanos = 9 * SEC;
    assert_failed(
        &elector_belief_honest(&run.merged(), leader_id),
        "the horizon had already ended it",
    );
}


#[test]
fn a_record_the_history_does_not_explain_is_caught() {
    let run = clean();
    let snapshot = ElectorSnapshot {
        ballot: 3,
        leader_id: leader_id(7),
        vacant: false,
    };
    assert_failed(
        &elector_snapshot_agrees(&run.history, Some(&snapshot)),
        "but the database holds",
    );
}

#[test]
fn a_resign_must_leave_the_record_vacant() {
    let mut run = clean();
    run.transition(HistoryKind::Resign, 2, 7);
    assert_failed(
        &elector_snapshot_agrees(&run.history, Some(&clean_snapshot())),
        "but the database holds",
    );

    let vacant = ElectorSnapshot {
        ballot: 2,
        leader_id: String::new(),
        vacant: true,
    };
    assert!(elector_snapshot_agrees(&run.history, Some(&vacant)).passed());
}


#[test]
fn a_run_where_no_elector_led_is_caught() {
    let empty = Fixture::default();
    let report = elector_progress_made(&empty.history, &empty.log, &ElectorThresholds::active());
    assert_failed(&report, "won 0 term(s)");
    assert_failed(&report, "fenced write(s) were applied");
}

#[test]
fn a_term_nobody_wrote_under_proves_nothing() {
    let mut run = Fixture::default();
    run.transition(HistoryKind::Claim, 1, 6);
    run.belief_begin(6, 1, SEC, 9 * SEC);
    assert_failed(
        &elector_progress_made(&run.history, &run.log, &ElectorThresholds::active()),
        "proves nothing about fencing",
    );
}

#[test]
fn the_published_names_are_the_ones_that_run() {
    // The check phase traces the skipped invariants from the constant
    // rather than from a run, so a name that drifted would make a skipped
    // invariant unreportable, or report one that no longer exists.
    let names: Vec<&str> = clean()
        .reports(&clean_snapshot())
        .iter()
        .map(|report| report.name)
        .collect();
    assert_eq!(names, elector_invariants());

    let mut sorted = names.clone();
    sorted.sort_unstable();
    sorted.dedup();
    assert_eq!(sorted.len(), names.len(), "{names:?}");
}
