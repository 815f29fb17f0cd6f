//! Walks through the script of a client that runs the recipe's own elector.

use recipes_simulation::duration::Duration;
use recipes_simulation::elector_role::LeadOutcome;
use recipes_simulation::elector_script::{
    ElectorAction, ElectorEvent, ElectorNote, ElectorPlace, ElectorScript, WorkAction, WorkEvent,
};
use recipes_simulation::roles::Work;

fn secs(n: u64) -> Duration {
    Duration::from_secs(n)
}

/// A run of a hundred seconds, with a write every second.
fn client() -> ElectorScript {
    let (script, action) = ElectorScript::begin(secs(100), secs(1), secs(0));
    assert!(matches!(action, ElectorAction::Lead { within } if within == secs(100)));
    script
}

/// A client under term 7, believed until second 10, at its first write.
fn worker() -> ElectorScript {
    let mut script = client();
    match script.enter(7, true, secs(10), secs(1)) {
        WorkAction::BeginBelief { ballot, horizon } => {
            assert_eq!(ballot, 7);
            assert_eq!(horizon, secs(10));
        }
        other => panic!("{other:?}"),
    }
    assert_eq!(script.counters.acquisitions, 1);
    let action = script.work(WorkEvent::Elapsed, true, secs(10), secs(1), secs(1));
    assert!(matches!(action, WorkAction::InstallFence));
    assert_eq!(script.book.logged_horizon, Some(secs(10)));
    let action = script.work(WorkEvent::Elapsed, true, secs(10), secs(1), secs(1));
    assert!(matches!(action, WorkAction::FencedWrite { within } if within == secs(9)));
    script
}

#[test]
fn a_run_that_is_over_campaigns_for_nothing() {
    let (script, action) = ElectorScript::begin(secs(5), secs(1), secs(5));
    assert!(matches!(action, ElectorAction::Finish));
    assert_eq!(script.place, ElectorPlace::Done);
    assert_eq!(script.counters.errors, 0);
}

#[test]
fn one_campaign_follows_another() {
    let mut script = client();
    let led = ElectorEvent::Led(LeadOutcome::Completed { released: true });
    let action = script.step(led, secs(30), secs(30));
    assert!(matches!(action, ElectorAction::Lead { within } if within == secs(70)));
    assert_eq!(script.counters.resigns, 1);
    let led = ElectorEvent::Led(LeadOutcome::Completed { released: false });
    let action = script.step(led, secs(100), secs(100));
    assert!(matches!(action, ElectorAction::Finish));
    assert_eq!(script.counters.resigns, 1);
}

#[test]
fn a_failed_elector_ends_the_role() {
    let mut script = client();
    let action = script.step(ElectorEvent::Led(LeadOutcome::Failed), secs(3), secs(3));
    assert!(matches!(action, ElectorAction::Finish));
    assert_eq!(script.note, Some(ElectorNote::LeadFailed));
    assert_eq!(script.counters.errors, 1);
}

#[test]
fn giving_up_is_in_order_only_at_the_end() {
    let mut script = client();
    let over = ElectorEvent::TimedOut { delay_failed: false };
    assert!(matches!(script.step(over, secs(100), secs(100)), ElectorAction::Finish));
    assert_eq!(script.note, Some(ElectorNote::GaveUp));
    assert_eq!(script.counters.errors, 0);

    let mut script = client();
    script.step(over, secs(99), secs(99));
    assert_eq!(script.note, Some(ElectorNote::GaveUpEarly { delay_failed: false }));
    assert_eq!(script.counters.errors, 1);

    let mut script = client();
    script.step(ElectorEvent::TimedOut { delay_failed: true }, secs(100), secs(100));
    assert_eq!(script.note, Some(ElectorNote::GaveUpEarly { delay_failed: true }));
    assert_eq!(script.counters.errors, 1);
}

#[test]
fn campaigns_on_a_standing_clock_stop() {
    let mut script = client();
    let led = ElectorEvent::Led(LeadOutcome::Completed { released: false });
    assert!(matches!(script.step(led, secs(0), secs(0)), ElectorAction::Lead { .. }));
    assert!(matches!(script.step(led, secs(0), secs(0)), ElectorAction::Lead { .. }));
    assert!(matches!(script.step(led, secs(0), secs(0)), ElectorAction::Finish));
    assert_eq!(script.note, Some(ElectorNote::TermsStalled));
    assert_eq!(script.counters.errors, 1);
}

#[test]
fn a_lost_term_has_its_belief_closed_in_time() {
    let mut script = worker();
    let action = script.step(ElectorEvent::Led(LeadOutcome::LeaseLost), secs(9), secs(9));
    assert!(matches!(action, ElectorAction::EndBelief { ballot: 7 }));
    assert_eq!(script.counters.lease_losses, 1);
    let action = script.step(ElectorEvent::Elapsed, secs(9), secs(9));
    assert!(matches!(action, ElectorAction::Lead { within } if within == secs(91)));
    // The next term starts with a blank book.
    assert_eq!(script.book.logged_horizon, None);

    // At the horizon the belief has ended by itself.
    let mut script = worker();
    let action = script.step(ElectorEvent::Led(LeadOutcome::LeaseLost), secs(10), secs(10));
    assert!(matches!(action, ElectorAction::Lead { .. }));
    assert_eq!(script.counters.lease_losses, 1);
}

#[test]
fn a_belief_that_cannot_be_closed_is_an_error() {
    let mut script = worker();
    script.step(ElectorEvent::Led(LeadOutcome::LeaseLost), secs(9), secs(9));
    let action = script.step(ElectorEvent::Failed, secs(9), secs(9));
    assert!(matches!(action, ElectorAction::Lead { .. }));
    assert_eq!(script.note, Some(ElectorNote::BeliefFailed));
    assert_eq!(script.counters.errors, 1);
}

#[test]
fn writes_are_a_step_apart() {
    let mut script = worker();
    let wrote = WorkEvent::Worked(Work::Committed);
    let action = script.work(wrote, true, secs(10), secs(1), Duration::from_millis(1250));
    assert!(matches!(action, WorkAction::Wait { span } if span == Duration::from_millis(750)));
    let action = script.work(WorkEvent::Elapsed, true, secs(10), secs(2), secs(2));
    assert!(matches!(action, WorkAction::FencedWrite { within } if within == secs(8)));
    let refused = WorkEvent::Worked(Work::Refused);
    // This one took longer than a step: the next is due at once.
    let action = script.work(refused, true, secs(10), secs(5), secs(5));
    assert!(matches!(action, WorkAction::FencedWrite { within } if within == secs(5)));
    assert_eq!(script.counters.fenced_applied, 1);
    assert_eq!(script.counters.fenced_rejected, 1);
}

#[test]
fn a_belief_that_moved_out_is_logged_before_the_next_write() {
    let mut script = worker();
    script.work(WorkEvent::Worked(Work::Committed), true, secs(10), secs(1), secs(1));
    match script.work(WorkEvent::Elapsed, true, secs(14), secs(2), secs(2)) {
        WorkAction::BeginBelief { ballot, horizon } => {
            assert_eq!(ballot, 7);
            assert_eq!(horizon, secs(14));
        }
        other => panic!("{other:?}"),
    }
    let action = script.work(WorkEvent::Elapsed, true, secs(14), secs(2), secs(2));
    assert!(matches!(action, WorkAction::FencedWrite { within } if within == secs(12)));
    assert_eq!(script.book.logged_horizon, Some(secs(14)));
}

#[test]
fn the_end_of_the_run_closes_the_belief_and_leaves() {
    let mut script = worker();
    script.work(WorkEvent::Worked(Work::Abandoned), true, secs(10), secs(1), secs(1));
    let action = script.work(WorkEvent::Elapsed, true, secs(10), secs(100), secs(9));
    assert!(matches!(action, WorkAction::EndBelief { ballot: 7 }));
    let action = script.work(WorkEvent::Elapsed, true, secs(10), secs(100), secs(9));
    assert!(matches!(action, WorkAction::Leave));
    assert!(script.book.ended);
    // What has been left stays left.
    let action = script.work(WorkEvent::Elapsed, true, secs(10), secs(100), secs(9));
    assert!(matches!(action, WorkAction::Leave));
}

#[test]
fn a_term_that_no_longer_stands_is_left_open() {
    let mut script = worker();
    script.work(WorkEvent::Worked(Work::Committed), true, secs(10), secs(1), secs(1));
    let action = script.work(WorkEvent::Elapsed, false, secs(10), secs(2), secs(2));
    assert!(matches!(action, WorkAction::Leave));
    assert!(!script.book.ended);
}

#[test]
fn a_belief_that_has_run_out_is_not_worked_under() {
    let mut script = worker();
    script.work(WorkEvent::Worked(Work::Committed), true, secs(10), secs(1), secs(1));
    let action = script.work(WorkEvent::Elapsed, true, secs(10), secs(2), secs(10));
    assert!(matches!(action, WorkAction::Leave));
    assert_eq!(script.counters.errors, 0);
}

#[test]
fn every_failure_under_a_term_is_told_apart() {
    let mut script = client();
    script.enter(7, true, secs(10), secs(1));
    let action = script.work(WorkEvent::Failed, true, secs(10), secs(1), secs(1));
    assert!(matches!(action, WorkAction::EndBelief { ballot: 7 }));
    assert_eq!(script.note, Some(ElectorNote::BeliefFailed));
    assert_eq!(script.book.logged_horizon, None);

    let mut script = client();
    script.enter(7, true, secs(10), secs(1));
    script.work(WorkEvent::Elapsed, true, secs(10), secs(1), secs(1));
    script.work(WorkEvent::Failed, true, secs(10), secs(1), secs(1));
    assert_eq!(script.note, Some(ElectorNote::FenceFailed));
    assert_eq!(script.counters.errors, 1);

    let mut script = worker();
    script.work(WorkEvent::Failed, true, secs(10), secs(1), secs(1));
    assert_eq!(script.note, Some(ElectorNote::WriteFailed));

    let mut script = worker();
    script.work(WorkEvent::DelayFailed, true, secs(10), secs(1), secs(1));
    assert_eq!(script.note, Some(ElectorNote::DelayFailed));

    let mut script = worker();
    script.work(WorkEvent::Worked(Work::Committed), true, secs(10), secs(1), secs(1));
    script.work(WorkEvent::Failed, true, secs(10), secs(2), secs(2));
    assert_eq!(script.note, Some(ElectorNote::DelayFailed));

    let mut script = worker();
    script.work(WorkEvent::NoRank, true, secs(10), secs(1), secs(1));
    assert_eq!(script.note, None);
    assert_eq!(script.counters.errors, 0);

    let mut script = worker();
    script.work(WorkEvent::NoRank, true, secs(10), secs(1), secs(1));
    let action = script.work(WorkEvent::Failed, true, secs(10), secs(1), secs(1));
    assert!(matches!(action, WorkAction::Leave));
    assert_eq!(script.note, Some(ElectorNote::BeliefFailed));
}

#[test]
fn work_on_a_standing_clock_stops() {
    let mut script = worker();
    let wrote = WorkEvent::Worked(Work::Committed);
    // The simulated clock stands while the local one runs ahead.
    let action = script.work(wrote, true, secs(90), secs(1), secs(50));
    assert!(matches!(action, WorkAction::BeginBelief { .. }));
    script.work(WorkEvent::Elapsed, true, secs(90), secs(1), secs(50));
    let action = script.work(wrote, true, secs(90), secs(1), secs(50));
    assert!(matches!(action, WorkAction::FencedWrite { .. }));
    let action = script.work(wrote, true, secs(90), secs(1), secs(50));
    assert!(matches!(action, WorkAction::EndBelief { ballot: 7 }));
    assert_eq!(script.note, Some(ElectorNote::WorkStalled));
    assert_eq!(script.counters.errors, 1);
}

#[test]
fn a_fresh_script_can_step() {
    assert!(client().can_step());
}
