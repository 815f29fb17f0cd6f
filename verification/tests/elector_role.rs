//! The role that runs the recipe's own elector.

use foundationdb_tuple::Subspace;
use recipes_simulation::duration::Duration;
use recipes_simulation::elector_role::{
    after_lead, closes_belief, count_acquisition, count_error, count_work, election, gave_up_early,
    lost_belief, register, should_log_extension, work_window, BeliefBookkeeping, ElectorCounters,
    LeadOutcome, DRIVER_REGION,
};
use recipes_simulation::log_schema::{elector_log_subspace, log_subspace, named_space};
use recipes_simulation::roles::{may_log_end, Work};

fn secs(secs: u64) -> Duration {
    Duration::from_secs(secs)
}

#[test]
fn a_belief_is_only_relogged_when_the_horizon_moves_out() {
    // The first one always: nothing has been logged, and the interval has
    // to exist before anything is done under it.
    assert!(should_log_extension(None, secs(1)));

    // A renewal that pushed the horizon out is worth a record; a poll that
    // found the same horizon is not, because replay merges begins by taking
    // the largest horizon and would learn nothing.
    assert!(should_log_extension(Some(secs(1)), secs(2)));
    assert!(!should_log_extension(Some(secs(2)), secs(2)));
    assert!(!should_log_extension(Some(secs(2)), secs(1)));
}

#[test]
fn a_belief_end_stops_being_writable_at_the_horizon() {
    assert!(may_log_end(secs(1), secs(2)));
    // The boundary is exclusive: at the horizon the belief is already over
    // and a successor may have started counting.
    assert!(!may_log_end(secs(2), secs(2)));
    assert!(!may_log_end(secs(3), secs(2)));
}

#[test]
fn the_two_elections_never_share_a_key() {
    // One database, two runs: a prefix collision would make either side's
    // replay a fiction, and the check phase would have no way to tell.
    let driver = Subspace::all().subspace(&("leader_election",));
    let (begin, end) = Subspace::from_bytes(election().prefix).range();
    let (driver_begin, driver_end) = driver.range();
    assert!(end <= driver_begin || driver_end <= begin);

    let (register_begin, _) = Subspace::from_bytes(register().prefix).range();
    assert!(!register_begin.starts_with(&begin));
}

#[test]
fn a_region_is_named_by_a_packed_string() {
    let driver = named_space(DRIVER_REGION);
    assert_eq!(driver.prefix, b"\x02leader_election\x00");
    assert_eq!(election().prefix, b"\x02le_elector\x00");
    assert_eq!(register().prefix, b"\x02le_elector_register\x00");
    assert_eq!(log_subspace().prefix, b"\x02le_log\x00");
    assert_eq!(elector_log_subspace().prefix, b"\x02le_elector_log\x00");
}

#[test]
fn a_belief_the_elector_lost_is_closed_only_inside_its_horizon() {
    let open = BeliefBookkeeping {
        ballot: 4,
        logged_horizon: Some(secs(9)),
        ended: false,
    };
    assert_eq!(lost_belief(&open, secs(8)), Some(4));
    assert_eq!(lost_belief(&open, secs(9)), None);

    let closed = BeliefBookkeeping { ended: true, ..open };
    assert_eq!(lost_belief(&closed, secs(8)), None);

    let never_begun = BeliefBookkeeping::default();
    assert_eq!(never_begun.ballot, 0);
    assert_eq!(never_begun.logged_horizon, None);
    assert!(!never_begun.ended);
    assert_eq!(lost_belief(&never_begun, secs(0)), None);
}

#[test]
fn a_belief_that_still_stands_is_closed_before_its_end() {
    assert!(closes_belief(true, secs(1), secs(2)));
    assert!(!closes_belief(true, secs(2), secs(2)));
    assert!(!closes_belief(false, secs(1), secs(2)));
}

#[test]
fn what_leading_came_to_is_counted() {
    let none = ElectorCounters::default();
    assert_eq!(none.acquisitions, 0);

    let (released, again) = after_lead(none, LeadOutcome::Completed { released: true });
    assert_eq!(released.resigns, 1);
    assert!(again);
    let (kept, again) = after_lead(none, LeadOutcome::Completed { released: false });
    assert_eq!(kept.resigns, 0);
    assert!(again);
    let (lost, again) = after_lead(none, LeadOutcome::LeaseLost);
    assert_eq!(lost.lease_losses, 1);
    assert!(again);
    let (failed, again) = after_lead(none, LeadOutcome::Failed);
    assert_eq!(failed.errors, 1);
    assert!(!again);

    assert_eq!(count_acquisition(none).acquisitions, 1);
    assert_eq!(count_error(none).errors, 1);
    assert_eq!(count_work(none, Work::Committed).fenced_applied, 1);
    assert_eq!(count_work(none, Work::Refused).fenced_rejected, 1);
    let abandoned = count_work(none, Work::Abandoned);
    assert_eq!(abandoned.fenced_applied + abandoned.fenced_rejected, 0);
}

#[test]
fn work_ends_with_the_belief() {
    assert_eq!(work_window(secs(5), secs(2)), Some(secs(3)));
    assert_eq!(work_window(secs(5), secs(5)), None);
    assert_eq!(work_window(secs(5), secs(6)), None);
}

#[test]
fn giving_up_before_the_deadline_or_on_a_failed_wait_is_early() {
    assert!(gave_up_early(true, secs(2), secs(2)));
    assert!(gave_up_early(false, secs(1), secs(2)));
    assert!(!gave_up_early(false, secs(2), secs(2)));
}
