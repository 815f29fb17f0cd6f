//! The operations of the process model and the clock anomalies they run under.

use recipes_simulation::duration::Duration;
use recipes_simulation::log_schema::KeySpace;
use recipes_simulation::operations::{
    apply_time_anomaly, leader_state_key, lifecycle_op, nemesis_op, new_timeout, normal_op,
    process_key, select_time_anomaly,
    LifecycleOp, NemesisOp, NormalOp, Processes, TimeAnomaly,
};

fn secs(secs: u64) -> Duration {
    Duration::from_secs(secs)
}

#[test]
fn rolls_pick_operations() {
    assert_eq!(normal_op(0), NormalOp::Heartbeat);
    assert_eq!(normal_op(29), NormalOp::Heartbeat);
    assert_eq!(normal_op(30), NormalOp::TryBecomeLeader);
    assert_eq!(normal_op(54), NormalOp::TryBecomeLeader);
    assert_eq!(normal_op(55), NormalOp::GetCurrentLeader);
    assert_eq!(normal_op(64), NormalOp::GetCurrentLeader);
    assert_eq!(normal_op(65), NormalOp::IsLeader);
    assert_eq!(lifecycle_op(9), LifecycleOp::Register);
    assert_eq!(lifecycle_op(10), LifecycleOp::Die);
    assert_eq!(nemesis_op(2), NemesisOp::Disable);
    assert_eq!(nemesis_op(3), NemesisOp::Enable);
    assert_eq!(nemesis_op(6), NemesisOp::ModifyTimeout);
    assert_eq!(nemesis_op(8), NemesisOp::ClearLeader);
    assert_eq!(nemesis_op(9), NemesisOp::Kill);
    assert_eq!(new_timeout(0), secs(5));
    assert_eq!(new_timeout(20), secs(25));
}

#[test]
fn rolls_pick_anomalies() {
    let picked: Vec<TimeAnomaly> = [699, 700, 820, 900, 930, 960, 990, 995]
        .into_iter()
        .map(select_time_anomaly)
        .collect();
    assert_eq!(
        picked,
        vec![
            TimeAnomaly::Normal,
            TimeAnomaly::Stale,
            TimeAnomaly::Future,
            TimeAnomaly::ExactlyAtTimeout,
            TimeAnomaly::JustBeforeTimeout,
            TimeAnomaly::JustAfterTimeout,
            TimeAnomaly::Zero,
            TimeAnomaly::TimeReversal,
        ]
    );
    assert!(!TimeAnomaly::Normal.is_anomalous());
    assert!(TimeAnomaly::Zero.is_anomalous());
    assert!(TimeAnomaly::Stale.takes_a_roll() && TimeAnomaly::Future.takes_a_roll());
    assert!(!TimeAnomaly::Zero.takes_a_roll());
}

#[test]
fn anomalies_bend_the_clock() {
    let bent = |anomaly, last| apply_time_anomaly(secs(100), anomaly, last, secs(10), 4);
    let heard = Some(secs(50));
    assert_eq!(bent(TimeAnomaly::Normal, heard), secs(100));
    assert_eq!(bent(TimeAnomaly::Stale, heard), secs(95));
    assert_eq!(bent(TimeAnomaly::Future, heard), secs(105));
    assert_eq!(bent(TimeAnomaly::ExactlyAtTimeout, heard), secs(60));
    assert_eq!(bent(TimeAnomaly::ExactlyAtTimeout, None), secs(100));
    assert_eq!(
        bent(TimeAnomaly::JustBeforeTimeout, heard),
        secs(60).saturating_sub(Duration::from_nanos(1))
    );
    assert_eq!(
        bent(TimeAnomaly::JustAfterTimeout, heard),
        secs(60).saturating_add(Duration::from_nanos(1))
    );
    assert_eq!(bent(TimeAnomaly::Zero, heard), Duration::zero());
    assert_eq!(bent(TimeAnomaly::TimeReversal, heard), secs(49));
    assert_eq!(bent(TimeAnomaly::TimeReversal, None), secs(1));
    assert_eq!(
        apply_time_anomaly(secs(2), TimeAnomaly::Stale, None, secs(10), 4),
        Duration::zero()
    );
}

#[test]
fn processes_live_and_die() {
    let mut processes = Processes::new();
    assert_eq!(processes.living_count(), 0);
    assert_eq!(processes.living_process(0), None);
    processes.register("a".to_owned(), secs(1));
    processes.register("b".to_owned(), secs(2));
    processes.register("c".to_owned(), secs(3));
    assert_eq!(processes.living_count(), 3);
    processes.heartbeat("b", secs(9));
    assert_eq!(processes.living_process(1), Some(("b".to_owned(), secs(9))));
    processes.die("b");
    assert_eq!(processes.living_count(), 2);
    assert_eq!(processes.living_process(1), Some(("c".to_owned(), secs(3))));
    assert_eq!(processes.living_process(2), None);
    // A name that comes back takes its old place.
    processes.register("b".to_owned(), secs(12));
    assert_eq!(processes.living_process(1), Some(("b".to_owned(), secs(12))));
    processes.heartbeat("z", secs(99));
    processes.die("z");
    assert_eq!(processes.living_count(), 3);
}

#[test]
fn the_nemesis_knows_what_to_clear() {
    let space = KeySpace { prefix: b"le".to_vec() };
    assert_eq!(leader_state_key(&space), b"le\x02leader_state\x00".to_vec());
    assert_eq!(process_key(&space, "p\x001"), b"le\x02processes\x00\x02p\x00\xff1\x00".to_vec());
}
