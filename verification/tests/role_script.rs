//! Walks through the script of an election client.

use recipes_simulation::duration::Duration;
use recipes_simulation::role_script::{
    Fault, RoleAction, RoleConfig, RoleEvent, RoleNote, RolePlace, RoleScript,
};
use recipes_simulation::roles::{ClaimReply, RenewalReply, Role, Timing, Work};

fn secs(n: u64) -> Duration {
    Duration::from_secs(n)
}

fn millis(n: u64) -> Duration {
    Duration::from_millis(n)
}

/// A lease of nine seconds with a margin of one: a belief lasts eight seconds and is
/// renewed after three.
fn config() -> RoleConfig {
    RoleConfig {
        timing: Timing {
            lease: secs(9),
            safety_margin: secs(1),
            step: secs(1),
            test_duration: secs(100),
        },
        head_start: secs(0),
        forced_recovery: false,
        longest_wait: secs(5),
        longest_recovery: secs(14),
    }
}

fn won(ballot: u64, at: u64) -> RoleEvent {
    RoleEvent::Claimed(ClaimReply::Won { ballot, acquired_at: secs(at) })
}

/// A contender that has won term 4 at second 1 and logged its belief.
fn holder() -> RoleScript {
    let (mut script, first) = RoleScript::begin(Role::Contender, config(), secs(0), secs(0));
    assert!(matches!(first, RoleAction::Claim { resumed: false, attempt_id: 1 }));
    let action = script.step(won(4, 1), secs(1), secs(1));
    match action {
        RoleAction::BeginBelief { ballot, horizon } => {
            assert_eq!(ballot, 4);
            assert_eq!(horizon, secs(9));
        }
        other => panic!("{other:?}"),
    }
    assert!(script.term.is_none());
    assert!(matches!(script.step(RoleEvent::Elapsed, secs(1), secs(1)), RoleAction::Sight));
    let term = script.term.expect("the belief is logged");
    assert_eq!(term.ballot, 4);
    assert_eq!(term.horizon, secs(9));
    assert_eq!(term.renew_due, secs(4));
    assert_eq!(term.sequence, 0);
    script
}

/// The same, at the top of its loop at an instant.
fn holder_at(second: u64) -> (RoleScript, RoleAction) {
    let mut script = holder();
    assert!(matches!(
        script.step(RoleEvent::Sighted(Some(4)), secs(1), secs(1)),
        RoleAction::Jitter
    ));
    match script.step(RoleEvent::Drawn(millis(700)), secs(1), secs(1)) {
        RoleAction::Wait { span } => assert_eq!(span, millis(700)),
        other => panic!("{other:?}"),
    }
    let action = script.step(RoleEvent::Elapsed, secs(second), secs(second));
    (script, action)
}

#[test]
fn everybody_but_the_sleeper_holds_back() {
    let config = RoleConfig { head_start: secs(3), ..config() };
    let (_, contender) = RoleScript::begin(Role::Contender, config, secs(0), secs(0));
    assert!(matches!(contender, RoleAction::Wait { span } if span == secs(3)));
    let (mut watcher, waits) = RoleScript::begin(Role::Watcher, config, secs(0), secs(0));
    assert!(matches!(waits, RoleAction::Wait { span } if span == secs(3)));
    assert!(matches!(watcher.step(RoleEvent::Elapsed, secs(3), secs(3)), RoleAction::Watch));
    let (_, sleeper) = RoleScript::begin(Role::Sleeper, config, secs(0), secs(0));
    assert!(matches!(sleeper, RoleAction::Claim { resumed: false, attempt_id: 1 }));
}

#[test]
fn a_holder_works_under_its_belief() {
    let (mut script, action) = holder_at(2);
    assert!(matches!(action, RoleAction::Roll { fault: Fault::Crash }));
    let action = script.step(RoleEvent::Rolled(false), secs(2), secs(2));
    assert!(matches!(action, RoleAction::Roll { fault: Fault::Resign }));
    match script.step(RoleEvent::Rolled(false), secs(2), secs(3)) {
        RoleAction::FencedWrite { ballot, sequence, within } => {
            assert_eq!(ballot, 4);
            assert_eq!(sequence, 1);
            // The local clock reads three and the belief lasts until nine.
            assert_eq!(within, Some(secs(6)));
        }
        other => panic!("{other:?}"),
    }
    // The second step sights nobody.
    let action = script.step(RoleEvent::Worked(Work::Committed), secs(3), secs(3));
    assert!(matches!(action, RoleAction::Jitter));
    assert_eq!(script.counters.fenced_applied, 1);
    assert_eq!(script.counters.sightings, 1);
    assert_eq!(script.steps, 2);
}

#[test]
fn a_write_is_counted_by_what_came_of_it() {
    for (work, applied, rejected, abandoned) in [
        (Work::Committed, 1, 0, 0),
        (Work::Refused, 0, 1, 0),
        (Work::Abandoned, 0, 0, 1),
    ] {
        let (mut script, _) = holder_at(2);
        script.step(RoleEvent::Rolled(false), secs(2), secs(2));
        script.step(RoleEvent::Rolled(false), secs(2), secs(2));
        script.step(RoleEvent::Worked(work), secs(2), secs(2));
        assert_eq!(script.counters.fenced_applied, applied);
        assert_eq!(script.counters.fenced_rejected, rejected);
        assert_eq!(script.counters.work_abandoned, abandoned);
        assert!(script.term.is_some());
    }
}

#[test]
fn a_renewal_moves_the_horizon_out() {
    let (mut script, action) = holder_at(4);
    assert!(matches!(action, RoleAction::Renew));
    let reply = RoleEvent::Renewed(RenewalReply::Refreshed { acquired_at: secs(4) });
    match script.step(reply, secs(5), secs(5)) {
        RoleAction::BeginBelief { ballot, horizon } => {
            assert_eq!(ballot, 4);
            assert_eq!(horizon, secs(12));
        }
        other => panic!("{other:?}"),
    }
    let term = script.term.expect("the term goes on");
    assert_eq!(term.horizon, secs(12));
    assert_eq!(term.renew_due, secs(7));
    assert_eq!(script.counters.renewals, 1);
    assert!(matches!(script.step(RoleEvent::Elapsed, secs(5), secs(5)), RoleAction::Jitter));
}

#[test]
fn a_renewal_that_came_back_late_is_worth_nothing() {
    let (mut script, _) = holder_at(4);
    let reply = RoleEvent::Renewed(RenewalReply::Refreshed { acquired_at: secs(4) });
    script.step(reply, secs(12), secs(12));
    assert!(script.term.is_none());
    assert_eq!(script.counters.renewals, 1);
    assert_eq!(script.counters.horizon_stops, 1);
}

#[test]
fn a_lost_term_is_closed_while_its_belief_lasts() {
    let (mut script, _) = holder_at(4);
    let action = script.step(RoleEvent::Renewed(RenewalReply::Lost), secs(8), secs(8));
    assert!(matches!(action, RoleAction::EndBelief));
    assert_eq!(script.counters.lost, 1);
    assert!(matches!(script.step(RoleEvent::Elapsed, secs(8), secs(8)), RoleAction::Jitter));
    assert!(script.term.is_none());

    let (mut script, _) = holder_at(4);
    let action = script.step(RoleEvent::Renewed(RenewalReply::Lost), secs(9), secs(9));
    assert!(matches!(action, RoleAction::Jitter));
    assert!(script.term.is_none());
}

#[test]
fn a_holder_stops_at_its_horizon() {
    let (script, action) = holder_at(9);
    assert!(matches!(action, RoleAction::Jitter));
    assert!(script.term.is_none());
    assert_eq!(script.counters.horizon_stops, 1);
}

#[test]
fn a_crashed_leader_outlasts_its_lease() {
    let (mut script, _) = holder_at(2);
    let action = script.step(RoleEvent::Rolled(true), secs(2), secs(2));
    assert!(matches!(action, RoleAction::Outlast));
    assert_eq!(script.note, Some(RoleNote::SoftCrash { ballot: 4 }));
    assert_eq!(script.counters.crashes, 1);
    let action = script.step(RoleEvent::Elapsed, secs(16), secs(16));
    assert!(matches!(action, RoleAction::Jitter));
    assert!(script.term.is_none());
    assert_eq!(script.note, None);
}

#[test]
fn a_resignation_closes_the_belief_first() {
    let (mut script, _) = holder_at(2);
    script.step(RoleEvent::Rolled(false), secs(2), secs(2));
    let action = script.step(RoleEvent::Rolled(true), secs(2), secs(2));
    assert!(matches!(action, RoleAction::EndBelief));
    assert!(matches!(script.step(RoleEvent::Elapsed, secs(2), secs(2)), RoleAction::Resign));
    let action = script.step(RoleEvent::Resigned(true), secs(2), secs(2));
    assert!(matches!(action, RoleAction::Jitter));
    assert!(script.term.is_none());
    assert_eq!(script.counters.resigns, 1);
    assert_eq!(script.counters.lost, 0);
}

#[test]
fn a_resignation_under_a_dead_belief_only_resigns() {
    let (mut script, _) = holder_at(2);
    script.step(RoleEvent::Rolled(false), secs(2), secs(2));
    let action = script.step(RoleEvent::Rolled(true), secs(9), secs(9));
    assert!(matches!(action, RoleAction::Resign));
    script.step(RoleEvent::Resigned(false), secs(9), secs(9));
    assert_eq!(script.counters.resigns, 0);
    assert_eq!(script.counters.lost, 1);
}

#[test]
fn a_holder_hands_its_term_back_at_the_end() {
    let mut script = holder();
    script.step(RoleEvent::Sighted(None), secs(1), secs(1));
    script.step(RoleEvent::Drawn(secs(1)), secs(1), secs(1));
    let action = script.step(RoleEvent::Elapsed, secs(100), secs(5));
    assert!(matches!(action, RoleAction::EndBelief));
    assert!(matches!(script.step(RoleEvent::Elapsed, secs(100), secs(5)), RoleAction::Resign));
    let action = script.step(RoleEvent::Resigned(true), secs(100), secs(5));
    assert!(matches!(action, RoleAction::Finish));
    assert_eq!(script.place, RolePlace::Done);
    // Done is done.
    assert!(matches!(script.step(won(5, 100), secs(101), secs(101)), RoleAction::Finish));
    assert_eq!(script.counters.acquisitions, 1);
}

#[test]
fn a_holder_waits_no_longer_than_until_its_renewal() {
    let mut script = holder();
    script.step(RoleEvent::Sighted(Some(4)), secs(3), millis(3900));
    match script.step(RoleEvent::Drawn(secs(1)), secs(3), millis(3900)) {
        RoleAction::Wait { span } => assert_eq!(span, millis(100)),
        other => panic!("{other:?}"),
    }
    let mut script = holder();
    script.step(RoleEvent::Sighted(Some(4)), secs(4), secs(4));
    let action = script.step(RoleEvent::Drawn(secs(1)), secs(4), secs(4));
    assert!(matches!(action, RoleAction::Renew));
}

#[test]
fn a_claim_that_outlived_its_lease_leads_nothing() {
    let (mut script, _) = RoleScript::begin(Role::Contender, config(), secs(0), secs(0));
    script.step(won(4, 1), secs(10), secs(10));
    assert!(script.term.is_none());
    assert_eq!(script.note, Some(RoleNote::ClaimOutlived { ballot: 4 }));
    assert_eq!(script.counters.horizon_stops, 1);
}

#[test]
fn a_denied_claim_is_tried_again_afresh() {
    let (mut script, _) = RoleScript::begin(Role::Contender, config(), secs(0), secs(0));
    let action = script.step(RoleEvent::Claimed(ClaimReply::Denied), secs(1), secs(1));
    assert!(matches!(action, RoleAction::Sight));
    assert_eq!(script.counters.denials, 1);
    script.step(RoleEvent::Sighted(Some(3)), secs(1), secs(1));
    assert_eq!(script.sighted, Some(3));
    script.step(RoleEvent::Drawn(secs(1)), secs(1), secs(1));
    let action = script.step(RoleEvent::Elapsed, secs(2), secs(2));
    assert!(matches!(action, RoleAction::Claim { resumed: false, attempt_id: 2 }));
    script.step(RoleEvent::Claimed(ClaimReply::Superseded), secs(2), secs(2));
    assert_eq!(script.note, Some(RoleNote::Superseded));
    assert_eq!(script.counters.superseded, 1);
}

#[test]
fn nobody_claims_once_the_run_is_over() {
    let (mut script, _) = RoleScript::begin(Role::Contender, config(), secs(0), secs(0));
    script.step(RoleEvent::Claimed(ClaimReply::Denied), secs(1), secs(1));
    script.step(RoleEvent::Sighted(None), secs(1), secs(1));
    script.step(RoleEvent::Drawn(secs(1)), secs(1), secs(1));
    let action = script.step(RoleEvent::Elapsed, secs(100), secs(100));
    assert!(matches!(action, RoleAction::Finish));
}

#[test]
fn a_thrown_away_reply_is_resolved_by_the_same_attempt() {
    let config = RoleConfig { forced_recovery: true, ..config() };
    let (mut script, _) = RoleScript::begin(Role::Contender, config, secs(0), secs(0));
    let action = script.step(won(4, 1), secs(1), secs(1));
    assert!(matches!(action, RoleAction::Roll { fault: Fault::DropReply }));
    // The first one is thrown away whatever chance says.
    let action = script.step(RoleEvent::Rolled(false), secs(1), secs(1));
    assert!(matches!(action, RoleAction::Jitter));
    let action = script.step(RoleEvent::Drawn(secs(2)), secs(1), secs(1));
    assert!(matches!(action, RoleAction::LogUnknown { attempt_id: 1, ballot: 4 }));
    script.step(RoleEvent::Elapsed, secs(1), secs(1));
    assert_eq!(script.note, Some(RoleNote::ReplyDropped { ballot: 4 }));
    assert_eq!(script.resume_at, Some(secs(3)));
    assert_eq!(script.counters.injected_unknowns, 1);
    assert!(script.term.is_none());

    // Too early to resolve: nothing is claimed.
    script.step(RoleEvent::Sighted(Some(4)), secs(1), secs(1));
    script.step(RoleEvent::Drawn(secs(1)), secs(1), secs(1));
    let action = script.step(RoleEvent::Elapsed, secs(2), secs(2));
    assert!(matches!(action, RoleAction::Jitter));
    script.step(RoleEvent::Drawn(secs(1)), secs(2), secs(2));
    let action = script.step(RoleEvent::Elapsed, secs(3), secs(3));
    assert!(matches!(action, RoleAction::Claim { resumed: true, attempt_id: 1 }));
    assert_eq!(script.resume_at, None);

    // A resumed attempt is not thrown away again.
    let action = script.step(won(4, 1), secs(3), secs(3));
    assert!(matches!(action, RoleAction::BeginBelief { ballot: 4, .. }));
    assert_eq!(script.counters.recoveries_adopted, 1);
}

#[test]
fn later_replies_are_thrown_away_by_chance() {
    let config = RoleConfig { forced_recovery: true, ..config() };
    let (mut script, _) = RoleScript::begin(Role::Contender, config, secs(0), secs(0));
    script.injected_once = true;
    script.counters.injected_unknowns = 1;
    script.step(won(4, 1), secs(1), secs(1));
    let mut lucky = script;
    let action = lucky.step(RoleEvent::Rolled(false), secs(1), secs(1));
    assert!(matches!(action, RoleAction::BeginBelief { ballot: 4, .. }));
    // The spread is what the longest wait leaves beyond a step.
    let action = script.step(RoleEvent::Rolled(true), secs(1), secs(1));
    assert!(matches!(action, RoleAction::DrawDelay { spread } if spread == secs(4)));

    // Too little of the run is left to resolve it in.
    let (mut late, _) = RoleScript::begin(Role::Contender, config, secs(0), secs(0));
    late.step(won(4, 86), secs(86), secs(86));
    let action = late.step(RoleEvent::Rolled(true), secs(86), secs(86));
    assert!(matches!(action, RoleAction::BeginBelief { ballot: 4, .. }));

    // No longer than a step: there is nothing to draw.
    let brief = RoleConfig { longest_wait: secs(1), ..config };
    let (mut script, _) = RoleScript::begin(Role::Contender, brief, secs(0), secs(0));
    script.counters.injected_unknowns = 1;
    script.step(won(4, 1), secs(1), secs(1));
    let action = script.step(RoleEvent::Rolled(true), secs(1), secs(1));
    assert!(matches!(action, RoleAction::LogUnknown { attempt_id: 1, ballot: 4 }));
    assert_eq!(script.delay, secs(1));
}

/// A sleeper that has won term 4 and paused until second 20.
fn paused() -> RoleScript {
    let (mut script, _) = RoleScript::begin(Role::Sleeper, config(), secs(0), secs(0));
    script.step(won(4, 1), secs(1), secs(1));
    let action = script.step(RoleEvent::Elapsed, secs(1), secs(1));
    assert!(matches!(action, RoleAction::Pause));
    assert_eq!(script.note, Some(RoleNote::SleeperPausing { ballot: 4 }));
    let action = script.step(RoleEvent::Elapsed, secs(20), secs(20));
    assert!(matches!(action, RoleAction::Sight));
    script
}

#[test]
fn a_sleeper_tries_its_stale_term_once_it_is_succeeded() {
    let mut script = paused();
    let action = script.step(RoleEvent::Sighted(Some(5)), secs(20), secs(20));
    assert!(matches!(action, RoleAction::ReadRegister));
    // Somebody leads, but has written nothing yet.
    let action = script.step(RoleEvent::Wrote(Some(4)), secs(20), secs(20));
    assert!(matches!(action, RoleAction::Jitter));
    let action = script.step(RoleEvent::Drawn(secs(1)), secs(20), secs(20));
    assert!(matches!(action, RoleAction::Wait { span } if span == secs(1)));
    assert!(matches!(script.step(RoleEvent::Elapsed, secs(21), secs(21)), RoleAction::Sight));
    script.step(RoleEvent::Sighted(Some(5)), secs(21), secs(21));
    // Both have happened: the stale operations are announced first.
    let action = script.step(RoleEvent::Wrote(Some(5)), secs(21), secs(21));
    assert!(matches!(action, RoleAction::LogWoke { ballot: 4 }));
    match script.step(RoleEvent::Elapsed, secs(21), secs(21)) {
        RoleAction::FencedWrite { ballot, sequence, within } => {
            assert_eq!((ballot, sequence, within), (4, 1, None));
        }
        other => panic!("{other:?}"),
    }
    let action = script.step(RoleEvent::Worked(Work::Refused), secs(21), secs(21));
    assert!(matches!(action, RoleAction::Renew));
    let action = script.step(RoleEvent::Renewed(RenewalReply::Lost), secs(21), secs(21));
    assert!(matches!(action, RoleAction::Claim { resumed: false, attempt_id: 2 }));
    assert_eq!(
        script.note,
        Some(RoleNote::SleeperWokeUp { ballot: 4, committed: false, renewed: false })
    );
    assert_eq!(script.counters.fenced_rejected, 1);
    assert_eq!(script.counters.sightings, 2);
    assert!(script.term.is_none());
}

#[test]
fn a_stale_term_that_still_works_is_told() {
    let mut script = paused();
    script.step(RoleEvent::Sighted(Some(5)), secs(20), secs(20));
    script.step(RoleEvent::Wrote(Some(6)), secs(20), secs(20));
    script.step(RoleEvent::Elapsed, secs(20), secs(20));
    script.step(RoleEvent::Worked(Work::Committed), secs(20), secs(20));
    let reply = RoleEvent::Renewed(RenewalReply::Refreshed { acquired_at: secs(20) });
    script.step(reply, secs(20), secs(20));
    assert_eq!(
        script.note,
        Some(RoleNote::SleeperWokeUp { ballot: 4, committed: true, renewed: true })
    );
    assert_eq!(script.counters.fenced_applied, 1);
    assert_eq!(script.counters.renewals, 1);
}

#[test]
fn a_sleeper_that_cannot_announce_itself_tries_nothing() {
    let mut script = paused();
    script.step(RoleEvent::Sighted(Some(5)), secs(20), secs(20));
    let action = script.step(RoleEvent::Wrote(Some(5)), secs(20), secs(20));
    assert!(matches!(action, RoleAction::LogWoke { ballot: 4 }));
    let action = script.step(RoleEvent::Failed, secs(20), secs(20));
    assert!(matches!(action, RoleAction::Finish));
    assert_eq!(script.note, Some(RoleNote::Failed));
    assert_eq!(script.counters.fenced_rejected, 0);
}

#[test]
fn a_sleeper_nobody_succeeds_gives_up_waiting() {
    let mut script = paused();
    script.step(RoleEvent::Sighted(Some(4)), secs(20), secs(20));
    script.step(RoleEvent::Wrote(None), secs(20), secs(20));
    script.step(RoleEvent::Drawn(secs(1)), secs(20), secs(20));
    let action = script.step(RoleEvent::Elapsed, secs(100), secs(100));
    assert!(matches!(action, RoleAction::Finish));
    assert_eq!(script.note, Some(RoleNote::SleeperBarrierUnmet { ballot: 4 }));
    assert!(script.term.is_none());
}

#[test]
fn a_sleeper_that_never_wins_stops() {
    let (mut script, _) = RoleScript::begin(Role::Sleeper, config(), secs(0), secs(0));
    let action = script.step(RoleEvent::Claimed(ClaimReply::Denied), secs(1), secs(1));
    assert!(matches!(action, RoleAction::Jitter));
    script.step(RoleEvent::Drawn(secs(1)), secs(1), secs(1));
    let action = script.step(RoleEvent::Elapsed, secs(2), secs(2));
    assert!(matches!(action, RoleAction::Claim { resumed: false, attempt_id: 2 }));
    script.step(RoleEvent::Claimed(ClaimReply::Denied), secs(2), secs(2));
    script.step(RoleEvent::Drawn(secs(1)), secs(2), secs(2));
    let action = script.step(RoleEvent::Elapsed, secs(100), secs(100));
    assert!(matches!(action, RoleAction::Finish));
    assert_eq!(script.note, Some(RoleNote::SleeperNeverLed));
}

#[test]
fn a_watcher_only_watches() {
    let (mut script, action) = RoleScript::begin(Role::Watcher, config(), secs(0), secs(0));
    assert!(matches!(action, RoleAction::Watch));
    let action = script.step(RoleEvent::Armed(true), secs(0), secs(0));
    assert!(matches!(action, RoleAction::AwaitChange));
    assert!(matches!(script.step(RoleEvent::Elapsed, secs(4), secs(4)), RoleAction::Watch));
    let action = script.step(RoleEvent::Armed(false), secs(4), secs(4));
    assert!(matches!(action, RoleAction::Jitter));
    let action = script.step(RoleEvent::Drawn(millis(900)), secs(4), secs(4));
    assert!(matches!(action, RoleAction::Wait { span } if span == millis(900)));
    let action = script.step(RoleEvent::Elapsed, secs(100), secs(100));
    assert!(matches!(action, RoleAction::Finish));
    assert_eq!(script.counters.sightings, 2);
    assert_eq!(script.counters.acquisitions, 0);
}

#[test]
fn a_failed_action_ends_the_role() {
    let (mut script, _) = RoleScript::begin(Role::Contender, config(), secs(0), secs(0));
    let action = script.step(RoleEvent::Failed, secs(1), secs(1));
    assert!(matches!(action, RoleAction::Finish));
    assert_eq!(script.note, Some(RoleNote::Failed));
    assert_eq!(script.counters.errors, 1);

    // An answer to another question is a failure too.
    let (mut script, _) = RoleScript::begin(Role::Contender, config(), secs(0), secs(0));
    let action = script.step(RoleEvent::Armed(true), secs(1), secs(1));
    assert!(matches!(action, RoleAction::Finish));
    assert_eq!(script.counters.errors, 1);
}

#[test]
fn a_waiting_role_is_not_ended_by_a_failed_wait() {
    let mut script = holder();
    script.step(RoleEvent::Sighted(None), secs(1), secs(1));
    script.step(RoleEvent::Drawn(secs(1)), secs(1), secs(1));
    let action = script.step(RoleEvent::Failed, secs(2), secs(2));
    assert!(matches!(action, RoleAction::Roll { fault: Fault::Crash }));
    assert_eq!(script.counters.errors, 0);
}

#[test]
fn a_term_out_of_sequence_numbers_cannot_go_on() {
    let mut script = holder();
    assert!(script.can_step());
    if let Some(term) = script.term.as_mut() {
        term.sequence = u32::MAX;
    }
    assert!(!script.can_step());
}
