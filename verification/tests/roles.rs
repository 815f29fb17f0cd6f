//! What the roles of a run decide.

use recipes_simulation::duration::Duration;
use recipes_simulation::roles::{
    after_renewal, after_resign, begin_campaign, begin_work, claim_token, count_fenced,
    drops_reply, duty, has_successor, judge_claim, may_drop_replies, pace_until, resume_spread,
    sights, stop_at_horizon, take_up, Campaign, ClaimReply, Counters, Duty, RenewalReply, Role,
    Term, Timing, Verdict, Work,
};

fn secs(secs: u64) -> Duration {
    Duration::from_secs(secs)
}

fn timing() -> Timing {
    Timing {
        lease: secs(9),
        safety_margin: secs(1),
        step: secs(1),
        test_duration: secs(120),
    }
}

#[test]
fn watcher_gate_turns_client_two_into_a_contender() {
    // A run that did not draw the watcher feature must get client two back
    // as a contender rather than as an idle observer.
    assert_eq!(Role::assign(2, 8, true, false), Role::Contender);
    assert_eq!(Role::assign(2, 8, true, true), Role::Watcher);
    assert_eq!(Role::assign(2, 8, false, false), Role::Contender);

    // The degradation guards hold whatever was drawn: a Sleeper needs
    // three clients and a Watcher four, however the features fell.
    for client_count in 1..=2 {
        assert_eq!(
            Role::assign(1, client_count, true, true),
            Role::Contender,
            "a sleeper needs somebody to take over from it"
        );
    }
    assert_eq!(Role::assign(1, 3, true, true), Role::Sleeper);
    assert_eq!(Role::assign(1, 3, false, true), Role::Contender);
    assert_eq!(Role::assign(2, 3, true, true), Role::Contender);
    assert_eq!(Role::assign(2, 4, true, true), Role::Watcher);

    // Every other client contends whatever the features say.
    for client_id in [0, 3, 7] {
        for sleeper in [false, true] {
            for watcher in [false, true] {
                assert_eq!(
                    Role::assign(client_id, 8, sleeper, watcher),
                    Role::Contender
                );
            }
        }
    }
}

#[test]
fn somebody_contends_whatever_the_features() {
    for client_count in 1..=8 {
        for sleeper in [false, true] {
            for watcher in [false, true] {
                assert_eq!(Role::assign(0, client_count, sleeper, watcher), Role::Contender);
            }
        }
    }
    assert_eq!(Role::Contender.as_str(), "contender");
    assert_eq!(Role::Sleeper.as_str(), "sleeper");
    assert_eq!(Role::Watcher.as_str(), "watcher");
}

#[test]
fn a_term_is_believed_for_its_lease_less_the_margin() {
    let timing = timing();
    assert_eq!(timing.renew_interval(), secs(3));
    assert_eq!(timing.horizon_of(secs(10)), secs(18));
    assert_eq!(timing.renewal_of(secs(10)), secs(13));

    let term = take_up(&timing, 7, secs(10));
    assert_eq!(term, Term { ballot: 7, horizon: secs(18), renew_due: secs(13), sequence: 0 });
    assert_eq!(duty(&term, secs(12)), Duty::Carry);
    assert_eq!(duty(&term, secs(13)), Duty::Renew);
    assert_eq!(duty(&term, secs(17)), Duty::Renew);
    assert_eq!(duty(&term, secs(18)), Duty::Stop);
    assert_eq!(stop_at_horizon(Counters::default()).horizon_stops, 1);
}

#[test]
fn a_campaign_waits_out_a_dropped_reply() {
    assert_eq!(begin_campaign(None, secs(1)), Campaign::Fresh);
    assert_eq!(begin_campaign(Some(secs(2)), secs(1)), Campaign::Hold);
    assert_eq!(begin_campaign(Some(secs(2)), secs(2)), Campaign::Resume);
}

#[test]
fn a_claim_is_judged_by_what_came_back() {
    let timing = timing();
    let none = Counters::default();

    let (counters, verdict) = judge_claim(none, &timing, ClaimReply::Denied, false, secs(1));
    assert_eq!((counters.denials, verdict), (1, Verdict::Nothing));
    let (counters, verdict) = judge_claim(none, &timing, ClaimReply::Superseded, true, secs(1));
    assert_eq!((counters.superseded, verdict), (1, Verdict::Retired));

    let won = ClaimReply::Won { ballot: 3, acquired_at: secs(10) };
    let (counters, verdict) = judge_claim(none, &timing, won, false, secs(17));
    assert_eq!(verdict, Verdict::MayLead);
    assert_eq!((counters.acquisitions, counters.recoveries_adopted), (1, 0));
    let (counters, _) = judge_claim(none, &timing, won, true, secs(17));
    assert_eq!((counters.acquisitions, counters.recoveries_adopted), (1, 1));
    let (counters, verdict) = judge_claim(none, &timing, won, false, secs(18));
    assert_eq!(verdict, Verdict::Outlived);
    assert_eq!((counters.acquisitions, counters.horizon_stops), (1, 1));
}

#[test]
fn replies_are_dropped_only_where_there_is_time_to_resume() {
    assert!(may_drop_replies(true, Role::Contender));
    assert!(!may_drop_replies(false, Role::Contender));
    assert!(!may_drop_replies(true, Role::Sleeper));
    assert!(!may_drop_replies(true, Role::Watcher));

    assert!(drops_reply(false, false, secs(10), secs(9), secs(20)));
    assert!(!drops_reply(true, false, secs(10), secs(9), secs(20)));
    assert!(drops_reply(true, true, secs(10), secs(9), secs(20)));
    assert!(!drops_reply(false, true, secs(11), secs(9), secs(20)));

    assert_eq!(resume_spread(secs(9), secs(1)), Some(secs(8)));
    assert_eq!(resume_spread(secs(1), secs(1)), None);
}

#[test]
fn a_renewal_moves_the_horizon_or_ends_the_term() {
    let timing = timing();
    let none = Counters::default();
    let term = Term { ballot: 7, horizon: secs(18), renew_due: secs(13), sequence: 4 };

    let (counters, next) = after_renewal(none, &timing, term, RenewalReply::Lost, secs(13));
    assert_eq!((counters.lost, next), (1, None));

    let refreshed = RenewalReply::Refreshed { acquired_at: secs(13) };
    let (counters, next) = after_renewal(none, &timing, term, refreshed, secs(14));
    assert_eq!(counters.renewals, 1);
    assert_eq!(
        next,
        Some(Term { ballot: 7, horizon: secs(21), renew_due: secs(16), sequence: 4 })
    );
    let (counters, next) = after_renewal(none, &timing, term, refreshed, secs(21));
    assert_eq!((counters.renewals, counters.horizon_stops, next), (1, 1, None));

    assert_eq!(after_resign(none, true).resigns, 1);
    assert_eq!(after_resign(none, false).lost, 1);
}

#[test]
fn fenced_work_is_numbered_and_ends_at_the_horizon() {
    let term = Term { ballot: 7, horizon: secs(18), renew_due: secs(13), sequence: 4 };
    assert_eq!(begin_work(&term, secs(10)), Some((secs(8), 5)));
    assert_eq!(begin_work(&term, secs(18)), None);

    let none = Counters::default();
    assert_eq!(count_fenced(none, Work::Committed).fenced_applied, 1);
    assert_eq!(count_fenced(none, Work::Refused).fenced_rejected, 1);
    assert_eq!(count_fenced(none, Work::Abandoned).work_abandoned, 1);
}

#[test]
fn a_successor_has_both_taken_over_and_written() {
    assert!(has_successor(Some(3), Some(3), 2));
    assert!(!has_successor(Some(3), Some(2), 2));
    assert!(!has_successor(Some(2), Some(3), 2));
    assert!(!has_successor(None, Some(3), 2));
    assert!(!has_successor(Some(3), None, 2));
}

#[test]
fn a_step_paces_and_sights() {
    assert!(sights(0));
    assert!(!sights(1));
    assert_eq!(pace_until(secs(5), secs(3), secs(1)), secs(1));
    assert_eq!(pace_until(secs(5), secs(3), secs(9)), secs(2));
    assert_eq!(pace_until(secs(3), secs(5), secs(9)), Duration::zero());
}

#[test]
fn a_token_is_drawn_byte_by_byte_and_never_vacant() {
    assert_eq!(
        claim_token(0x0102_0304, 0x0506_0708, 0x090a_0b0c, 0x0d0e_0f10),
        [1, 2, 3, 4, 5, 6, 7, 8, 9, 10, 11, 12, 13, 14, 15, 16]
    );
    let mut vacant_would_be = [0u8; 16];
    vacant_would_be[0] = 1;
    assert_eq!(claim_token(0, 0, 0, 0), vacant_would_be);
    assert_eq!(claim_token(0, 0, 0, 1)[15], 1);
    assert_eq!(claim_token(0, 0, 0, 1)[0], 0);
}
