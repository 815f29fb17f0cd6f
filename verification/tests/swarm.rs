//! What a seed draws for a run.

use recipes_simulation::clock::SkewMode;
use recipes_simulation::duration::Duration;
use recipes_simulation::swarm::{
    draw_features, draw_knobs, draw_skew_mode, draw_storms, mix, on_off, percent_at, thresholds,
    FeatureSet, LeaseDraw, Storm, SwarmRng, FEATURE_COUNT, LANE_CRASH_STORMS, LANE_FEATURES,
    LANE_KNOBS, LANE_RESIGN_STORMS, LANE_SKEW,
};
use std::collections::HashSet;

/// How many seeds a distribution test looks at
const SAMPLES: u64 = 10_000;

fn secs(secs: u64) -> Duration {
    Duration::from_secs(secs)
}

/// The features of every plan in the sample, in seed order
fn sample() -> Vec<FeatureSet> {
    (0..SAMPLES).map(draw_features).collect()
}

#[test]
fn same_seed_draws_the_same_plan() {
    for seed in [0u64, 1, 7, 4242, u64::MAX / 3, u64::MAX] {
        let features = draw_features(seed);
        assert_eq!(features, draw_features(seed), "seed {seed} drew two different plans");
        assert_eq!(draw_skew_mode(seed, features), draw_skew_mode(seed, features));
        assert_eq!(draw_knobs(seed), draw_knobs(seed));
        for lane in [LANE_CRASH_STORMS, LANE_RESIGN_STORMS] {
            assert_eq!(draw_storms(seed, lane, true), draw_storms(seed, lane, true));
        }
    }
}

#[test]
fn every_feature_is_hard_off_and_on_in_a_nontrivial_fraction() {
    // A feature that is almost always on is never tested in isolation, and
    // one that is almost always off is never tested at all. Both halves
    // have to be common enough that a nightly run hits them.
    let plans = sample();
    let names = ["resign", "crash", "sleeper", "watcher", "skew"];
    for (index, name) in names.iter().enumerate() {
        let on = plans.iter().filter(|features| features.bits()[index]).count();
        let off = plans.len() - on;
        let floor = plans.len() * 15 / 100;
        assert!(on >= floor, "{name} was enabled in only {on} of {SAMPLES}");
        assert!(off >= floor, "{name} was disabled in only {off} of {SAMPLES}");
    }
}

#[test]
fn extreme_subsets_are_oversampled() {
    // The whole point of the fat-tailed selector: five fair coins would put
    // each extreme at about three percent.
    let plans = sample();
    let all = plans.iter().filter(|features| **features == FeatureSet::all()).count();
    let none = plans.iter().filter(|features| **features == FeatureSet::nothing()).count();
    let floor = plans.len() * 5 / 100;
    assert!(all >= floor, "everything enabled in only {all} of {SAMPLES}");
    assert!(none >= floor, "nothing enabled in only {none} of {SAMPLES}");

    for index in 0..FEATURE_COUNT {
        let mut bits = [false; FEATURE_COUNT];
        bits[index] = true;
        let wanted = FeatureSet::from_bits(bits);
        assert!(
            plans.iter().any(|features| *features == wanted),
            "no seed isolated feature {index} on its own"
        );
    }
}

#[test]
fn lease_palette_boundaries_are_hit() {
    let leases: Vec<LeaseDraw> = (0..SAMPLES).map(|seed| draw_knobs(seed).lease).collect();
    assert!(leases.iter().any(|lease| *lease == LeaseDraw::Preferred(1)));
    assert!(leases.iter().any(|lease| *lease == LeaseDraw::Preferred(16)));
    assert!(
        leases.iter().any(|lease| matches!(lease, LeaseDraw::Between(_))),
        "the uniform tail never produced an off-palette lease"
    );
    for lease in leases {
        match lease {
            LeaseDraw::Preferred(secs) => assert!([1, 2, 3, 4, 8, 16].contains(&secs)),
            LeaseDraw::Between(steps) => assert!(steps < 1 << 53),
        }
    }
}

#[test]
fn storms_leave_the_recovery_tail_fault_free() {
    // However long a storm was meant to be and wherever it was meant to start.
    let deadline = secs(80);
    for len in [0u64, 3, 48, 80, 200] {
        for start in [0u64, 5, 79, 80, 500] {
            let storm = Storm::fitted(secs(len), secs(start), 100, deadline);
            assert!(!deadline.shorter_than(&storm.end()));
            for tenth in 0..10u64 {
                assert_eq!(percent_at(&[storm], secs(80 + 4 * tenth)), 0);
            }
        }
    }
}

#[test]
fn a_disabled_feature_has_no_storms() {
    // Off must mean unreachable, not unlikely: that is what makes a
    // one-feature plan a deeper test of that feature.
    let mut checked_crash = 0;
    let mut checked_resign = 0;
    for seed in 0..SAMPLES {
        let features = draw_features(seed);
        let crash = draw_storms(seed, LANE_CRASH_STORMS, features.crash);
        let resign = draw_storms(seed, LANE_RESIGN_STORMS, features.resign);
        if !features.crash {
            checked_crash += 1;
            assert!(crash.is_empty());
        } else {
            assert!(!crash.is_empty());
        }
        if !features.resign {
            checked_resign += 1;
            assert!(resign.is_empty());
        } else {
            assert!(!resign.is_empty());
        }
    }
    assert!(checked_crash > 0 && checked_resign > 0, "nothing was checked");
    for probe in 0..=120 {
        assert_eq!(percent_at(&[], secs(probe)), 0);
    }
}

#[test]
fn storm_windows_carry_their_intensity() {
    let storms = [
        Storm { start: secs(10), len: secs(10), percent: 25 },
        Storm { start: secs(15), len: secs(10), percent: 100 },
        Storm { start: secs(40), len: secs(5), percent: 60 },
    ];

    assert_eq!(percent_at(&storms, secs(0)), 0);
    assert_eq!(percent_at(&storms, secs(12)), 25);
    // Overlap: the worst of the two, not their sum.
    assert_eq!(percent_at(&storms, secs(17)), 100);
    assert_eq!(percent_at(&storms, secs(22)), 100);
    // The window is half-open, so its own end is already outside.
    assert_eq!(percent_at(&storms, secs(25)), 0);
    assert_eq!(percent_at(&storms, secs(30)), 0);
    assert_eq!(percent_at(&storms, secs(42)), 60);
    assert_eq!(percent_at(&storms, secs(45)), 0);
}

#[test]
fn thresholds_are_never_vacuous() {
    // A run that has to prove nothing is a run that passes every safety
    // check by never doing anything.
    for features in sample() {
        for clients in 1..=8 {
            let thresholds = thresholds(features, secs(1), clients);
            assert!(thresholds.min_acquisitions >= 1);
            assert!(thresholds.min_observed_identities >= 2);
            assert!(!thresholds.renew_interval.is_zero());
        }
    }
}

#[test]
fn thresholds_follow_the_drawn_churn() {
    let with = |features: FeatureSet, clients: i32| thresholds(features, secs(6), clients);

    let quiet = with(FeatureSet::nothing(), 8);
    assert_eq!(quiet.min_acquisitions, 1);
    assert_eq!(quiet.min_renewals, 2);
    assert_eq!(quiet.min_observed_identities, 2);
    assert_eq!(quiet.renew_interval, secs(2));

    for feature in ["crash", "resign", "sleeper"] {
        let mut features = FeatureSet::nothing();
        match feature {
            "crash" => features.crash = true,
            "resign" => features.resign = true,
            _ => features.sleeper = true,
        }
        let thresholds = with(features, 8);
        assert_eq!(thresholds.min_acquisitions, 2, "{feature} did not add an acquisition");
        assert_eq!(thresholds.min_observed_identities, 3, "{feature} did not add an identity");
        assert_eq!(thresholds.min_renewals, 2, "{feature} scaled the renewals");
    }

    // A sleeper with nobody to take over from it produces no churn.
    let mut sleeper = FeatureSet::nothing();
    sleeper.sleeper = true;
    for clients in 1..=2 {
        let thresholds = with(sleeper, clients);
        assert_eq!(thresholds.min_acquisitions, 1);
        assert_eq!(thresholds.min_observed_identities, 2);
    }

    // Everything at once, and the identity bound stops at five.
    let busy = with(FeatureSet::all(), 8);
    assert_eq!(busy.min_acquisitions, 4);
    assert_eq!(busy.min_observed_identities, 5);
}

#[test]
fn skew_mode_follows_the_skew_feature() {
    let mut random = 0;
    let mut extreme = 0;
    for seed in 0..SAMPLES {
        let features = draw_features(seed);
        let skew_mode = draw_skew_mode(seed, features);
        if features.skew {
            match skew_mode {
                SkewMode::Random => random += 1,
                SkewMode::Extreme => extreme += 1,
                SkewMode::Unskewed => panic!("the skew feature drew an unskewed clock"),
            }
        } else {
            assert_eq!(
                skew_mode,
                SkewMode::Unskewed,
                "seed {seed} skewed clocks with the feature off"
            );
        }
    }
    assert!(random > 0 && extreme > 0, "one skew mode was never drawn");
}

#[test]
fn lanes_stay_isolated() {
    // Two lanes of the same seed are unrelated, not one sequence at two
    // offsets.
    let stream = |lane: u64| {
        let mut rng = SwarmRng::lane(1234, lane);
        (0..8).map(|_| rng.next()).collect::<Vec<u64>>()
    };
    assert_ne!(stream(LANE_CRASH_STORMS), stream(LANE_RESIGN_STORMS));
    let distinct: HashSet<u64> = [
        LANE_FEATURES,
        LANE_SKEW,
        LANE_KNOBS,
        LANE_CRASH_STORMS,
        LANE_RESIGN_STORMS,
    ]
    .into_iter()
    .collect();
    assert_eq!(distinct.len(), 5, "two sections share a lane constant");
}

#[test]
fn mixing_scatters_its_input() {
    assert_eq!(mix(0), 0);
    // The first outputs of the generator from a state of zero.
    let mut rng = SwarmRng { state: 0 };
    assert_eq!(rng.next(), 0xE220_A839_7B1D_CDAF);
    assert_eq!(rng.next(), 0x6E78_9E6A_A1B9_65F4);
    assert_eq!(rng.next(), 0x06C4_5D18_8009_454F);
    let mut rng = SwarmRng { state: 0 };
    assert_eq!(rng.unit_steps(), 0xE220_A839_7B1D_CDAF >> 11);
    let mut rng = SwarmRng { state: 0 };
    assert_eq!(rng.pick(10), 0xE220_A839_7B1D_CDAF % 10);
}

#[test]
fn feature_bits_round_trip() {
    for pattern in 0..32u32 {
        let mut bits = [false; FEATURE_COUNT];
        for (index, bit) in bits.iter_mut().enumerate() {
            *bit = pattern >> index & 1 == 1;
        }
        let features = FeatureSet::from_bits(bits);
        assert_eq!(features.bits(), bits);
        assert_eq!(features.enabled(), pattern.count_ones() as usize);
    }
    assert_eq!(on_off(true), "on");
    assert_eq!(on_off(false), "off");
}
