//! What a seed decides, in plain numbers.

use crate::clock::SkewMode;
use crate::duration;
use crate::swarm;
use crate::swarm::{FeatureSet, LeaseDraw, Shape, Storm};
use vstd::prelude::*;

verus! {

// ---------------------------------------------------------------------------
// Draws
// ---------------------------------------------------------------------------

proof fn shifting_divides(x: u64)
    ensures
        x >> 30 == x / 0x4000_0000,
        x >> 27 == x / 0x800_0000,
        x >> 31 == x / 0x8000_0000,
        x >> 11 == x / 0x800,
{
    assert(x >> 30 == x / 0x4000_0000) by (bit_vector);
    assert(x >> 27 == x / 0x800_0000) by (bit_vector);
    assert(x >> 31 == x / 0x8000_0000) by (bit_vector);
    assert(x >> 11 == x / 0x800) by (bit_vector);
}

/// Mixing folds a number's high bits onto its low ones three times, and multiplies what the
/// first two folds leave, modulo a word.
pub proof fn mixing_folds_and_multiplies(value: u64, a: u64, b: u64, c: u64, d: u64)
    requires
        a == value ^ (value / 0x4000_0000),
        b == (a * 0xBF58_476D_1CE4_E5B9) % 0x1_0000_0000_0000_0000,
        c == b ^ (b / 0x800_0000),
        d == (c * 0x94D0_49BB_1331_11EB) % 0x1_0000_0000_0000_0000,
    ensures
        swarm::mixed(value) == d ^ (d / 0x8000_0000),
{
    shifting_divides(value);
    shifting_divides(b);
    shifting_divides(d);
    assert(0xBF58_476D_1CE4_E5B9u64 as nat == 0xBF58_476D_1CE4_E5B9nat);
}

/// A lane moves on by the same odd step each time: after `n` draws it is `n` steps from where
/// it began, modulo a word.
pub proof fn a_lane_moves_on_by_its_step(start: u64, n: nat)
    ensures
        swarm::lane_after(start, n) == (start + n * 0x9E37_79B9_7F4A_7C15)
            % 0x1_0000_0000_0000_0000,
    decreases n,
{
    if n > 0 {
        a_lane_moves_on_by_its_step(start, (n - 1) as nat);
        let word = 0x1_0000_0000_0000_0000int;
        let step = 0x9E37_79B9_7F4A_7C15int;
        let before = start + (n - 1) * step;
        let now = start + n * step;
        assert(now == before + step) by (nonlinear_arith)
            requires
                before == start + (n - 1) * step,
                now == start + n * step,
        ;
        let m = before % word;
        let q = before / word;
        vstd::arithmetic::div_mod::lemma_fundamental_div_mod(before, word);
        if m + step > u64::MAX {
            vstd::arithmetic::div_mod::lemma_fundamental_div_mod_converse(
                now,
                word,
                q + 1,
                m + step - word,
            );
        } else {
            vstd::arithmetic::div_mod::lemma_fundamental_div_mod_converse(now, word, q, m + step);
        }
    } else {
        assert(start + 0 * 0x9E37_79B9_7F4A_7C15 == start);
    }
}

/// A draw is the mix of where its lane stands, and a draw's reach its upper fifty-three
/// bits.
pub proof fn a_draw_is_the_mix_of_where_its_lane_stands(start: u64, n: nat, at: u64, value: u64)
    requires
        at == (start + n * 0x9E37_79B9_7F4A_7C15) % 0x1_0000_0000_0000_0000,
    ensures
        swarm::drawn(start, n) == swarm::mixed(at),
        swarm::reach(value) == value / 2048,
{
    a_lane_moves_on_by_its_step(start, n);
    shifting_divides(value);
}

/// A lane begins at the mix of its seed and its own number of steps.
pub proof fn a_lane_begins_at_its_own_place(seed: u64, lane: u64, steps: u64)
    requires
        steps == (lane * 0x9E37_79B9_7F4A_7C15) % 0x1_0000_0000_0000_0000,
    ensures
        swarm::lane_start(seed, lane) == swarm::mixed(seed ^ steps),
{
}

// ---------------------------------------------------------------------------
// Features
// ---------------------------------------------------------------------------

/// How many features a set has.
pub open spec fn size(f: FeatureSet) -> int {
    (if f.resign {
        1int
    } else {
        0
    }) + (if f.crash {
        1int
    } else {
        0
    }) + (if f.sleeper {
        1int
    } else {
        0
    }) + (if f.watcher {
        1int
    } else {
        0
    }) + (if f.skew {
        1int
    } else {
        0
    })
}

/// A tenth of the reach is everything, another nothing, three twentieths are one feature,
/// another tenth all but one, and the rest is left to coins. The bounds are those of the
/// nearest fractions of two to the power of fifty-three.
pub proof fn shapes_are_dealt_out_in_order(steps: u64)
    ensures
        swarm::shape_at(steps) == Shape::Everything <==> 10 * steps < 0x20_0000_0000_0000,
        swarm::shape_at(steps) == Shape::Nothing <==> 0x20_0000_0000_0000 <= 10 * steps && 5 * steps
            < 0x20_0000_0000_0000,
        swarm::shape_at(steps) == Shape::One <==> 0x20_0000_0000_0000 <= 5 * steps && steps
            < 3_152_519_739_159_347,
        swarm::shape_at(steps) == Shape::AllButOne <==> 3_152_519_739_159_347 <= steps && steps
            < 4_053_239_664_633_447,
        swarm::shape_at(steps) == Shape::Coins <==> 4_053_239_664_633_447 <= steps,
{
}

/// What a seed's features are: all, none, the one whose turn was drawn, all but that one, or
/// each by a coin of its own.
pub proof fn features_are_drawn_by_their_shape(seed: u64)
    ensures
        ({
            let start = swarm::lane_start(seed, 1);
            let f = swarm::features_of(seed);
            let turn = swarm::drawn(start, 2) % 5;
            match swarm::shape_at(swarm::reach(swarm::drawn(start, 1))) {
                Shape::Everything => size(f) == 5,
                Shape::Nothing => size(f) == 0,
                Shape::One => {
                    &&& size(f) == 1
                    &&& f.resign == (turn == 0) && f.crash == (turn == 1) && f.sleeper == (turn
                        == 2) && f.watcher == (turn == 3) && f.skew == (turn == 4)
                },
                Shape::AllButOne => {
                    &&& size(f) == 4
                    &&& f.resign == (turn != 0) && f.crash == (turn != 1) && f.sleeper == (turn
                        != 2) && f.watcher == (turn != 3) && f.skew == (turn != 4)
                },
                Shape::Coins => {
                    &&& f.resign <==> 2 * swarm::reach(swarm::drawn(start, 2))
                        < 0x20_0000_0000_0000
                    &&& f.crash <==> 2 * swarm::reach(swarm::drawn(start, 3)) < 0x20_0000_0000_0000
                    &&& f.sleeper <==> 2 * swarm::reach(swarm::drawn(start, 4))
                        < 0x20_0000_0000_0000
                    &&& f.watcher <==> 2 * swarm::reach(swarm::drawn(start, 5))
                        < 0x20_0000_0000_0000
                    &&& f.skew <==> 2 * swarm::reach(swarm::drawn(start, 6)) < 0x20_0000_0000_0000
                },
            }
        }),
{
    assert(swarm::drawn(swarm::lane_start(seed, 1), 2) % 5 < 5);
}

/// Clocks are skewed where the feature is on, at random for one half of the reach and to the
/// extreme for the other.
pub proof fn skew_is_drawn_where_it_is_on(seed: u64, features: FeatureSet)
    ensures
        ({
            let reach = swarm::reach(swarm::drawn(swarm::lane_start(seed, 2), 1));
            let skew = swarm::skew_of(seed, features);
            &&& skew == SkewMode::Unskewed <==> !features.skew
            &&& skew == SkewMode::Random <==> features.skew && 2 * reach < 0x20_0000_0000_0000
            &&& skew == SkewMode::Extreme <==> features.skew && 2 * reach >= 0x20_0000_0000_0000
        }),
{
}

/// The preferred leases are one, two, three, four, eight and sixteen seconds, the steps one,
/// two, four and eight quarters, the pauses three, four and six halves, the storms one, two
/// and four leases long and a fourth, three fifths or all of the way likely.
pub proof fn palettes_hold_what_is_preferred()
    ensures
        swarm::lease_palette(0) == 1,
        swarm::lease_palette(1) == 2,
        swarm::lease_palette(2) == 3,
        swarm::lease_palette(3) == 4,
        swarm::lease_palette(4) == 8,
        swarm::lease_palette(5) == 16,
        swarm::step_palette(0) == 1,
        swarm::step_palette(1) == 2,
        swarm::step_palette(2) == 4,
        swarm::step_palette(3) == 8,
        swarm::pause_palette(0) == 3,
        swarm::pause_palette(1) == 4,
        swarm::pause_palette(2) == 6,
        swarm::length_palette(0) == 1,
        swarm::length_palette(1) == 2,
        swarm::length_palette(2) == 4,
        swarm::intensity_palette(0) == 25,
        swarm::intensity_palette(1) == 60,
        swarm::intensity_palette(2) == 100,
{
}

/// A seed's knobs come from its own lane: whether the lease is a preferred one, which one or
/// how far between, the step and the pause, each from a draw of its own.
pub proof fn knobs_are_drawn_one_by_one(seed: u64)
    ensures
        ({
            let start = swarm::lane_start(seed, 3);
            let k = swarm::knobs_of(seed);
            &&& k.lease is Preferred <==> swarm::reach(swarm::drawn(start, 1))
                < 6_305_039_478_318_694
            &&& k.lease matches LeaseDraw::Preferred(secs) ==> secs == swarm::lease_palette(
                (swarm::drawn(start, 2) % 6) as int,
            )
            &&& k.lease matches LeaseDraw::Between(steps) ==> steps == swarm::reach(
                swarm::drawn(start, 2),
            )
            &&& k.step_quarters == swarm::step_palette((swarm::drawn(start, 3) % 4) as int)
            &&& k.pause_halves == swarm::pause_palette((swarm::drawn(start, 4) % 3) as int)
        }),
{
}

// ---------------------------------------------------------------------------
// Storms
// ---------------------------------------------------------------------------

/// Half of the reach is one storm, three tenths are two, and the rest is three.
pub proof fn storms_are_one_to_three(steps: u64)
    ensures
        swarm::storm_count(steps) == 1 <==> 2 * steps < 0x20_0000_0000_0000,
        swarm::storm_count(steps) == 2 <==> 2 * steps >= 0x20_0000_0000_0000 && 5 * steps < 4
            * 0x20_0000_0000_0000,
        swarm::storm_count(steps) == 3 <==> 5 * steps >= 4 * 0x20_0000_0000_0000,
{
}

/// Storms are drawn one after the other from their lane, with three draws each: how long,
/// how likely and from when on.
pub proof fn storms_are_drawn_three_draws_each(seed: u64, lane: u64, i: int)
    requires
        0 <= i < swarm::storms_of(seed, lane, true).len(),
    ensures
        ({
            let start = swarm::lane_start(seed, lane);
            let storms = swarm::storms_of(seed, lane, true);
            let d = (3 * i) as nat;
            &&& storms.len() == swarm::storm_count(swarm::reach(swarm::drawn(start, 1)))
            &&& storms[i].len_leases == swarm::length_palette(
                (swarm::drawn(start, d + 2) % 3) as int,
            )
            &&& storms[i].percent == swarm::intensity_palette(
                (swarm::drawn(start, d + 3) % 3) as int,
            )
            &&& storms[i].start_steps == swarm::reach(swarm::drawn(start, d + 4))
        }),
        swarm::storms_of(seed, lane, false).len() == 0,
{
    let start = swarm::lane_start(seed, lane);
    let d = (3 * i) as nat;
    assert((1 + 3 * i) as nat == d + 1);
}

/// A storm holds from its start on for as long as it lasts, and no longer.
pub proof fn a_storm_holds_while_it_lasts(storm: Storm, elapsed: nat)
    requires
        storm.start@ + storm.len@ <= duration::longest(),
    ensures
        storm.closes() == storm.start@ + storm.len@,
        storm.holds(elapsed) <==> storm.start@ <= elapsed && elapsed - storm.start@ < storm.len@,
{
}

/// Whether a storm is blowing at an instant.
pub open spec fn blows(storm: Storm, elapsed: nat) -> bool {
    storm.start@ <= elapsed && elapsed - storm.start@ < storm.len@
}

/// The fault is as likely as the worst storm that is blowing says, and not at all where none
/// is.
pub proof fn the_fault_is_as_likely_as_the_worst_storm_blowing(
    storms: Seq<Storm>,
    elapsed: nat,
    n: int,
)
    requires
        0 <= n <= storms.len(),
        forall|i: int|
            0 <= i < n ==> (#[trigger] storms[i]).start@ + storms[i].len@ <= duration::longest(),
    ensures
        forall|i: int|
            0 <= i < n && blows(#[trigger] storms[i], elapsed) ==> storms[i].percent
                <= swarm::worst(storms, elapsed, n),
        swarm::worst(storms, elapsed, n) > 0 ==> exists|i: int|
            0 <= i < n && blows(#[trigger] storms[i], elapsed) && storms[i].percent
                == swarm::worst(storms, elapsed, n),
    decreases n,
{
    if n > 0 {
        the_fault_is_as_likely_as_the_worst_storm_blowing(storms, elapsed, n - 1);
        let last = storms[n - 1];
        assert(last.holds(elapsed) <==> blows(last, elapsed));
        let w = swarm::worst(storms, elapsed, n);
        if w > 0 && w == swarm::worst(storms, elapsed, n - 1) {
            let i = choose|i: int|
                0 <= i < n - 1 && blows(#[trigger] storms[i], elapsed) && storms[i].percent == w;
            assert(blows(storms[i], elapsed));
        }
    }
}

/// Churn comes from crashes, from resignations, and from a sleeper among at least three
/// clients: one for each.
pub proof fn churn_has_three_sources(features: FeatureSet, client_count: i32)
    ensures
        ({
            let sleeps = features.sleeper && client_count >= 3;
            let churn = swarm::churn_of(features, client_count);
            &&& 0 <= churn <= 3
            &&& churn == 3 <==> features.crash && features.resign && sleeps
            &&& churn == 0 <==> !features.crash && !features.resign && !sleeps
            &&& churn == 1 <==> {
                ||| features.crash && !features.resign && !sleeps
                ||| !features.crash && features.resign && !sleeps
                ||| !features.crash && !features.resign && sleeps
            }
        }),
{
}

} // verus!
