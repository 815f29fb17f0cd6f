//! The swarm-testing plan: what a run is allowed to look like.
//!
//! A seed does not just pick a schedule, it picks a configuration. Every section
//! of the draw reads a lane of its own, so adding a draw to one section never
//! shifts what another produces. The draws are made here; the spans of time that
//! are scaled by them are not, because those are floating point.

use crate::clock::SkewMode;
use crate::duration::Duration;
use crate::invariants::ProgressThresholds;
use crate::lease_oracle;
use vstd::prelude::*;

verus! {

// ---------------------------------------------------------------------------
// The generator
// ---------------------------------------------------------------------------

/// The SplitMix64 increment.
pub const GOLDEN: u64 = 0x9E37_79B9_7F4A_7C15;

/// The lane the feature subset is drawn from.
pub const LANE_FEATURES: u64 = 1;

/// The lane the clock skew mode is drawn from.
pub const LANE_SKEW: u64 = 2;

/// The lane the timing knobs are drawn from.
pub const LANE_KNOBS: u64 = 3;

/// The lane the crash storms are drawn from.
pub const LANE_CRASH_STORMS: u64 = 4;

/// The lane the resign storms are drawn from.
pub const LANE_RESIGN_STORMS: u64 = 5;

/// The SplitMix64 finalizer.
pub open spec fn mixed(value: u64) -> u64 {
    let y = (value ^ (value >> 30)).wrapping_mul(0xBF58_476D_1CE4_E5B9);
    let z = (y ^ (y >> 27)).wrapping_mul(0x94D0_49BB_1331_11EB);
    z ^ (z >> 31)
}

/// The SplitMix64 finalizer.
pub fn mix(value: u64) -> (r: u64)
    ensures
        r == mixed(value),
{
    let y: u64 = (value ^ (value >> 30)).wrapping_mul(0xBF58_476D_1CE4_E5B9);
    let z: u64 = (y ^ (y >> 27)).wrapping_mul(0x94D0_49BB_1331_11EB);
    z ^ (z >> 31)
}

/// Where a lane begins.
pub open spec fn lane_start(seed: u64, lane: u64) -> u64 {
    mixed(seed ^ lane.wrapping_mul(GOLDEN))
}

/// Where a lane stands after `n` values.
pub open spec fn lane_after(start: u64, n: nat) -> u64
    decreases n,
{
    if n == 0 {
        start
    } else {
        lane_after(start, (n - 1) as nat).wrapping_add(GOLDEN)
    }
}

/// The `n`th value of a lane that stood at `start`, counted from one.
pub open spec fn drawn(start: u64, n: nat) -> u64 {
    mixed(lane_after(start, n))
}

/// How far a value reaches into the unit interval, in steps of 2 to the power of
/// minus 53: its top 53 bits.
pub open spec fn reach(value: u64) -> u64 {
    value >> 11
}

/// A deterministic generator for one lane of the draw.
#[derive(Debug, Clone, Copy, PartialEq, Eq, Structural)]
pub struct SwarmRng {
    /// Where the lane stands.
    pub state: u64,
}

impl SwarmRng {
    /// The generator for `lane` of the draw for `seed`.
    pub fn lane(seed: u64, lane: u64) -> (r: SwarmRng)
        ensures
            r.state == lane_start(seed, lane),
    {
        SwarmRng { state: mix(seed ^ lane.wrapping_mul(GOLDEN)) }
    }

    /// The next value in this lane.
    pub fn next(&mut self) -> (r: u64)
        ensures
            final(self).state == old(self).state.wrapping_add(GOLDEN),
            r == mixed(final(self).state),
    {
        self.state = self.state.wrapping_add(GOLDEN);
        mix(self.state)
    }

    /// How far the next value reaches into the unit interval, in steps of 2 to the
    /// power of minus 53.
    pub fn unit_steps(&mut self) -> (r: u64)
        ensures
            final(self).state == old(self).state.wrapping_add(GOLDEN),
            r == reach(mixed(final(self).state)),
            r < 0x20_0000_0000_0000,
    {
        let value: u64 = self.next();
        assert(value >> 11 < 0x20_0000_0000_0000u64) by (bit_vector);
        value >> 11
    }

    /// The next value as a choice among `count`.
    pub fn pick(&mut self, count: u64) -> (r: u64)
        requires
            count > 0,
        ensures
            final(self).state == old(self).state.wrapping_add(GOLDEN),
            r == mixed(final(self).state) % count,
            r < count,
    {
        self.next() % count
    }
}

/// No two sections share a lane.
pub proof fn sections_have_their_own_lanes()
    ensures
        LANE_FEATURES != LANE_SKEW,
        LANE_FEATURES != LANE_KNOBS,
        LANE_FEATURES != LANE_CRASH_STORMS,
        LANE_FEATURES != LANE_RESIGN_STORMS,
        LANE_SKEW != LANE_KNOBS,
        LANE_SKEW != LANE_CRASH_STORMS,
        LANE_SKEW != LANE_RESIGN_STORMS,
        LANE_KNOBS != LANE_CRASH_STORMS,
        LANE_KNOBS != LANE_RESIGN_STORMS,
        LANE_CRASH_STORMS != LANE_RESIGN_STORMS,
{
}

// ---------------------------------------------------------------------------
// Features
// ---------------------------------------------------------------------------

/// How many features the subset is drawn over.
pub const FEATURE_COUNT: usize = 5;

/// Which behaviours a run is allowed to exercise.
#[derive(Debug, Clone, Copy, PartialEq, Eq, Structural)]
pub struct FeatureSet {
    /// Leaders may hand their term back voluntarily.
    pub resign: bool,
    /// Leaders may stop responding for longer than their lease.
    pub crash: bool,
    /// One client may pause across a lease boundary.
    pub sleeper: bool,
    /// Some clients only watch, and never campaign.
    pub watcher: bool,
    /// Clients' clocks may disagree.
    pub skew: bool,
}

impl FeatureSet {
    /// The subset whose features are those that a predicate picks by number, in the
    /// order resign, crash, sleeper, watcher, skew.
    pub open spec fn picked(f: spec_fn(int) -> bool) -> FeatureSet {
        FeatureSet { resign: f(0), crash: f(1), sleeper: f(2), watcher: f(3), skew: f(4) }
    }

    /// The subset with every feature enabled.
    pub fn all() -> (r: FeatureSet)
        ensures
            r == FeatureSet::picked(|i: int| true),
    {
        FeatureSet { resign: true, crash: true, sleeper: true, watcher: true, skew: true }
    }

    /// The subset with nothing enabled.
    pub fn nothing() -> (r: FeatureSet)
        ensures
            r == FeatureSet::picked(|i: int| false),
    {
        FeatureSet { resign: false, crash: false, sleeper: false, watcher: false, skew: false }
    }

    /// The subset with these bits, in the order of the draw.
    pub fn from_bits(bits: [bool; 5]) -> (r: FeatureSet)
        ensures
            r == FeatureSet::picked(|i: int| bits@[i]),
    {
        FeatureSet {
            resign: bits[0],
            crash: bits[1],
            sleeper: bits[2],
            watcher: bits[3],
            skew: bits[4],
        }
    }

    /// The bits of the subset, in the order of the draw.
    pub fn bits(self) -> (r: [bool; 5])
        ensures
            r@ == seq![self.resign, self.crash, self.sleeper, self.watcher, self.skew],
    {
        let r: [bool; 5] = [self.resign, self.crash, self.sleeper, self.watcher, self.skew];
        assert(r@ =~= seq![self.resign, self.crash, self.sleeper, self.watcher, self.skew]);
        r
    }

    /// How many features are enabled.
    pub fn enabled(self) -> (r: usize)
        ensures
            r == number_of(self.resign) + number_of(self.crash) + number_of(self.sleeper)
                + number_of(self.watcher) + number_of(self.skew),
    {
        count_of(self.resign) + count_of(self.crash) + count_of(self.sleeper) + count_of(
            self.watcher,
        ) + count_of(self.skew)
    }
}

/// One where something holds, none where it does not.
pub open spec fn number_of(holds: bool) -> int {
    if holds {
        1
    } else {
        0
    }
}

fn count_of(holds: bool) -> (r: usize)
    ensures
        r == number_of(holds),
        r <= 1,
{
    if holds {
        1
    } else {
        0
    }
}

/// Rebuilding a subset from its bits gives it back.
pub proof fn bits_round_trip(features: FeatureSet)
    ensures
        FeatureSet::picked(
            |i: int|
                seq![
                    features.resign,
                    features.crash,
                    features.sleeper,
                    features.watcher,
                    features.skew,
                ][i],
        ) == features,
{
}

/// The shape a subset is drawn in.
#[derive(Debug, Clone, Copy, PartialEq, Eq, Structural)]
pub enum Shape {
    /// Every feature.
    Everything,
    /// No feature.
    Nothing,
    /// Exactly one feature.
    One,
    /// Every feature but one.
    AllButOne,
    /// A coin for each.
    Coins,
}

/// The shape that a point of the unit interval picks: a tenth each for everything
/// and for nothing, then fifteen hundredths for one, a tenth for all but one, and
/// coins for the rest. The bounds are those tenths and hundredths as a double
/// holds them.
pub open spec fn shape_at(steps: u64) -> Shape {
    if steps < 900_719_925_474_100 {
        Shape::Everything
    } else if steps < 1_801_439_850_948_199 {
        Shape::Nothing
    } else if steps < 3_152_519_739_159_347 {
        Shape::One
    } else if steps < 4_053_239_664_633_447 {
        Shape::AllButOne
    } else {
        Shape::Coins
    }
}

/// Half of the unit interval, in steps.
pub const HALF: u64 = 4_503_599_627_370_496;

/// The subset a seed draws: a shape first, and then what the shape needs.
pub open spec fn features_of(seed: u64) -> FeatureSet {
    let start = lane_start(seed, LANE_FEATURES);
    let index = drawn(start, 2) % 5;
    match shape_at(reach(drawn(start, 1))) {
        Shape::Everything => FeatureSet::picked(|i: int| true),
        Shape::Nothing => FeatureSet::picked(|i: int| false),
        Shape::One => FeatureSet::picked(|i: int| i == index),
        Shape::AllButOne => FeatureSet::picked(|i: int| i != index),
        Shape::Coins => FeatureSet::picked(
            |i: int| reach(drawn(start, (i + 2) as nat)) < HALF,
        ),
    }
}

fn pick_shape(steps: u64) -> (r: Shape)
    ensures
        r == shape_at(steps),
{
    if steps < 900_719_925_474_100 {
        Shape::Everything
    } else if steps < 1_801_439_850_948_199 {
        Shape::Nothing
    } else if steps < 3_152_519_739_159_347 {
        Shape::One
    } else if steps < 4_053_239_664_633_447 {
        Shape::AllButOne
    } else {
        Shape::Coins
    }
}

/// The subset a seed draws.
pub fn draw_features(seed: u64) -> (r: FeatureSet)
    ensures
        r == features_of(seed),
{
    proof {
        reveal_with_fuel(lane_after, 7);
    }
    let mut rng = SwarmRng::lane(seed, LANE_FEATURES);
    let ghost start = rng.state;
    let steps: u64 = rng.unit_steps();
    assert(rng.state == lane_after(start, 1));
    match pick_shape(steps) {
        Shape::Everything => FeatureSet::all(),
        Shape::Nothing => FeatureSet::nothing(),
        Shape::One => {
            let index: u64 = rng.pick(5);
            assert(rng.state == lane_after(start, 2));
            FeatureSet {
                resign: index == 0,
                crash: index == 1,
                sleeper: index == 2,
                watcher: index == 3,
                skew: index == 4,
            }
        },
        Shape::AllButOne => {
            let index: u64 = rng.pick(5);
            assert(rng.state == lane_after(start, 2));
            FeatureSet {
                resign: index != 0,
                crash: index != 1,
                sleeper: index != 2,
                watcher: index != 3,
                skew: index != 4,
            }
        },
        Shape::Coins => {
            let resign = rng.unit_steps() < HALF;
            assert(rng.state == lane_after(start, 2));
            let crash = rng.unit_steps() < HALF;
            assert(rng.state == lane_after(start, 3));
            let sleeper = rng.unit_steps() < HALF;
            assert(rng.state == lane_after(start, 4));
            let watcher = rng.unit_steps() < HALF;
            assert(rng.state == lane_after(start, 5));
            let skew = rng.unit_steps() < HALF;
            assert(rng.state == lane_after(start, 6));
            FeatureSet { resign, crash, sleeper, watcher, skew }
        },
    }
}

/// The skew mode a seed draws: none where the feature is off, and a coin between the
/// two others where it is on.
pub open spec fn skew_of(seed: u64, features: FeatureSet) -> SkewMode {
    if !features.skew {
        SkewMode::Unskewed
    } else if reach(drawn(lane_start(seed, LANE_SKEW), 1)) < HALF {
        SkewMode::Random
    } else {
        SkewMode::Extreme
    }
}

/// The skew mode a seed draws.
pub fn draw_skew_mode(seed: u64, features: FeatureSet) -> (r: SkewMode)
    ensures
        r == skew_of(seed, features),
{
    proof {
        reveal_with_fuel(lane_after, 2);
    }
    let mut rng = SwarmRng::lane(seed, LANE_SKEW);
    let steps: u64 = rng.unit_steps();
    if !features.skew {
        SkewMode::Unskewed
    } else if steps < HALF {
        SkewMode::Random
    } else {
        SkewMode::Extreme
    }
}

/// Clocks are skewed exactly where the feature was drawn.
pub proof fn skew_follows_its_feature(seed: u64, features: FeatureSet)
    ensures
        skew_of(seed, features) is Unskewed <==> !features.skew,
{
}

// ---------------------------------------------------------------------------
// Knobs
// ---------------------------------------------------------------------------

/// The lease a seed draws.
#[derive(Debug, Clone, Copy, PartialEq, Eq, Structural)]
pub enum LeaseDraw {
    /// One of the preferred leases, in seconds.
    Preferred(u64),
    /// Anywhere between the shortest and the longest preferred lease: how far, in
    /// steps of 2 to the power of minus 53.
    Between(u64),
}

/// What a seed draws about the timing of a run.
#[derive(Debug, Clone, Copy, PartialEq, Eq, Structural)]
pub struct Knobs {
    /// The lease.
    pub lease: LeaseDraw,
    /// The preferred step, in quarters of a second.
    pub step_quarters: u64,
    /// The preferred pause of a sleeper, in halves of a lease.
    pub pause_halves: u64,
}

/// The shortest preferred lease, in seconds.
pub const SHORTEST_LEASE_SECS: u64 = 1;

/// The longest preferred lease, in seconds.
pub const LONGEST_LEASE_SECS: u64 = 16;

/// The preferred leases, in seconds.
pub open spec fn lease_palette(i: int) -> u64 {
    if i == 0 {
        SHORTEST_LEASE_SECS
    } else if i == 1 {
        2
    } else if i == 2 {
        3
    } else if i == 3 {
        4
    } else if i == 4 {
        8
    } else {
        LONGEST_LEASE_SECS
    }
}

/// The preferred steps, in quarters of a second: 1, 2, 4 and 8.
pub open spec fn step_palette(i: int) -> u64 {
    if i == 0 {
        1
    } else if i == 1 {
        2
    } else if i == 2 {
        4
    } else {
        8
    }
}

/// The preferred pauses, in halves of a lease: 3, 4 and 6.
pub open spec fn pause_palette(i: int) -> u64 {
    if i == 0 {
        3
    } else if i == 1 {
        4
    } else {
        6
    }
}

/// What a seed draws about the timing of a run: seven leases in ten are preferred
/// ones. Either way the lease takes two values of the lane, so which it was does
/// not shift what follows.
pub open spec fn knobs_of(seed: u64) -> Knobs {
    let start = lane_start(seed, LANE_KNOBS);
    Knobs {
        lease: if reach(drawn(start, 1)) < 6_305_039_478_318_694 {
            LeaseDraw::Preferred(lease_palette((drawn(start, 2) % 6) as int))
        } else {
            LeaseDraw::Between(reach(drawn(start, 2)))
        },
        step_quarters: step_palette((drawn(start, 3) % 4) as int),
        pause_halves: pause_palette((drawn(start, 4) % 3) as int),
    }
}

fn preferred_lease(i: u64) -> (r: u64)
    ensures
        r == lease_palette(i as int),
{
    if i == 0 {
        SHORTEST_LEASE_SECS
    } else if i == 1 {
        2
    } else if i == 2 {
        3
    } else if i == 3 {
        4
    } else if i == 4 {
        8
    } else {
        LONGEST_LEASE_SECS
    }
}

fn preferred_step(i: u64) -> (r: u64)
    ensures
        r == step_palette(i as int),
{
    if i == 0 {
        1
    } else if i == 1 {
        2
    } else if i == 2 {
        4
    } else {
        8
    }
}

fn preferred_pause(i: u64) -> (r: u64)
    ensures
        r == pause_palette(i as int),
{
    if i == 0 {
        3
    } else if i == 1 {
        4
    } else {
        6
    }
}

/// What a seed draws about the timing of a run.
pub fn draw_knobs(seed: u64) -> (r: Knobs)
    ensures
        r == knobs_of(seed),
{
    proof {
        reveal_with_fuel(lane_after, 5);
    }
    let mut rng = SwarmRng::lane(seed, LANE_KNOBS);
    let ghost start = rng.state;
    let selector: u64 = rng.unit_steps();
    assert(rng.state == lane_after(start, 1));
    let lease = if selector < 6_305_039_478_318_694 {
        LeaseDraw::Preferred(preferred_lease(rng.pick(6)))
    } else {
        LeaseDraw::Between(rng.unit_steps())
    };
    assert(rng.state == lane_after(start, 2));
    let step_quarters: u64 = preferred_step(rng.pick(4));
    assert(rng.state == lane_after(start, 3));
    let pause_halves: u64 = preferred_pause(rng.pick(3));
    assert(rng.state == lane_after(start, 4));
    Knobs { lease, step_quarters, pause_halves }
}

// ---------------------------------------------------------------------------
// Storms
// ---------------------------------------------------------------------------

/// What a seed draws about one storm.
#[derive(Debug, Clone, Copy, PartialEq, Eq, Structural)]
pub struct StormDraw {
    /// How long it lasts, in leases.
    pub len_leases: u64,
    /// How likely the fault is inside it, in hundredths.
    pub percent: u32,
    /// How far into the time there is for it to start in, in steps of 2 to the power
    /// of minus 53.
    pub start_steps: u64,
}

/// The lengths of a storm, in leases: 1, 2 and 4.
pub open spec fn length_palette(i: int) -> u64 {
    if i == 0 {
        1
    } else if i == 1 {
        2
    } else {
        4
    }
}

/// The intensities of a storm, in hundredths: 25, 60 and 100.
pub open spec fn intensity_palette(i: int) -> u32 {
    if i == 0 {
        25
    } else if i == 1 {
        60
    } else {
        100
    }
}

/// How many storms there are: one half of the time, two in three tenths, three
/// otherwise.
pub open spec fn storm_count(steps: u64) -> nat {
    if steps < HALF {
        1
    } else if steps < 7_205_759_403_792_794 {
        2
    } else {
        3
    }
}

/// The storm whose draws begin after `n` values of a lane.
pub open spec fn storm_drawn(start: u64, n: nat) -> StormDraw {
    StormDraw {
        len_leases: length_palette((drawn(start, n + 1) % 3) as int),
        percent: intensity_palette((drawn(start, n + 2) % 3) as int),
        start_steps: reach(drawn(start, n + 3)),
    }
}

/// The storms a seed draws in a lane: none where the feature is off.
pub open spec fn storms_of(seed: u64, lane: u64, enabled: bool) -> Seq<StormDraw> {
    let start = lane_start(seed, lane);
    if enabled {
        Seq::new(
            storm_count(reach(drawn(start, 1))),
            |i: int| storm_drawn(start, (1 + 3 * i) as nat),
        )
    } else {
        Seq::empty()
    }
}

fn draw_storm(rng: &mut SwarmRng, Ghost(start): Ghost<u64>, Ghost(n): Ghost<nat>) -> (r: StormDraw)
    requires
        old(rng).state == lane_after(start, n),
    ensures
        final(rng).state == lane_after(start, n + 3),
        r == storm_drawn(start, n),
{
    proof {
        reveal_with_fuel(lane_after, 2);
    }
    let length: u64 = rng.pick(3);
    assert(rng.state == lane_after(start, n + 1));
    let intensity: u64 = rng.pick(3);
    assert(rng.state == lane_after(start, n + 2));
    let start_steps: u64 = rng.unit_steps();
    assert(rng.state == lane_after(start, n + 3));
    StormDraw {
        len_leases: if length == 0 {
            1
        } else if length == 1 {
            2
        } else {
            4
        },
        percent: if intensity == 0 {
            25
        } else if intensity == 1 {
            60
        } else {
            100
        },
        start_steps,
    }
}

/// The storms a seed draws in a lane.
pub fn draw_storms(seed: u64, lane: u64, enabled: bool) -> (r: Vec<StormDraw>)
    ensures
        r@ == storms_of(seed, lane, enabled),
{
    let mut storms: Vec<StormDraw> = Vec::new();
    if !enabled {
        return storms;
    }
    proof {
        reveal_with_fuel(lane_after, 2);
    }
    let mut rng = SwarmRng::lane(seed, lane);
    let ghost start = rng.state;
    let weight: u64 = rng.unit_steps();
    let count: usize = if weight < HALF {
        1
    } else if weight < 7_205_759_403_792_794 {
        2
    } else {
        3
    };
    let mut i: usize = 0;
    while i < count
        invariant
            i <= count,
            count == storm_count(reach(drawn(start, 1))),
            rng.state == lane_after(start, (1 + 3 * i) as nat),
            storms@.len() == i,
            forall|j: int| 0 <= j < i ==> storms@[j] == storm_drawn(start, (1 + 3 * j) as nat),
        decreases count - i,
    {
        let storm = draw_storm(&mut rng, Ghost(start), Ghost((1 + 3 * i) as nat));
        assert((1 + 3 * i + 3) as nat == (1 + 3 * (i + 1)) as nat);
        storms.push(storm);
        i = i + 1;
    }
    assert(storms@ =~= storms_of(seed, lane, enabled));
    storms
}

/// A fault whose feature is off has no storms, and one whose feature is on has one
/// to three.
pub proof fn storms_follow_their_feature(seed: u64, lane: u64, enabled: bool)
    ensures
        enabled ==> 1 <= storms_of(seed, lane, enabled).len() <= 3,
        !enabled ==> storms_of(seed, lane, enabled).len() == 0,
{
}

/// One window during which a fault is injected at a fixed rate.
#[derive(Debug, Clone, Copy, PartialEq, Eq, Structural)]
pub struct Storm {
    /// When the window opens.
    pub start: Duration,
    /// How long it stays open.
    pub len: Duration,
    /// How likely the fault is inside it, in hundredths.
    pub percent: u32,
}

impl Storm {
    /// When the window closes.
    pub open spec fn closes(self) -> nat {
        lease_oracle::span_sum(self.start@, self.len@)
    }

    /// Whether an instant falls inside the window, which its end does not.
    pub open spec fn holds(self, elapsed: nat) -> bool {
        self.start@ <= elapsed < self.closes()
    }

    /// When the window closes.
    pub fn end(&self) -> (r: Duration)
        ensures
            r@ == self.closes(),
    {
        self.start.saturating_add(self.len)
    }

    /// Whether an instant falls inside the window.
    pub fn covers(&self, elapsed: Duration) -> (r: bool)
        ensures
            r == self.holds(elapsed@),
    {
        !elapsed.shorter_than(&self.start) && elapsed.shorter_than(&self.end())
    }

    /// The storm of a length and a start, cut so that it is over by a deadline.
    pub fn fitted(len: Duration, start: Duration, percent: u32, deadline: Duration) -> (r: Storm)
        ensures
            r.percent == percent,
            r.len@ == (if len@ < deadline@ {
                len@
            } else {
                deadline@
            }),
            r.start@ == (if start@ < deadline@ - r.len@ {
                start@
            } else {
                (deadline@ - r.len@) as nat
            }),
            r.closes() <= deadline@,
    {
        let len = if len.shorter_than(&deadline) {
            len
        } else {
            deadline
        };
        let span = deadline.saturating_sub(len);
        let start = if start.shorter_than(&span) {
            start
        } else {
            span
        };
        Storm { start, len, percent }
    }
}

/// How likely a fault is at an instant, in hundredths: as likely as in the worst of
/// the first `n` storms that hold then.
pub open spec fn worst(storms: Seq<Storm>, elapsed: nat, n: int) -> u32
    decreases n,
{
    if n <= 0 {
        0
    } else {
        let before = worst(storms, elapsed, n - 1);
        if storms[n - 1].holds(elapsed) && storms[n - 1].percent > before {
            storms[n - 1].percent
        } else {
            before
        }
    }
}

/// How likely a fault is at an instant, in hundredths. Storms that overlap do not
/// compound: the worst of them decides.
pub fn percent_at(storms: &[Storm], elapsed: Duration) -> (r: u32)
    ensures
        r == worst(storms@, elapsed@, storms@.len() as int),
{
    let mut r: u32 = 0;
    let mut i: usize = 0;
    while i < storms.len()
        invariant
            i <= storms@.len(),
            r == worst(storms@, elapsed@, i as int),
        decreases storms@.len() - i,
    {
        if storms[i].covers(elapsed) && storms[i].percent > r {
            r = storms[i].percent;
        }
        i = i + 1;
    }
    r
}

/// The worst of the storms that hold decides: it is at least as bad as each of them,
/// and where it is anything at all it is as bad as one of them.
pub proof fn the_worst_storm_decides(storms: Seq<Storm>, elapsed: nat, n: int)
    requires
        0 <= n <= storms.len(),
    ensures
        forall|i: int|
            0 <= i < n && (#[trigger] storms[i]).holds(elapsed) ==> storms[i].percent <= worst(
                storms,
                elapsed,
                n,
            ),
        worst(storms, elapsed, n) > 0 ==> exists|i: int|
            0 <= i < n && (#[trigger] storms[i]).holds(elapsed) && storms[i].percent == worst(
                storms,
                elapsed,
                n,
            ),
    decreases n,
{
    if n > 0 {
        the_worst_storm_decides(storms, elapsed, n - 1);
        let w = worst(storms, elapsed, n);
        if w > 0 {
            if w == worst(storms, elapsed, n - 1) {
                let i = choose|i: int|
                    0 <= i < n - 1 && (#[trigger] storms[i]).holds(elapsed) && storms[i].percent
                        == w;
                assert(storms[i].holds(elapsed));
            } else {
                assert(storms[n - 1].holds(elapsed));
            }
        }
    }
}

/// Storms that are over by a deadline leave everything after it quiet.
pub proof fn the_tail_is_quiet(storms: Seq<Storm>, deadline: nat, elapsed: nat, n: int)
    requires
        0 <= n <= storms.len(),
        forall|i: int| 0 <= i < n ==> (#[trigger] storms[i]).closes() <= deadline,
        elapsed >= deadline,
    ensures
        worst(storms, elapsed, n) == 0,
    decreases n,
{
    if n > 0 {
        the_tail_is_quiet(storms, deadline, elapsed, n - 1);
        assert(storms[n - 1].closes() <= deadline);
    }
}

// ---------------------------------------------------------------------------
// Thresholds
// ---------------------------------------------------------------------------

/// How many sources of churn a subset has among this many clients: a sleeper needs
/// somebody to take over from it.
pub open spec fn churn_of(features: FeatureSet, client_count: i32) -> int {
    number_of(features.crash) + number_of(features.resign) + number_of(
        features.sleeper && client_count >= 3,
    )
}

/// What a run has to have achieved to count as having tested anything: one
/// acquisition and one more for each source of churn, two renewals, two sighted
/// identities and one more for each source of churn but no more than five, and no
/// recovery.
pub fn thresholds(features: FeatureSet, lease: Duration, client_count: i32) -> (r:
    ProgressThresholds)
    ensures
        r.min_acquisitions == 1 + churn_of(features, client_count),
        r.min_renewals == 2,
        r.min_observed_identities == (if 2 + churn_of(features, client_count) < 5 {
            2 + churn_of(features, client_count)
        } else {
            5
        }),
        r.min_recoveries == 0,
        r.renew_interval@ == lease@ / 3,
        r.min_acquisitions >= 1,
        r.min_observed_identities >= 2,
{
    let churn: usize = count_of(features.crash) + count_of(features.resign) + count_of(
        features.sleeper && client_count >= 3,
    );
    ProgressThresholds {
        min_acquisitions: 1 + churn,
        min_renewals: 2,
        min_observed_identities: if 2 + churn < 5 {
            2 + churn
        } else {
            5
        },
        min_recoveries: 0,
        renew_interval: lease.divided_by(3),
    }
}

/// How a feature is rendered in the description of a plan.
pub fn on_off(enabled: bool) -> (r: &'static str)
    ensures
        r@ == (if enabled {
            "on"@
        } else {
            "off"@
        }),
{
    if enabled {
        "on"
    } else {
        "off"
    }
}

} // verus!
