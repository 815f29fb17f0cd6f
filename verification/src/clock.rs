//! How far the clients' clocks may disagree with simulated time, and what a
//! distorted clock reads.

use crate::duration;
use crate::duration::{nanos, Duration};
use crate::replay;
use crate::text::same_text;
use vstd::prelude::*;

verus! {

/// How much the clients' clocks are allowed to disagree.
#[derive(Debug, Clone, Copy, PartialEq, Eq, Structural)]
pub enum SkewMode {
    /// Every client reads true simulated time.
    Unskewed,
    /// Per-client offset and rate error, no steps.
    Random,
    /// Offset, rate error at the bound, plus one jump and one regression.
    Extreme,
}

/// The name a mode is configured under.
pub open spec fn skew_name(mode: SkewMode) -> Seq<char> {
    match mode {
        SkewMode::Unskewed => "none"@,
        SkewMode::Random => "random"@,
        SkewMode::Extreme => "extreme"@,
    }
}

impl SkewMode {
    /// The mode configured under `value`, if there is one.
    pub fn parse(value: &str) -> (r: Option<SkewMode>)
        ensures
            r matches Some(mode) ==> skew_name(mode) == value@,
            r is None ==> forall|mode: SkewMode| skew_name(mode) != value@,
    {
        if same_text(value, "none") {
            Some(SkewMode::Unskewed)
        } else if same_text(value, "random") {
            Some(SkewMode::Random)
        } else if same_text(value, "extreme") {
            Some(SkewMode::Extreme)
        } else {
            proof {
                assert forall|mode: SkewMode| skew_name(mode) != value@ by {
                    match mode {
                        SkewMode::Unskewed => {},
                        SkewMode::Random => {},
                        SkewMode::Extreme => {},
                    }
                }
            }
            None
        }
    }

    /// The name this mode is configured under.
    pub fn as_str(self) -> (r: &'static str)
        ensures
            r@ == skew_name(self),
    {
        match self {
            SkewMode::Unskewed => "none",
            SkewMode::Random => "random",
            SkewMode::Extreme => "extreme",
        }
    }

    /// The worst-case relative clock rate error this mode admits, in percent.
    pub fn max_rate_error_percent(self) -> (r: u32)
        ensures
            r == match self {
                SkewMode::Unskewed => 0u32,
                SkewMode::Random => 1u32,
                SkewMode::Extreme => 5u32,
            },
    {
        match self {
            SkewMode::Unskewed => 0,
            SkewMode::Random => 1,
            SkewMode::Extreme => 5,
        }
    }
}

/// Skew modes are told apart by their names, so a name parses to the mode it
/// came from.
pub proof fn skew_names_are_distinct(a: SkewMode, b: SkewMode)
    ensures
        skew_name(a) == skew_name(b) ==> a == b,
{
    reveal_strlit("none");
    reveal_strlit("random");
    reveal_strlit("extreme");
    if skew_name(a) == skew_name(b) {
        assert(skew_name(a).len() == skew_name(b).len());
    }
}

/// A step a clock takes, and the simulated time at which it takes it.
#[derive(Debug, Clone, Copy, PartialEq, Eq, Structural)]
pub struct ClockStep {
    /// When the step happens, in simulated time.
    pub at: Duration,
    /// How far the reading moves.
    pub by: Duration,
}

/// Whether a step has been taken when simulated time is `sim`.
pub open spec fn step_taken(step: Option<ClockStep>, sim: nat) -> bool {
    step matches Some(step) && sim >= step.at@
}

/// What a distorted clock reads, in nanoseconds: offset and scaled time, moved
/// forward by the jump and backward by the regression once they have happened,
/// and never outside what sixty-four bits hold.
pub open spec fn distorted_nanos(
    offset: nat,
    scaled: nat,
    jump: Option<ClockStep>,
    regression: Option<ClockStep>,
    sim: nat,
) -> int {
    let plain = duration::low_bits(offset) + duration::low_bits(scaled);
    let jumped = if step_taken(jump, sim) {
        replay::capped_sum(plain, duration::low_bits(jump->Some_0.by@) as int)
    } else {
        plain
    };
    if step_taken(regression, sim) {
        replay::floored_difference(jumped, duration::low_bits(regression->Some_0.by@) as int)
    } else {
        jumped
    }
}

/// What a clock reads when simulated time is `sim` and has been scaled by the
/// clock's rate to `scaled`, and how far that is from the truth.
pub fn distorted_reading(
    offset: Duration,
    scaled: Duration,
    jump: Option<ClockStep>,
    regression: Option<ClockStep>,
    sim: Duration,
) -> (r: (Duration, u64))
    requires
        duration::low_bits(offset@) + duration::low_bits(scaled@) <= u64::MAX,
    ensures
        r.0@ == distorted_nanos(offset@, scaled@, jump, regression, sim@),
        r.1 == if r.0@ >= duration::low_bits(sim@) {
            r.0@ - duration::low_bits(sim@)
        } else {
            duration::low_bits(sim@) - r.0@
        },
{
    let mut reading: u64 = nanos(offset) + nanos(scaled);
    if let Some(step) = jump {
        if !sim.shorter_than(&step.at) {
            reading = reading.saturating_add(nanos(step.by));
        }
    }
    if let Some(step) = regression {
        if !sim.shorter_than(&step.at) {
            reading = reading.saturating_sub(nanos(step.by));
        }
    }
    let truth: u64 = nanos(sim);
    let skew: u64 = if reading >= truth {
        reading - truth
    } else {
        truth - reading
    };
    (Duration::from_nanos(reading), skew)
}

/// A clock without offset, steps or rate error reads true time.
pub proof fn an_unskewed_clock_reads_true_time(sim: nat)
    requires
        sim <= u64::MAX,
    ensures
        distorted_nanos(0, sim, None, None, sim) == sim,
{
    assert(sim % 0x1_0000_0000_0000_0000 == sim) by {
        vstd::arithmetic::div_mod::lemma_small_mod(sim, 0x1_0000_0000_0000_0000);
    }
}

/// A regression moves the reading back once, by the step it takes, and by
/// nothing before it happens.
pub proof fn a_regression_steps_back_once(
    offset: nat,
    scaled: nat,
    regression: ClockStep,
    sim: nat,
)
    requires
        duration::low_bits(offset) + duration::low_bits(scaled) <= u64::MAX,
    ensures
        sim < regression.at@ ==> distorted_nanos(offset, scaled, None, Some(regression), sim)
            == distorted_nanos(offset, scaled, None, None, sim),
        sim >= regression.at@ ==> distorted_nanos(offset, scaled, None, Some(regression), sim)
            == replay::floored_difference(
            distorted_nanos(offset, scaled, None, None, sim),
            duration::low_bits(regression.by@) as int,
        ),
{
}

} // verus!
