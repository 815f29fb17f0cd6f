//! What a client of the leader-lease simulation decides up front, and what it
//! writes down of each operation.

use crate::duration;
use crate::duration::Duration;
use crate::lease_oracle;
use crate::lease_types::{LocalInput, LocalView};
use crate::text;
use crate::text::{number_text, signed_text};
use vstd::prelude::*;
use vstd::string::*;

verus! {

// ---------------------------------------------------------------------------
// Profiles
// ---------------------------------------------------------------------------

/// How hard a run is driven.
#[derive(Debug, Clone, Copy, PartialEq, Eq, Structural)]
pub enum SwarmProfile {
    /// An even mix.
    Standard,
    /// Many short rounds.
    Contention,
    /// Long leases.
    Suspicion,
}

impl SwarmProfile {
    /// The profile a random number picks: the profiles take turns.
    pub fn from_random(random: u32) -> (r: SwarmProfile)
        ensures
            r == (if random % 3 == 0 {
                SwarmProfile::Standard
            } else if random % 3 == 1 {
                SwarmProfile::Contention
            } else {
                SwarmProfile::Suspicion
            }),
    {
        if random % 3 == 0 {
            SwarmProfile::Standard
        } else if random % 3 == 1 {
            SwarmProfile::Contention
        } else {
            SwarmProfile::Suspicion
        }
    }

    /// What the profile is called.
    pub fn name(self) -> (r: &'static str)
        ensures
            r@ == (match self {
                SwarmProfile::Standard => "standard"@,
                SwarmProfile::Contention => "contention"@,
                SwarmProfile::Suspicion => "suspicion"@,
            }),
    {
        match self {
            SwarmProfile::Standard => "standard",
            SwarmProfile::Contention => "contention",
            SwarmProfile::Suspicion => "suspicion",
        }
    }

    /// The number that stands for the profile among the metrics.
    pub fn metric_number(self) -> (r: u32)
        ensures
            r == (match self {
                SwarmProfile::Standard => 0u32,
                SwarmProfile::Contention => 1,
                SwarmProfile::Suspicion => 2,
            }),
    {
        match self {
            SwarmProfile::Standard => 0,
            SwarmProfile::Contention => 1,
            SwarmProfile::Suspicion => 2,
        }
    }

    /// How many rounds a client runs.
    pub fn operation_count(self) -> (r: usize)
        ensures
            r == (match self {
                SwarmProfile::Standard => 40usize,
                SwarmProfile::Contention => 160,
                SwarmProfile::Suspicion => 80,
            }),
    {
        match self {
            SwarmProfile::Standard => 40,
            SwarmProfile::Contention => 160,
            SwarmProfile::Suspicion => 80,
        }
    }

    /// The shortest lease, in seconds.
    pub fn lease_base_secs(self) -> (r: u64)
        ensures
            r == (match self {
                SwarmProfile::Standard => 2u64,
                SwarmProfile::Contention => 1,
                SwarmProfile::Suspicion => 3,
            }),
    {
        match self {
            SwarmProfile::Standard => 2,
            SwarmProfile::Contention => 1,
            SwarmProfile::Suspicion => 3,
        }
    }
}

// ---------------------------------------------------------------------------
// Adoption delays
// ---------------------------------------------------------------------------

/// How long a follower waits before it adopts what it observed.
#[derive(Debug, Clone, Copy, PartialEq, Eq, Structural)]
pub enum AdoptionDelay {
    /// Half the lease.
    Shorter,
    /// The lease.
    Exact,
    /// A millisecond beyond the lease.
    Longer,
}

/// A part of a lease, by number: half of it, all of it, or a millisecond more.
pub open spec fn lease_part(part: int, lease: nat) -> nat {
    if part == 0 {
        lease / 2
    } else if part == 1 {
        lease
    } else {
        lease_oracle::span_sum(lease, 1_000_000)
    }
}

fn part_of_lease(part: u32, lease: Duration) -> (r: Duration)
    ensures
        r@ == lease_part(part as int, lease@),
{
    if part == 0 {
        lease.divided_by(2)
    } else if part == 1 {
        lease
    } else {
        lease.saturating_add(Duration::from_millis(1))
    }
}

impl AdoptionDelay {
    /// Which part of a lease this is.
    pub open spec fn part(self) -> int {
        match self {
            AdoptionDelay::Shorter => 0,
            AdoptionDelay::Exact => 1,
            AdoptionDelay::Longer => 2,
        }
    }

    /// The delay a number picks: the delays take turns.
    pub open spec fn numbered(n: int) -> AdoptionDelay {
        if n % 3 == 0 {
            AdoptionDelay::Shorter
        } else if n % 3 == 1 {
            AdoptionDelay::Exact
        } else {
            AdoptionDelay::Longer
        }
    }

    /// The delay a random number picks.
    pub fn from_random(random: u32) -> (r: AdoptionDelay)
        ensures
            r == AdoptionDelay::numbered(random as int),
    {
        if random % 3 == 0 {
            AdoptionDelay::Shorter
        } else if random % 3 == 1 {
            AdoptionDelay::Exact
        } else {
            AdoptionDelay::Longer
        }
    }

    /// How long the delay is under a lease.
    pub fn duration(self, lease_duration: Duration) -> (r: Duration)
        ensures
            r@ == lease_part(self.part(), lease_duration@),
    {
        let part: u32 = match self {
            AdoptionDelay::Shorter => 0,
            AdoptionDelay::Exact => 1,
            AdoptionDelay::Longer => 2,
        };
        part_of_lease(part, lease_duration)
    }

    /// The delay of a completion phase: one phase for each.
    pub fn for_completion_phase(phase: usize) -> (r: AdoptionDelay)
        requires
            phase < 3,
        ensures
            r == AdoptionDelay::numbered(phase as int),
    {
        if phase == 0 {
            AdoptionDelay::Shorter
        } else if phase == 1 {
            AdoptionDelay::Exact
        } else {
            AdoptionDelay::Longer
        }
    }
}

/// The three completion phases try the three delays, each once.
pub proof fn completion_tries_every_delay(delay: AdoptionDelay)
    ensures
        0 <= delay.part() < 3,
        AdoptionDelay::numbered(delay.part()) == delay,
{
}

// ---------------------------------------------------------------------------
// The plan of one client
// ---------------------------------------------------------------------------

/// The bit of a swarm that lets a leader resign.
pub const OPTIONAL_RESIGN: u32 = 1;

/// The bit of a swarm that lets a client observe.
pub const OPTIONAL_OBSERVER: u32 = 2;

/// The bit of a swarm that lets a client pause across a lease boundary.
pub const OPTIONAL_PAUSE: u32 = 4;

/// The bit of a swarm that lets a follower adopt late.
pub const OPTIONAL_DELAYED_ADOPTION: u32 = 8;

/// What a client settles before its first round.
#[derive(Debug, Clone, Copy, PartialEq, Eq, Structural)]
pub struct Plan {
    /// The client.
    pub client_id: i32,
    /// The process it runs in.
    pub process_id: u64,
    /// How hard the run is driven.
    pub profile: SwarmProfile,
    /// How many rounds it runs.
    pub operation_count: usize,
    /// The shortest lease, in seconds.
    pub lease_base_secs: u64,
    /// Its own lease.
    pub lease_duration: Duration,
    /// How many rounds in a hundred poll.
    pub normal_weight: u32,
    /// How many rounds in a hundred do something unusual.
    pub adversarial_weight: u32,
    /// Which optional behaviours it has, one bit each.
    pub swarm: u32,
}

/// The thresholds of a round's weight: `normal`, then a part of `adversarial`
/// beyond it.
pub open spec fn bound(plan: Plan, times: int, over: int) -> int {
    plan.normal_weight + times * plan.adversarial_weight / over
}

impl Plan {
    /// The plan that the options and a client's random numbers settle.
    pub fn settled(
        client_id: i32,
        process_id: u64,
        profile: SwarmProfile,
        operation_count: Option<usize>,
        lease_base_secs: Option<u64>,
        lease_random: u32,
        normal_random: u32,
        adversarial_random: u32,
        swarm: u32,
    ) -> (r: Plan)
        requires
            lease_base_secs matches Some(secs) ==> secs + lease_random % 3 <= u64::MAX,
        ensures
            r.client_id == client_id,
            r.process_id == process_id,
            r.profile == profile,
            r.operation_count == (match operation_count {
                Some(count) => count,
                None => match profile {
                    SwarmProfile::Standard => 40usize,
                    SwarmProfile::Contention => 160,
                    SwarmProfile::Suspicion => 80,
                },
            }),
            r.lease_base_secs == (match lease_base_secs {
                Some(secs) => secs,
                None => match profile {
                    SwarmProfile::Standard => 2u64,
                    SwarmProfile::Contention => 1,
                    SwarmProfile::Suspicion => 3,
                },
            }),
            r.lease_duration@ == (r.lease_base_secs + lease_random % 3) * 1_000_000_000,
            r.normal_weight == 50 + normal_random % 21,
            r.adversarial_weight == 20 + adversarial_random % 21,
            r.swarm == swarm,
    {
        let operation_count: usize = match operation_count {
            Some(count) => count,
            None => profile.operation_count(),
        };
        let lease_base_secs: u64 = match lease_base_secs {
            Some(secs) => secs,
            None => profile.lease_base_secs(),
        };
        Plan {
            client_id,
            process_id,
            profile,
            operation_count,
            lease_base_secs,
            lease_duration: Duration::from_secs(lease_base_secs + (lease_random % 3) as u64),
            normal_weight: 50 + normal_random % 21,
            adversarial_weight: 20 + adversarial_random % 21,
            swarm,
        }
    }

    /// Whether the client has an optional behaviour.
    pub open spec fn opts(self, option: u32) -> bool {
        self.swarm & option != 0
    }

    /// Whether the client has an optional behaviour.
    pub fn has(&self, option: u32) -> (r: bool)
        ensures
            r == self.opts(option),
    {
        self.swarm & option != 0
    }

    fn threshold(&self, times: u32, over: u32) -> (r: u64)
        requires
            times <= 4,
            over > 0,
        ensures
            r == bound(*self, times as int, over as int),
    {
        proof {
            assert(times * self.adversarial_weight <= 4 * self.adversarial_weight)
                by (nonlinear_arith)
                requires
                    times <= 4,
            ;
            assert(0 <= times * self.adversarial_weight) by (nonlinear_arith);
            assert((times * self.adversarial_weight) / (over as int) <= times
                * self.adversarial_weight) by (nonlinear_arith)
                requires
                    over > 0,
                    0 <= times * self.adversarial_weight,
            ;
            assert(0 <= (times * self.adversarial_weight) / (over as int)) by (nonlinear_arith)
                requires
                    over > 0,
                    0 <= times * self.adversarial_weight,
            ;
        }
        let part: u64 = times as u64 * self.adversarial_weight as u64;
        self.normal_weight as u64 + part / over as u64
    }

    /// Whether a round of this weight polls under a changed lease.
    pub open spec fn changes_lease(self, weight: u32) -> bool {
        bound(self, 4, 5) <= weight < bound(self, 1, 1)
    }

    /// Whether a round of this weight observes, where it may.
    pub open spec fn observes(self, weight: u32) -> bool {
        bound(self, 0, 1) <= weight < bound(self, 1, 3)
    }

    /// Whether a round of this weight resigns, where it may.
    pub open spec fn resigns(self, weight: u32) -> bool {
        bound(self, 1, 3) <= weight < bound(self, 2, 3)
    }

    /// Whether a round of this weight tries stale tokens, where it has any.
    pub open spec fn goes_stale(self, weight: u32) -> bool {
        bound(self, 2, 3) <= weight < bound(self, 4, 5)
    }

    /// Whether a round of this weight loses its local state.
    pub open spec fn drops(self, weight: u32) -> bool {
        weight >= bound(self, 1, 1)
    }

    /// Whether a round polls: the first does, and so do those of normal weight
    /// and those that change the lease.
    pub open spec fn polls(self, round: usize, weight: u32) -> bool {
        round == 0 || weight < self.normal_weight || self.changes_lease(weight)
    }

    /// Whether a round of this weight polls under a changed lease.
    pub fn is_lease_change(&self, weight: u32) -> (r: bool)
        ensures
            r == self.changes_lease(weight),
    {
        weight as u64 >= self.threshold(4, 5) && (weight as u64) < self.threshold(1, 1)
    }

    /// Whether a round of this weight observes, where it may.
    pub fn is_observation(&self, weight: u32) -> (r: bool)
        ensures
            r == self.observes(weight),
    {
        weight as u64 >= self.threshold(0, 1) && (weight as u64) < self.threshold(1, 3)
    }

    /// Whether a round of this weight resigns, where it may.
    pub fn is_resignation(&self, weight: u32) -> (r: bool)
        ensures
            r == self.resigns(weight),
    {
        weight as u64 >= self.threshold(1, 3) && (weight as u64) < self.threshold(2, 3)
    }

    /// Whether a round of this weight tries stale tokens, where it has any.
    pub fn is_stale_attempt(&self, weight: u32) -> (r: bool)
        ensures
            r == self.goes_stale(weight),
    {
        weight as u64 >= self.threshold(2, 3) && (weight as u64) < self.threshold(4, 5)
    }

    /// Whether a round of this weight loses its local state.
    pub fn is_drop(&self, weight: u32) -> (r: bool)
        ensures
            r == self.drops(weight),
    {
        weight as u64 >= self.threshold(1, 1)
    }

    /// Whether a round polls.
    pub fn is_poll(&self, round: usize, weight: u32) -> (r: bool)
        ensures
            r == self.polls(round, weight),
    {
        round == 0 || weight < self.normal_weight || self.is_lease_change(weight)
    }

    /// The lease of a round that changes it: up to two seconds longer.
    pub open spec fn round_lease(self, round: usize) -> nat {
        lease_oracle::span_sum(
            self.lease_duration@,
            ((self.swarm + (round as u32)) % 0x1_0000_0000 % 3) as nat * 1_000_000_000,
        )
    }

    /// The lease of a round that changes it.
    pub fn lease_duration_for_round(&self, round: usize) -> (r: Duration)
        ensures
            r@ == self.round_lease(round),
    {
        let turn: u32 = self.swarm.wrapping_add(
            #[verifier::truncate]
            (round as u32),
        );
        self.lease_duration.saturating_add(Duration::from_secs((turn % 3) as u64))
    }

    /// When the round after `round` is due, for a client that stands as `local`
    /// says at `now`: half a lease, a lease, or a millisecond more, from when it
    /// last learned something.
    pub open spec fn next_round_at(self, round: usize, local: LocalView, now: nat) -> nat {
        let (anchor, lease) = match local {
            LocalView::Unknown => (now, self.lease_duration@),
            LocalView::Observation { lease_duration, observed_at, .. } => (
                observed_at,
                lease_duration,
            ),
            LocalView::Leadership { lease_duration, renewed_at, .. } => (
                renewed_at,
                lease_duration,
            ),
        };
        lease_oracle::span_sum(anchor, lease_part((self.swarm + round) % 3, lease))
    }

    /// When the round after `round` is due.
    pub fn inter_round_target(&self, round: usize, local: &LocalInput, now: Duration) -> (r:
        Duration)
        ensures
            r@ == self.next_round_at(round, local@, now@),
    {
        let (anchor, lease) = match local {
            LocalInput::Unknown => (now, self.lease_duration),
            LocalInput::Observation { lease_duration, observed_at, .. } => (
                *observed_at,
                *lease_duration,
            ),
            LocalInput::Leadership { lease_duration, renewed_at, .. } => (
                *renewed_at,
                *lease_duration,
            ),
        };
        let part: u32 = ((self.swarm as u128 + round as u128) % 3) as u32;
        anchor.saturating_add(part_of_lease(part, lease))
    }

    /// When a pause ends that crosses the boundary of what a client holds or
    /// watches: a millisecond beyond it.
    pub open spec fn boundary_at(local: LocalView, now: nat) -> nat {
        match local {
            LocalView::Unknown => lease_oracle::span_sum(now, 1_000_000),
            LocalView::Observation { lease_duration, observed_at, .. } => lease_oracle::span_sum(
                lease_oracle::span_sum(observed_at, lease_duration),
                1_000_000,
            ),
            LocalView::Leadership { lease_duration, renewed_at, .. } => lease_oracle::span_sum(
                lease_oracle::span_sum(renewed_at, lease_duration),
                1_000_000,
            ),
        }
    }

    /// When a pause across the boundary ends.
    pub fn boundary_target(local: &LocalInput, now: Duration) -> (r: Duration)
        ensures
            r@ == Plan::boundary_at(local@, now@),
    {
        let boundary = match local {
            LocalInput::Unknown => now,
            LocalInput::Observation { lease_duration, observed_at, .. } =>
            observed_at.saturating_add(*lease_duration),
            LocalInput::Leadership { lease_duration, renewed_at, .. } =>
            renewed_at.saturating_add(*lease_duration),
        };
        boundary.saturating_add(Duration::from_millis(1))
    }
}

/// A round of any weight does one thing: it observes, resigns, tries stale tokens,
/// changes its lease, drops its state, or none of these.
pub proof fn a_weight_picks_one_thing(plan: Plan, weight: u32)
    ensures
        plan.observes(weight) ==> !plan.resigns(weight) && !plan.goes_stale(weight)
            && !plan.changes_lease(weight) && !plan.drops(weight),
        plan.resigns(weight) ==> !plan.goes_stale(weight) && !plan.changes_lease(weight)
            && !plan.drops(weight),
        plan.goes_stale(weight) ==> !plan.changes_lease(weight) && !plan.drops(weight),
        plan.changes_lease(weight) ==> !plan.drops(weight),
{
    let a = plan.adversarial_weight as int;
    assert(1 * a == a && 2 * a == a + a && 4 * a == a + a + a + a && 0 * a == 0);
    assert(a / 3 <= (a + a) / 3 <= (a + a + a + a) / 5 <= a / 1);
}

// ---------------------------------------------------------------------------
// Names
// ---------------------------------------------------------------------------

/// The name of an incarnation: a label, and the client, process and incarnation
/// it stands for.
pub open spec fn incarnation_name(
    label: Seq<char>,
    client_id: i32,
    process_id: u64,
    incarnation: u64,
) -> Seq<char> {
    label + "\0λ-"@ + text::int_text(client_id as int) + "-"@ + text::nat_text(process_id as nat)
        + "-"@ + text::nat_text(incarnation as nat)
}

/// The name of an incarnation.
pub fn name_incarnation(label: &str, client_id: i32, process_id: u64, incarnation: u64) -> (r:
    String)
    ensures
        r@ == incarnation_name(label@, client_id, process_id, incarnation),
{
    label.to_owned().concat("\0λ-").concat(signed_text(client_id as i64).as_str()).concat(
        "-",
    ).concat(number_text(process_id).as_str()).concat("-").concat(
        number_text(incarnation).as_str(),
    )
}

/// The name a client starts under: plain, with a zero byte, beyond ASCII, or
/// long, as the random number has it.
pub open spec fn first_name(random: u32, client_id: i32, process_id: u64) -> Seq<char> {
    let suffix = text::int_text(client_id as int) + "-"@ + text::nat_text(process_id as nat);
    if random % 4 == 0 {
        "participant-"@ + suffix
    } else if random % 4 == 1 {
        "participant\0"@ + suffix
    } else if random % 4 == 2 {
        "participant-λ-"@ + suffix
    } else {
        "participant-"@ + suffix + "-"@
            + "xxxxxxxxxxxxxxxxxxxxxxxxxxxxxxxxxxxxxxxxxxxxxxxxxxxxxxxxxxxxxxxxxxxxxxxxxxxxxxxxxxxxxxxxxxxxxxxxxxxxxxxxxxxxxxxxxxxxxxxxxxxxxxxx"@
    }
}

/// The name a client starts under.
pub fn participant_text(random: u32, client_id: i32, process_id: u64) -> (r: String)
    ensures
        r@ == first_name(random, client_id, process_id),
        r@.len() > 0,
{
    proof {
        reveal_strlit("participant-");
        reveal_strlit("participant\0");
        reveal_strlit("participant-λ-");
    }
    let suffix = signed_text(client_id as i64).concat("-").concat(
        number_text(process_id).as_str(),
    );
    if random % 4 == 0 {
        "participant-".to_owned().concat(suffix.as_str())
    } else if random % 4 == 1 {
        "participant\0".to_owned().concat(suffix.as_str())
    } else if random % 4 == 2 {
        "participant-λ-".to_owned().concat(suffix.as_str())
    } else {
        "participant-".to_owned().concat(suffix.as_str()).concat("-").concat(
            "xxxxxxxxxxxxxxxxxxxxxxxxxxxxxxxxxxxxxxxxxxxxxxxxxxxxxxxxxxxxxxxxxxxxxxxxxxxxxxxxxxxxxxxxxxxxxxxxxxxxxxxxxxxxxxxxxxxxxxxxxxxxxxxx",
        )
    }
}

/// An incarnation under the label `race` takes part in the coordinated race.
pub proof fn a_race_incarnation_races(client_id: i32, process_id: u64, incarnation: u64)
    ensures
        lease_oracle::races(incarnation_name("race"@, client_id, process_id, incarnation)),
{
    reveal_strlit("race");
    reveal_strlit("race\0");
    reveal_strlit("\0λ-");
    let name = incarnation_name("race"@, client_id, process_id, incarnation);
    assert(name.subrange(0, 5) =~= "race\0"@);
}

} // verus!
