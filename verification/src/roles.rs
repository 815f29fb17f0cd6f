//! What each client of the election spends the run doing, and the rules it
//! follows while it does.
//!
//! The rules take the time, the random choices and the recipe's answers as plain
//! values. Whoever runs a role asks the simulator and the recipe, and acts on
//! what the rules decide.

use crate::duration;
use crate::duration::Duration;
use crate::lease_oracle;
use vstd::prelude::*;

verus! {

// ---------------------------------------------------------------------------
// Roles
// ---------------------------------------------------------------------------

/// What a client does for the length of the run.
#[derive(Debug, Clone, Copy, PartialEq, Eq, Structural)]
pub enum Role {
    /// Campaigns, renews and resigns.
    Contender,
    /// Takes a term, pauses past its lease, then must be fenced out.
    Sleeper,
    /// Follows leadership through the term key.
    Watcher,
}

impl Role {
    /// The role of a client: client 1 sleeps where at least three run and the
    /// sleeper is enabled, client 2 watches where at least four run and the watcher
    /// is, and everybody else contends.
    pub open spec fn assigned(
        client_id: i32,
        client_count: i32,
        sleeper_enabled: bool,
        watcher_enabled: bool,
    ) -> Role {
        if client_id == 1 && client_count >= 3 && sleeper_enabled {
            Role::Sleeper
        } else if client_id == 2 && client_count >= 4 && watcher_enabled {
            Role::Watcher
        } else {
            Role::Contender
        }
    }

    /// The role of a client.
    pub fn assign(
        client_id: i32,
        client_count: i32,
        sleeper_enabled: bool,
        watcher_enabled: bool,
    ) -> (r: Role)
        ensures
            r == Role::assigned(client_id, client_count, sleeper_enabled, watcher_enabled),
    {
        if sleeper_enabled && client_count >= 3 && client_id == 1 {
            Role::Sleeper
        } else if watcher_enabled && client_count >= 4 && client_id == 2 {
            Role::Watcher
        } else {
            Role::Contender
        }
    }

    /// The name a role appears under in the trace.
    pub fn as_str(self) -> (r: &'static str)
        ensures
            r@ == (match self {
                Role::Contender => "contender"@,
                Role::Sleeper => "sleeper"@,
                Role::Watcher => "watcher"@,
            }),
    {
        match self {
            Role::Contender => "contender",
            Role::Sleeper => "sleeper",
            Role::Watcher => "watcher",
        }
    }
}

/// However the features fall, somebody contends, and at most one client sleeps and
/// at most one watches.
pub proof fn somebody_always_contends(
    client_count: i32,
    sleeper_enabled: bool,
    watcher_enabled: bool,
)
    ensures
        Role::assigned(0, client_count, sleeper_enabled, watcher_enabled) == Role::Contender,
        forall|a: i32, b: i32|
            #![trigger Role::assigned(a, client_count, sleeper_enabled, watcher_enabled),
            Role::assigned(b, client_count, sleeper_enabled, watcher_enabled)]
            Role::assigned(a, client_count, sleeper_enabled, watcher_enabled) != Role::Contender
                && Role::assigned(a, client_count, sleeper_enabled, watcher_enabled)
                == Role::assigned(b, client_count, sleeper_enabled, watcher_enabled) ==> a == b,
{
}

// ---------------------------------------------------------------------------
// Counters
// ---------------------------------------------------------------------------

/// What a run achieved.
#[derive(Debug, Clone, Copy, PartialEq, Eq, Structural)]
pub struct Counters {
    /// Applied claims and steals.
    pub acquisitions: u64,
    /// Applied renewals.
    pub renewals: u64,
    /// Applied resigns.
    pub resigns: u64,
    /// Claims refused because the current term had not been still long enough.
    pub denials: u64,
    /// Campaigns retired because a write of theirs may have committed.
    pub superseded: u64,
    /// Claim replies thrown away on purpose.
    pub injected_unknowns: u64,
    /// Re-probes that found their own record and adopted it.
    pub recoveries_adopted: u64,
    /// Terms lost to a successor.
    pub lost: u64,
    /// Simulated crashes.
    pub crashes: u64,
    /// Terms abandoned because the belief horizon passed.
    pub horizon_stops: u64,
    /// Ranked-register writes that committed.
    pub fenced_applied: u64,
    /// Ranked-register writes the fence refused.
    pub fenced_rejected: u64,
    /// Leader-record sightings.
    pub sightings: u64,
    /// Fenced writes given up because the belief horizon arrived first.
    pub work_abandoned: u64,
    /// Operations that failed with something other than a protocol refusal.
    pub errors: u64,
}

/// Counters of a run that has not begun.
pub open spec fn nothing_counted() -> Counters {
    Counters {
        acquisitions: 0,
        renewals: 0,
        resigns: 0,
        denials: 0,
        superseded: 0,
        injected_unknowns: 0,
        recoveries_adopted: 0,
        lost: 0,
        crashes: 0,
        horizon_stops: 0,
        fenced_applied: 0,
        fenced_rejected: 0,
        sightings: 0,
        work_abandoned: 0,
        errors: 0,
    }
}

impl Default for Counters {
    fn default() -> (r: Counters)
        ensures
            r == nothing_counted(),
    {
        Counters {
            acquisitions: 0,
            renewals: 0,
            resigns: 0,
            denials: 0,
            superseded: 0,
            injected_unknowns: 0,
            recoveries_adopted: 0,
            lost: 0,
            crashes: 0,
            horizon_stops: 0,
            fenced_applied: 0,
            fenced_rejected: 0,
            sightings: 0,
            work_abandoned: 0,
            errors: 0,
        }
    }
}

/// One more, as far as a counter goes.
pub open spec fn one_more(n: u64) -> u64 {
    if n < u64::MAX {
        (n + 1) as u64
    } else {
        n
    }
}

/// One more, as far as a counter goes.
pub fn count_one(n: u64) -> (r: u64)
    ensures
        r == one_more(n),
{
    if n < u64::MAX {
        n + 1
    } else {
        n
    }
}

// ---------------------------------------------------------------------------
// Timing
// ---------------------------------------------------------------------------

/// The spans of time a run is configured with.
#[derive(Debug, Clone, Copy, PartialEq, Eq, Structural)]
pub struct Timing {
    /// The lease every claim advertises.
    pub lease: Duration,
    /// How much of every lease is given up so that beliefs cannot overlap.
    pub safety_margin: Duration,
    /// How long a client waits between actions.
    pub step: Duration,
    /// How long the run lasts.
    pub test_duration: Duration,
}

impl Timing {
    /// How long after a term is anchored its renewal comes due: a third of the
    /// lease, so that two renewals fit in one.
    pub fn renew_interval(&self) -> (r: Duration)
        ensures
            r@ == self.lease@ / 3,
    {
        self.lease.divided_by(3)
    }

    /// When a client anchored at an instant must stop believing: a lease later, less
    /// the safety margin.
    pub open spec fn horizon(self, acquired_at: nat) -> nat {
        lease_oracle::elapsed(
            self.safety_margin@,
            lease_oracle::span_sum(acquired_at, self.lease@),
        )
    }

    /// When the renewal of a term anchored at an instant comes due.
    pub open spec fn renewal(self, acquired_at: nat) -> nat {
        lease_oracle::span_sum(acquired_at, self.lease@ / 3)
    }

    /// When a client anchored at an instant must stop believing.
    pub fn horizon_of(&self, acquired_at: Duration) -> (r: Duration)
        ensures
            r@ == self.horizon(acquired_at@),
    {
        acquired_at.saturating_add(self.lease).saturating_sub(self.safety_margin)
    }

    /// When the renewal of a term anchored at an instant comes due.
    pub fn renewal_of(&self, acquired_at: Duration) -> (r: Duration)
        ensures
            r@ == self.renewal(acquired_at@),
    {
        acquired_at.saturating_add(self.renew_interval())
    }
}

/// Nobody believes longer than one lease from the anchor.
pub proof fn a_belief_ends_within_its_lease(timing: Timing, acquired_at: nat)
    ensures
        timing.horizon(acquired_at) <= acquired_at + timing.lease@,
{
}

/// A renewal comes due within the belief it extends wherever the safety margin
/// leaves two thirds of the lease.
pub proof fn a_renewal_comes_due_within_the_belief(timing: Timing, acquired_at: nat)
    requires
        3 * timing.safety_margin@ <= 2 * timing.lease@,
        acquired_at + timing.lease@ <= duration::longest(),
    ensures
        timing.renewal(acquired_at) <= timing.horizon(acquired_at),
{
}

// ---------------------------------------------------------------------------
// Campaigning
// ---------------------------------------------------------------------------

/// One term, as its holder tracks it.
#[derive(Debug, Clone, Copy, PartialEq, Eq, Structural)]
pub struct Term {
    /// The term.
    pub ballot: u64,
    /// When the holder must stop believing.
    pub horizon: Duration,
    /// When the next renewal comes due.
    pub renew_due: Duration,
    /// The fencing sequence used so far.
    pub sequence: u32,
}

/// How a campaign begins.
#[derive(Debug, Clone, Copy, PartialEq, Eq, Structural)]
pub enum Campaign {
    /// Not yet: a claim whose reply was thrown away is not due to be run again.
    Hold,
    /// With the attempt whose reply was thrown away.
    Resume,
    /// With a fresh attempt.
    Fresh,
}

/// How a campaign begins, given when a claim whose reply was thrown away is due to
/// be run again.
pub fn begin_campaign(resume_at: Option<Duration>, now: Duration) -> (r: Campaign)
    ensures
        r == (match resume_at {
            Some(due) => if now@ < due@ {
                Campaign::Hold
            } else {
                Campaign::Resume
            },
            None => Campaign::Fresh,
        }),
{
    match resume_at {
        Some(due) => {
            if now.shorter_than(&due) {
                Campaign::Hold
            } else {
                Campaign::Resume
            }
        },
        None => Campaign::Fresh,
    }
}

/// What came of a claim.
#[derive(Debug, Clone, Copy, PartialEq, Eq, Structural)]
pub enum ClaimReply {
    /// It won a term, anchored at an instant.
    Won {
        /// The term.
        ballot: u64,
        /// Its anchor.
        acquired_at: Duration,
    },
    /// The current term had not been still for long enough.
    Denied,
    /// A write of the same attempt may have committed.
    Superseded,
}

/// What a claimant does about a claim.
#[derive(Debug, Clone, Copy, PartialEq, Eq, Structural)]
pub enum Verdict {
    /// Nothing: it has no term.
    Nothing,
    /// Nothing: the term it won is over already.
    Outlived,
    /// Nothing: the attempt is retired.
    Retired,
    /// It may lead.
    MayLead,
}

/// What a claimant does about a claim that came back at `now`, and what it counts.
pub open spec fn after_claim(
    counters: Counters,
    timing: Timing,
    reply: ClaimReply,
    resumed: bool,
    now: nat,
) -> (Counters, Verdict) {
    match reply {
        ClaimReply::Denied => (
            Counters { denials: one_more(counters.denials), ..counters },
            Verdict::Nothing,
        ),
        ClaimReply::Superseded => (
            Counters { superseded: one_more(counters.superseded), ..counters },
            Verdict::Retired,
        ),
        ClaimReply::Won { acquired_at, .. } => {
            let won = Counters {
                acquisitions: one_more(counters.acquisitions),
                recoveries_adopted: if resumed {
                    one_more(counters.recoveries_adopted)
                } else {
                    counters.recoveries_adopted
                },
                ..counters
            };
            if now >= timing.horizon(acquired_at@) {
                (
                    Counters { horizon_stops: one_more(counters.horizon_stops), ..won },
                    Verdict::Outlived,
                )
            } else {
                (won, Verdict::MayLead)
            }
        },
    }
}

/// What a claimant does about a claim, and what it counts. A claim that took longer
/// than the lease it asked for comes back with a term that is over.
pub fn judge_claim(
    counters: Counters,
    timing: &Timing,
    reply: ClaimReply,
    resumed: bool,
    now: Duration,
) -> (r: (Counters, Verdict))
    ensures
        r == after_claim(counters, *timing, reply, resumed, now@),
{
    match reply {
        ClaimReply::Denied => (
            Counters { denials: count_one(counters.denials), ..counters },
            Verdict::Nothing,
        ),
        ClaimReply::Superseded => (
            Counters { superseded: count_one(counters.superseded), ..counters },
            Verdict::Retired,
        ),
        ClaimReply::Won { acquired_at, .. } => {
            let won = Counters {
                acquisitions: count_one(counters.acquisitions),
                recoveries_adopted: if resumed {
                    count_one(counters.recoveries_adopted)
                } else {
                    counters.recoveries_adopted
                },
                ..counters
            };
            if now.shorter_than(&timing.horizon_of(acquired_at)) {
                (won, Verdict::MayLead)
            } else {
                (
                    Counters { horizon_stops: count_one(won.horizon_stops), ..won },
                    Verdict::Outlived,
                )
            }
        },
    }
}

/// The term of whoever takes it up.
pub fn take_up(timing: &Timing, ballot: u64, acquired_at: Duration) -> (r: Term)
    ensures
        r.ballot == ballot,
        r.horizon@ == timing.horizon(acquired_at@),
        r.renew_due@ == timing.renewal(acquired_at@),
        r.sequence == 0,
{
    Term {
        ballot,
        horizon: timing.horizon_of(acquired_at),
        renew_due: timing.renewal_of(acquired_at),
        sequence: 0,
    }
}

/// A claimant that may lead is inside its horizon.
pub proof fn whoever_may_lead_still_believes(
    counters: Counters,
    timing: Timing,
    ballot: u64,
    acquired_at: Duration,
    resumed: bool,
    now: nat,
)
    ensures
        after_claim(counters, timing, ClaimReply::Won { ballot, acquired_at }, resumed, now).1
            == Verdict::MayLead <==> now < timing.horizon(acquired_at@),
{
}

/// Whether a run may throw claim replies away at all, and so whether the client
/// draws for it: only contenders of a run that enabled it do.
pub fn may_drop_replies(enabled: bool, role: Role) -> (r: bool)
    ensures
        r == (enabled && role == Role::Contender),
{
    let contends = match role {
        Role::Contender => true,
        _ => false,
    };
    enabled && contends
}

/// Whether a winning claim's reply is thrown away: the first always is and later
/// ones by the draw, but only while the run has room for the longest wait.
pub fn drops_reply(
    injected_once: bool,
    roll: bool,
    elapsed: Duration,
    longest: Duration,
    test_duration: Duration,
) -> (r: bool)
    ensures
        r == ((!injected_once || roll) && lease_oracle::span_sum(elapsed@, longest@)
            < test_duration@),
{
    if injected_once && !roll {
        return false;
    }
    elapsed.saturating_add(longest).shorter_than(&test_duration)
}

/// How much longer than a step a reply may stay unresolved; nothing where there is
/// no room beyond the step.
pub fn resume_spread(longest: Duration, step: Duration) -> (r: Option<Duration>)
    ensures
        r matches Some(spread) ==> longest@ > step@ && spread@ == longest@ - step@,
        r is None ==> longest@ <= step@,
{
    if step.shorter_than(&longest) {
        Some(longest.saturating_sub(step))
    } else {
        None
    }
}

// ---------------------------------------------------------------------------
// Holding a term
// ---------------------------------------------------------------------------

/// What the holder of a term does next.
#[derive(Debug, Clone, Copy, PartialEq, Eq, Structural)]
pub enum Duty {
    /// Stop: the horizon has passed.
    Stop,
    /// Renew: the renewal is due.
    Renew,
    /// Whatever it likes.
    Carry,
}

/// What the holder of a term does next. The horizon is a hard stop, and a renewal
/// that is due comes before anything that might end the term.
pub fn duty(term: &Term, now: Duration) -> (r: Duty)
    ensures
        r == (if now@ >= term.horizon@ {
            Duty::Stop
        } else if now@ >= term.renew_due@ {
            Duty::Renew
        } else {
            Duty::Carry
        }),
{
    if !now.shorter_than(&term.horizon) {
        Duty::Stop
    } else if !now.shorter_than(&term.renew_due) {
        Duty::Renew
    } else {
        Duty::Carry
    }
}

/// The holder of a term that stopped at its horizon.
pub fn stop_at_horizon(counters: Counters) -> (r: Counters)
    ensures
        r == (Counters { horizon_stops: one_more(counters.horizon_stops), ..counters }),
{
    Counters { horizon_stops: count_one(counters.horizon_stops), ..counters }
}

/// What came of a renewal.
#[derive(Debug, Clone, Copy, PartialEq, Eq, Structural)]
pub enum RenewalReply {
    /// The term goes on, anchored anew.
    Refreshed {
        /// The new anchor.
        acquired_at: Duration,
    },
    /// Somebody else has the term.
    Lost,
}

/// The term after a renewal came back at `now`: it goes on under its new horizon, or
/// is over where somebody else has it or that horizon has passed too.
pub fn after_renewal(
    counters: Counters,
    timing: &Timing,
    term: Term,
    reply: RenewalReply,
    now: Duration,
) -> (r: (Counters, Option<Term>))
    ensures
        match reply {
            RenewalReply::Lost => r.0 == (Counters { lost: one_more(counters.lost), ..counters })
                && r.1 is None,
            RenewalReply::Refreshed { acquired_at } => {
                let renewed = Counters { renewals: one_more(counters.renewals), ..counters };
                let horizon = timing.horizon(acquired_at@);
                if now@ >= horizon {
                    r.0 == (Counters {
                        horizon_stops: one_more(counters.horizon_stops),
                        ..renewed
                    }) && r.1 is None
                } else {
                    r.0 == renewed && (r.1 matches Some(next) && next.ballot == term.ballot
                        && next.sequence == term.sequence && next.horizon@ == horizon
                        && next.renew_due@ == timing.renewal(acquired_at@))
                }
            },
        },
{
    match reply {
        RenewalReply::Lost => (Counters { lost: count_one(counters.lost), ..counters }, None),
        RenewalReply::Refreshed { acquired_at } => {
            let renewed = Counters { renewals: count_one(counters.renewals), ..counters };
            let horizon = timing.horizon_of(acquired_at);
            if !now.shorter_than(&horizon) {
                (
                    Counters { horizon_stops: count_one(renewed.horizon_stops), ..renewed },
                    None,
                )
            } else {
                (
                    renewed,
                    Some(
                        Term { horizon, renew_due: timing.renewal_of(acquired_at), ..term },
                    ),
                )
            }
        },
    }
}

/// Whether a belief may still be closed with a record: strictly inside the horizon.
/// At the horizon the belief is already over, and a record written then would be a
/// claim to have believed for longer than the term allowed.
pub fn may_log_end(now: Duration, horizon: Duration) -> (r: bool)
    ensures
        r == (now@ < horizon@),
{
    now.shorter_than(&horizon)
}

/// What a holder counts about handing its term back.
pub fn after_resign(counters: Counters, resigned: bool) -> (r: Counters)
    ensures
        r == (if resigned {
            Counters { resigns: one_more(counters.resigns), ..counters }
        } else {
            Counters { lost: one_more(counters.lost), ..counters }
        }),
{
    if resigned {
        Counters { resigns: count_one(counters.resigns), ..counters }
    } else {
        Counters { lost: count_one(counters.lost), ..counters }
    }
}

/// The room a term has for fenced work at `now`: how long until the horizon, and the
/// sequence the work is done at. Nothing where the horizon has passed.
pub fn begin_work(term: &Term, now: Duration) -> (r: Option<(Duration, u32)>)
    requires
        term.sequence < u32::MAX,
    ensures
        r is None <==> now@ >= term.horizon@,
        r matches Some((remaining, sequence)) ==> remaining@ == term.horizon@ - now@ && sequence
            == term.sequence + 1,
{
    let remaining = term.horizon.saturating_sub(now);
    if remaining.is_zero() {
        None
    } else {
        Some((remaining, term.sequence + 1))
    }
}

/// What came of a piece of fenced work.
#[derive(Debug, Clone, Copy, PartialEq, Eq, Structural)]
pub enum Work {
    /// It committed.
    Committed,
    /// The fence refused it.
    Refused,
    /// The horizon arrived first.
    Abandoned,
}

/// What a client counts about a piece of fenced work.
pub fn count_fenced(counters: Counters, work: Work) -> (r: Counters)
    ensures
        r == (match work {
            Work::Committed => Counters {
                fenced_applied: one_more(counters.fenced_applied),
                ..counters
            },
            Work::Refused => Counters {
                fenced_rejected: one_more(counters.fenced_rejected),
                ..counters
            },
            Work::Abandoned => Counters {
                work_abandoned: one_more(counters.work_abandoned),
                ..counters
            },
        }),
{
    match work {
        Work::Committed => Counters {
            fenced_applied: count_one(counters.fenced_applied),
            ..counters
        },
        Work::Refused => Counters {
            fenced_rejected: count_one(counters.fenced_rejected),
            ..counters
        },
        Work::Abandoned => Counters {
            work_abandoned: count_one(counters.work_abandoned),
            ..counters
        },
    }
}

/// Whether a paused leader has been succeeded: somebody holds a later term, and
/// somebody has written under a later term. Without both, a refused stale write
/// would prove nothing.
pub fn has_successor(sighted: Option<u64>, writer: Option<u64>, ballot: u64) -> (r: bool)
    ensures
        r == ((sighted matches Some(held) && held > ballot) && (writer matches Some(wrote) && wrote
            > ballot)),
{
    let stolen = match sighted {
        Some(held) => held > ballot,
        None => false,
    };
    let fenced = match writer {
        Some(wrote) => wrote > ballot,
        None => false,
    };
    stolen && fenced
}

/// Whether a contender sights the leader record in a step: every other one.
pub fn sights(step: u64) -> (r: bool)
    ensures
        r == (step % 2 == 0),
{
    step % 2 == 0
}

/// How long a leader waits after a step: until its renewal is due, but no longer
/// than the step.
pub fn pace_until(due: Duration, now: Duration, step: Duration) -> (r: Duration)
    ensures
        r@ == (if lease_oracle::elapsed(now@, due@) < step@ {
            lease_oracle::elapsed(now@, due@)
        } else {
            step@
        }),
{
    let wait = due.saturating_sub(now);
    if wait.shorter_than(&step) {
        wait
    } else {
        step
    }
}

/// The bytes of a claim token drawn as four numbers, each most significant byte
/// first. The token of all zeroes stands for a vacant record, so where they are all
/// zero the first byte is one.
pub open spec fn token_bytes(a: u32, b: u32, c: u32, d: u32) -> Seq<u8> {
    let drawn = big_endian(a) + big_endian(b) + big_endian(c) + big_endian(d);
    if a == 0 && b == 0 && c == 0 && d == 0 {
        drawn.update(0, 1)
    } else {
        drawn
    }
}

/// The bytes of a number, most significant first.
pub open spec fn big_endian(n: u32) -> Seq<u8> {
    seq![
        (n / 0x100_0000) as u8,
        (n / 0x1_0000 % 0x100) as u8,
        (n / 0x100 % 0x100) as u8,
        (n % 0x100) as u8,
    ]
}

/// A claim token drawn as four numbers.
pub fn claim_token(a: u32, b: u32, c: u32, d: u32) -> (r: [u8; 16])
    ensures
        r@ == token_bytes(a, b, c, d),
{
    let zero = a == 0 && b == 0 && c == 0 && d == 0;
    let first: u8 = if zero {
        1
    } else {
        (a / 0x100_0000) as u8
    };
    let r: [u8; 16] = [
        first,
        (a / 0x1_0000 % 0x100) as u8,
        (a / 0x100 % 0x100) as u8,
        (a % 0x100) as u8,
        (b / 0x100_0000) as u8,
        (b / 0x1_0000 % 0x100) as u8,
        (b / 0x100 % 0x100) as u8,
        (b % 0x100) as u8,
        (c / 0x100_0000) as u8,
        (c / 0x1_0000 % 0x100) as u8,
        (c / 0x100 % 0x100) as u8,
        (c % 0x100) as u8,
        (d / 0x100_0000) as u8,
        (d / 0x1_0000 % 0x100) as u8,
        (d / 0x100 % 0x100) as u8,
        (d % 0x100) as u8,
    ];
    assert(r@ =~= token_bytes(a, b, c, d));
    r
}

proof fn big_endian_of_nonzero(n: u32)
    requires
        n != 0,
    ensures
        exists|i: int| 0 <= i < 4 && #[trigger] big_endian(n)[i] != 0,
{
    let bytes = big_endian(n);
    if bytes[0] == 0 && bytes[1] == 0 && bytes[2] == 0 && bytes[3] == 0 {
        assert(n == (n / 0x100_0000) * 0x100_0000 + (n / 0x1_0000 % 0x100) * 0x1_0000 + (n / 0x100
            % 0x100) * 0x100 + n % 0x100);
        assert(false);
    }
}

/// No draw gives the token that stands for a vacant record.
pub proof fn a_token_is_never_the_vacant_one(a: u32, b: u32, c: u32, d: u32)
    ensures
        token_bytes(a, b, c, d).len() == 16,
        token_bytes(a, b, c, d) != Seq::new(16, |i: int| 0u8),
{
    let token = token_bytes(a, b, c, d);
    let zeroes = Seq::new(16, |i: int| 0u8);
    if a != 0 {
        big_endian_of_nonzero(a);
        let i = choose|i: int| 0 <= i < 4 && #[trigger] big_endian(a)[i] != 0;
        assert(token[i] != zeroes[i]);
    } else if b != 0 {
        big_endian_of_nonzero(b);
        let i = choose|i: int| 0 <= i < 4 && #[trigger] big_endian(b)[i] != 0;
        assert(token[4 + i] != zeroes[4 + i]);
    } else if c != 0 {
        big_endian_of_nonzero(c);
        let i = choose|i: int| 0 <= i < 4 && #[trigger] big_endian(c)[i] != 0;
        assert(token[8 + i] != zeroes[8 + i]);
    } else if d != 0 {
        big_endian_of_nonzero(d);
        let i = choose|i: int| 0 <= i < 4 && #[trigger] big_endian(d)[i] != 0;
        assert(token[12 + i] != zeroes[12 + i]);
    } else {
        assert(token[0] != zeroes[0]);
    }
}

} // verus!
