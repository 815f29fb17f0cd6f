//! The rules a client follows while it runs the recipe's own elector.

use crate::duration::Duration;
use crate::log_schema;
use crate::log_schema::{named_space, KeySpace};
use crate::roles;
use crate::roles::{count_one, may_log_end, Work};
use vstd::prelude::*;
use vstd::string::*;
use vstd::utf8::*;

verus! {

// ---------------------------------------------------------------------------
// Regions
// ---------------------------------------------------------------------------

/// The name of the region the driver's election lives in.
pub const DRIVER_REGION: &'static str = "leader_election";

/// The name of the region the elector's election lives in.
pub const ELECTION_REGION: &'static str = "le_elector";

/// The name of the region the elector's fenced register lives in.
pub const REGISTER_REGION: &'static str = "le_elector_register";

/// The region the elector's election lives in: its own, and not the driver's.
pub fn election() -> (r: KeySpace)
    ensures
        r@ == log_schema::name_prefix(ELECTION_REGION.spec_bytes()),
{
    proof {
        reveal_strlit("le_elector");
        log_schema::a_short_name_has_a_short_prefix(ELECTION_REGION);
    }
    named_space(ELECTION_REGION)
}

/// The region the elector's fenced register lives in.
pub fn register() -> (r: KeySpace)
    ensures
        r@ == log_schema::name_prefix(REGISTER_REGION.spec_bytes()),
{
    proof {
        reveal_strlit("le_elector_register");
        log_schema::a_short_name_has_a_short_prefix(REGISTER_REGION);
    }
    named_space(REGISTER_REGION)
}

/// The two elections and the elector's register share no key: the two runs share a
/// database, not a history.
pub proof fn the_elections_share_no_key(key: Seq<u8>)
    ensures
        !(log_schema::in_region(log_schema::name_prefix(DRIVER_REGION.spec_bytes()), key)
            && log_schema::in_region(log_schema::name_prefix(ELECTION_REGION.spec_bytes()), key)),
        !(log_schema::in_region(log_schema::name_prefix(ELECTION_REGION.spec_bytes()), key)
            && log_schema::in_region(log_schema::name_prefix(REGISTER_REGION.spec_bytes()), key)),
{
    reveal_strlit("leader_election");
    reveal_strlit("le_elector");
    reveal_strlit("le_elector_register");
    let driver = DRIVER_REGION@;
    let election = ELECTION_REGION@;
    let register = REGISTER_REGION@;
    assert(is_ascii_chars(driver));
    assert(is_ascii_chars(election));
    assert(is_ascii_chars(register));
    is_ascii_chars_encode_utf8(driver);
    is_ascii_chars_encode_utf8(election);
    is_ascii_chars_encode_utf8(register);
    log_schema::differently_named_regions_are_disjoint(
        DRIVER_REGION.spec_bytes(),
        ELECTION_REGION.spec_bytes(),
        key,
    );
    log_schema::differently_named_regions_are_disjoint(
        ELECTION_REGION.spec_bytes(),
        REGISTER_REGION.spec_bytes(),
        key,
    );
}

// ---------------------------------------------------------------------------
// Beliefs
// ---------------------------------------------------------------------------

/// Whether a horizon is worth another belief-begin: the first one is, and so is one
/// that moved out. The begins of one term are merged by their largest horizon, so
/// any other says nothing that is not already in the log.
pub fn should_log_extension(logged: Option<Duration>, horizon: Duration) -> (r: bool)
    ensures
        r == (logged matches Some(before) ==> horizon@ > before@),
{
    match logged {
        Some(before) => before.shorter_than(&horizon),
        None => true,
    }
}

/// What the work of a term has told the log so far.
#[derive(Debug, Clone, Copy, PartialEq, Eq, Structural)]
pub struct BeliefBookkeeping {
    /// The term.
    pub ballot: u64,
    /// The furthest horizon a belief-begin was logged for.
    pub logged_horizon: Option<Duration>,
    /// Whether the belief was closed.
    pub ended: bool,
}

/// Nothing written down yet.
pub open spec fn blank_book() -> BeliefBookkeeping {
    BeliefBookkeeping { ballot: 0, logged_horizon: None, ended: false }
}

impl Default for BeliefBookkeeping {
    fn default() -> (r: BeliefBookkeeping)
        ensures
            r == blank_book(),
    {
        BeliefBookkeeping { ballot: 0, logged_horizon: None, ended: false }
    }
}

/// The term whose belief is closed once its work was dropped, if one is: a belief
/// that was opened, was not closed, and has not reached its horizon.
pub open spec fn belief_to_close(book: BeliefBookkeeping, now: nat) -> Option<u64> {
    match book.logged_horizon {
        Some(horizon) if !book.ended && now < horizon@ => Some(book.ballot),
        _ => None,
    }
}

/// The term whose belief is closed once its work was dropped, if one is.
pub fn lost_belief(book: &BeliefBookkeeping, now: Duration) -> (r: Option<u64>)
    ensures
        r == belief_to_close(*book, now@),
{
    match book.logged_horizon {
        Some(horizon) => {
            if !book.ended && may_log_end(now, horizon) {
                Some(book.ballot)
            } else {
                None
            }
        },
        None => None,
    }
}

/// Whether the belief of a term that was served to the end is closed with a record:
/// the term still stands and its horizon has not passed.
pub fn closes_belief(stands: bool, now: Duration, believed_until: Duration) -> (r: bool)
    ensures
        r == (stands && now@ < believed_until@),
{
    stands && may_log_end(now, believed_until)
}

/// A belief is closed at most once, and never at or past its horizon.
pub proof fn a_belief_is_closed_once_and_in_time(book: BeliefBookkeeping, now: nat)
    ensures
        belief_to_close(book, now) is Some ==> !book.ended && (
        book.logged_horizon matches Some(horizon) && now < horizon@),
        belief_to_close(BeliefBookkeeping { ended: true, ..book }, now) is None,
{
}

// ---------------------------------------------------------------------------
// Counters
// ---------------------------------------------------------------------------

/// What one client's elector achieved.
#[derive(Debug, Clone, Copy, PartialEq, Eq, Structural)]
pub struct ElectorCounters {
    /// Terms won.
    pub acquisitions: u64,
    /// Ranked-register writes that committed.
    pub fenced_applied: u64,
    /// Ranked-register writes the fence refused.
    pub fenced_rejected: u64,
    /// Terms the elector reported as lost.
    pub lease_losses: u64,
    /// Terms handed back cleanly.
    pub resigns: u64,
    /// Operations that failed with something other than a protocol refusal.
    pub errors: u64,
}

/// Counters of a run that has not begun.
pub open spec fn nothing_counted() -> ElectorCounters {
    ElectorCounters {
        acquisitions: 0,
        fenced_applied: 0,
        fenced_rejected: 0,
        lease_losses: 0,
        resigns: 0,
        errors: 0,
    }
}

impl Default for ElectorCounters {
    fn default() -> (r: ElectorCounters)
        ensures
            r == nothing_counted(),
    {
        ElectorCounters {
            acquisitions: 0,
            fenced_applied: 0,
            fenced_rejected: 0,
            lease_losses: 0,
            resigns: 0,
            errors: 0,
        }
    }
}

/// How an attempt to lead ended.
#[derive(Debug, Clone, Copy, PartialEq, Eq, Structural)]
pub enum LeadOutcome {
    /// The work ran to its end; the term was released, or somebody else had it.
    Completed {
        /// Whether it was released.
        released: bool,
    },
    /// The term was lost under the work.
    LeaseLost,
    /// The elector failed.
    Failed,
}

/// What a client counts about an attempt to lead, and whether it tries again.
pub fn after_lead(counters: ElectorCounters, outcome: LeadOutcome) -> (r: (ElectorCounters, bool))
    ensures
        r == (match outcome {
            LeadOutcome::Completed { released: true } => (
                ElectorCounters { resigns: roles::one_more(counters.resigns), ..counters },
                true,
            ),
            LeadOutcome::Completed { released: false } => (counters, true),
            LeadOutcome::LeaseLost => (
                ElectorCounters {
                    lease_losses: roles::one_more(counters.lease_losses),
                    ..counters
                },
                true,
            ),
            LeadOutcome::Failed => (
                ElectorCounters { errors: roles::one_more(counters.errors), ..counters },
                false,
            ),
        }),
{
    match outcome {
        LeadOutcome::Completed { released } => {
            if released {
                (ElectorCounters { resigns: count_one(counters.resigns), ..counters }, true)
            } else {
                (counters, true)
            }
        },
        LeadOutcome::LeaseLost => (
            ElectorCounters { lease_losses: count_one(counters.lease_losses), ..counters },
            true,
        ),
        LeadOutcome::Failed => (
            ElectorCounters { errors: count_one(counters.errors), ..counters },
            false,
        ),
    }
}

/// What a client counts about a term it won.
pub fn count_acquisition(counters: ElectorCounters) -> (r: ElectorCounters)
    ensures
        r == (ElectorCounters { acquisitions: roles::one_more(counters.acquisitions), ..counters }),
{
    ElectorCounters { acquisitions: count_one(counters.acquisitions), ..counters }
}

/// What a client counts about something that failed.
pub fn count_error(counters: ElectorCounters) -> (r: ElectorCounters)
    ensures
        r == (ElectorCounters { errors: roles::one_more(counters.errors), ..counters }),
{
    ElectorCounters { errors: count_one(counters.errors), ..counters }
}

/// What a client has counted once a piece of fenced work came back; work that the
/// horizon cut off is not counted.
pub open spec fn with_work(counters: ElectorCounters, work: Work) -> ElectorCounters {
    match work {
        Work::Committed => ElectorCounters {
            fenced_applied: roles::one_more(counters.fenced_applied),
            ..counters
        },
        Work::Refused => ElectorCounters {
            fenced_rejected: roles::one_more(counters.fenced_rejected),
            ..counters
        },
        Work::Abandoned => counters,
    }
}

/// What a client counts about a piece of fenced work.
pub fn count_work(counters: ElectorCounters, work: Work) -> (r: ElectorCounters)
    ensures
        r == with_work(counters, work),
{
    match work {
        Work::Committed => ElectorCounters {
            fenced_applied: count_one(counters.fenced_applied),
            ..counters
        },
        Work::Refused => ElectorCounters {
            fenced_rejected: count_one(counters.fenced_rejected),
            ..counters
        },
        Work::Abandoned => counters,
    }
}

/// How long a piece of fenced work may take at `now`: until the horizon, or not at
/// all where that has passed.
pub fn work_window(believed_until: Duration, now: Duration) -> (r: Option<Duration>)
    ensures
        r is None <==> now@ >= believed_until@,
        r matches Some(remaining) ==> remaining@ == believed_until@ - now@,
{
    let remaining = believed_until.saturating_sub(now);
    if remaining.is_zero() {
        None
    } else {
        Some(remaining)
    }
}

/// Whether a role that gave up did so before its time: its delay failed, or the
/// deadline has not come.
pub fn gave_up_early(delay_failed: bool, now: Duration, deadline: Duration) -> (r: bool)
    ensures
        r == (delay_failed || now@ < deadline@),
{
    delay_failed || now.shorter_than(&deadline)
}

} // verus!
