//! What a client writes to the operation log about each operation it runs.
//!
//! Every operation is one transaction that reads the leader record, lets the
//! recipe decide, and appends a record of what it did. The records are built
//! here, from what was read and what was decided.

use crate::log_schema::{LogRecord, ObservedIdentity, OpKind, Outcome};
use crate::replay::same_token;
use crate::text;
use crate::text::{same_text, signed_text};
use vstd::prelude::*;
use vstd::string::*;

verus! {

/// The name a client claims under.
pub open spec fn leader_name(client_id: i32) -> Seq<char> {
    "process_"@ + text::int_text(client_id as int)
}

/// The name a client claims under.
pub fn leader_id(client_id: i32) -> (r: String)
    ensures
        r@ == leader_name(client_id),
{
    "process_".to_owned().concat(signed_text(client_id as i64).as_str())
}

/// The leader record, as a transaction reads it.
#[derive(Debug)]
pub struct Standing {
    /// Who holds the term, or held it last.
    pub leader_id: String,
    /// The token it was claimed with.
    pub token: [u8; 16],
    /// The term.
    pub ballot: u64,
    /// The renewal counter.
    pub generation: u64,
    /// Whether the term has been resigned.
    pub vacant: bool,
    /// The lease it advertises, in nanoseconds.
    pub lease_nanos: Option<u64>,
}

impl Standing {
    /// Whether the record is held under this name and token.
    pub open spec fn held_by(self, leader: Seq<char>, token: Seq<u8>) -> bool {
        !self.vacant && self.leader_id@ == leader && self.token@ == token
    }

    /// Whether the record is held under this name and token.
    pub fn is_held_by(&self, leader: &str, token: &[u8; 16]) -> (r: bool)
        ensures
            r == self.held_by(leader@, token@),
    {
        !self.vacant && same_text(self.leader_id.as_str(), leader) && same_token(
            &self.token,
            token,
        )
    }

    /// What an observer tracks of the record.
    pub open spec fn identity(self) -> ObservedIdentity {
        ObservedIdentity {
            ballot: self.ballot,
            generation: self.generation,
            vacant: self.vacant,
        }
    }
}

/// What an observer tracks of the record.
pub fn identity_of(record: &Standing) -> (r: ObservedIdentity)
    ensures
        r == record.identity(),
{
    ObservedIdentity {
        ballot: record.ballot,
        generation: record.generation,
        vacant: record.vacant,
    }
}

/// What an observer tracks, where there is a record.
pub open spec fn seen(previous: Option<Standing>) -> Option<ObservedIdentity> {
    match previous {
        Some(record) => Some(record.identity()),
        None => None,
    }
}

fn sighted(previous: &Option<Standing>) -> (r: Option<ObservedIdentity>)
    ensures
        r == seen(*previous),
{
    match previous {
        Some(record) => Some(identity_of(record)),
        None => None,
    }
}

/// The lease a record advertises, none where there is no record or no lease.
pub open spec fn advertised(previous: Option<Standing>) -> u64 {
    match previous {
        Some(record) => match record.lease_nanos {
            Some(lease) => lease,
            None => 0,
        },
        None => 0,
    }
}

fn lease_seen(previous: &Option<Standing>) -> (r: u64)
    ensures
        r == advertised(*previous),
{
    match previous {
        Some(record) => match record.lease_nanos {
            Some(lease) => lease,
            None => 0,
        },
        None => 0,
    }
}

/// A record that says nothing but what was done, under which token.
pub open spec fn blank(op: OpKind, token: [u8; 16]) -> LogRecord {
    LogRecord {
        op,
        outcome: Outcome::Applied,
        attempt_id: 0,
        token,
        ballot: 0,
        generation: 0,
        observed: None,
        leader_record_written: false,
        recovery_noop: false,
        maybe_committed: false,
        superseded: false,
        local_nanos: 0,
        sim_nanos: 0,
        observation_start_nanos: None,
        lease_nanos: 0,
        horizon_nanos: 0,
    }
}

/// How an operation ended.
pub open spec fn ending(applied: bool) -> Outcome {
    if applied {
        Outcome::Applied
    } else {
        Outcome::Rejected
    }
}

fn ended(applied: bool) -> (r: Outcome)
    ensures
        r == ending(applied),
{
    if applied {
        Outcome::Applied
    } else {
        Outcome::Rejected
    }
}

/// A term, as whoever holds it knows it.
#[derive(Debug, Clone, Copy)]
pub struct Grant {
    /// The token it was claimed with.
    pub token: [u8; 16],
    /// The term.
    pub ballot: u64,
    /// The renewal counter.
    pub generation: u64,
    /// The lease, in nanoseconds.
    pub lease_nanos: u64,
}

/// How a claim ended.
#[derive(Debug, Clone, Copy)]
pub enum ClaimOutcome {
    /// It won a term.
    Won(Grant),
    /// The current term had not been still for long enough.
    Denied,
    /// An earlier write of the same attempt may have committed.
    Superseded,
}

/// A claim: the attempt it was made under, when, and since when the claimant had
/// watched the record stand still.
#[derive(Debug, Clone, Copy)]
pub struct Claim {
    /// The claimant's own number for the attempt.
    pub attempt_id: u64,
    /// The attempt's token.
    pub token: [u8; 16],
    /// Whether an earlier commit of the attempt may have landed.
    pub maybe_committed: bool,
    /// When the recipe sampled the claimant's clock.
    pub local_nanos: u64,
    /// Since when the record had stood still.
    pub observed_since: Option<u64>,
}

/// Whether a claim took a term from somebody: the record it found was held.
pub open spec fn takes_from_somebody(previous: Option<Standing>) -> bool {
    previous matches Some(record) && !record.vacant
}

/// Whether a claim found its own record already written.
pub open spec fn finds_its_own(
    previous: Option<Standing>,
    leader: Seq<char>,
    token: Seq<u8>,
) -> bool {
    previous matches Some(record) && record.held_by(leader, token)
}

/// What a claim writes down.
pub open spec fn claimed(
    previous: Option<Standing>,
    leader: Seq<char>,
    claim: Claim,
    outcome: ClaimOutcome,
) -> LogRecord {
    let recovering = finds_its_own(previous, leader, claim.token@);
    let won = outcome is Won;
    let base = LogRecord {
        outcome: ending(won),
        attempt_id: claim.attempt_id,
        leader_record_written: won && !recovering,
        recovery_noop: won && recovering,
        superseded: outcome is Superseded,
        maybe_committed: claim.maybe_committed,
        observed: seen(previous),
        local_nanos: claim.local_nanos,
        observation_start_nanos: claim.observed_since,
        ..blank(
            if takes_from_somebody(previous) {
                OpKind::Steal
            } else {
                OpKind::Claim
            },
            claim.token,
        )
    };
    match outcome {
        ClaimOutcome::Won(grant) => LogRecord {
            ballot: grant.ballot,
            generation: grant.generation,
            lease_nanos: grant.lease_nanos,
            ..base
        },
        _ => LogRecord { lease_nanos: advertised(previous), ..base },
    }
}

/// What a claim writes down: a steal where it found the term held, a claim
/// otherwise; the term it won, or the lease that kept it out; and whether it
/// wrote the record or found that it already had.
pub fn claim_record(
    previous: &Option<Standing>,
    leader: &str,
    claim: Claim,
    outcome: ClaimOutcome,
) -> (r: LogRecord)
    ensures
        r == claimed(*previous, leader@, claim, outcome),
{
    let (recovering, held) = match previous {
        Some(record) => (record.is_held_by(leader, &claim.token), !record.vacant),
        None => (false, false),
    };
    let (won, superseded, ballot, generation, lease_nanos) = match outcome {
        ClaimOutcome::Won(grant) => (
            true,
            false,
            grant.ballot,
            grant.generation,
            grant.lease_nanos,
        ),
        ClaimOutcome::Denied => (false, false, 0, 0, lease_seen(previous)),
        ClaimOutcome::Superseded => (false, true, 0, 0, lease_seen(previous)),
    };
    LogRecord {
        op: if held {
            OpKind::Steal
        } else {
            OpKind::Claim
        },
        outcome: ended(won),
        attempt_id: claim.attempt_id,
        token: claim.token,
        ballot,
        generation,
        observed: sighted(previous),
        leader_record_written: won && !recovering,
        recovery_noop: won && recovering,
        maybe_committed: claim.maybe_committed,
        superseded,
        local_nanos: claim.local_nanos,
        sim_nanos: 0,
        observation_start_nanos: claim.observed_since,
        lease_nanos,
        horizon_nanos: 0,
    }
}

/// What throwing a claim's reply away writes down.
pub fn injected_unknown_record(claim: Claim, ballot: u64) -> (r: LogRecord)
    ensures
        r == (LogRecord {
            attempt_id: claim.attempt_id,
            ballot,
            maybe_committed: claim.maybe_committed,
            local_nanos: claim.local_nanos,
            ..blank(OpKind::InjectedUnknown, claim.token)
        }),
{
    LogRecord {
        op: OpKind::InjectedUnknown,
        outcome: Outcome::Applied,
        attempt_id: claim.attempt_id,
        token: claim.token,
        ballot,
        generation: 0,
        observed: None,
        leader_record_written: false,
        recovery_noop: false,
        maybe_committed: claim.maybe_committed,
        superseded: false,
        local_nanos: claim.local_nanos,
        sim_nanos: 0,
        observation_start_nanos: None,
        lease_nanos: 0,
        horizon_nanos: 0,
    }
}

/// What a paused client writes down once it has been succeeded: from here on it owes a
/// write and a renewal under its stale term.
pub fn sleeper_woke_record(ballot: u64, token: [u8; 16], local_nanos: u64) -> (r: LogRecord)
    ensures
        r == (LogRecord { ballot, local_nanos, ..blank(OpKind::SleeperWoke, token) }),
{
    LogRecord {
        op: OpKind::SleeperWoke,
        outcome: Outcome::Applied,
        attempt_id: 0,
        token,
        ballot,
        generation: 0,
        observed: None,
        leader_record_written: false,
        recovery_noop: false,
        maybe_committed: false,
        superseded: false,
        local_nanos,
        sim_nanos: 0,
        observation_start_nanos: None,
        lease_nanos: 0,
        horizon_nanos: 0,
    }
}

/// Whether a renewal found its own renewal already written: the record is held
/// under the grant, one generation on.
pub open spec fn finds_its_renewal(
    previous: Option<Standing>,
    leader: Seq<char>,
    grant: Grant,
    expected_generation: u64,
) -> bool {
    previous matches Some(record) && record.held_by(leader, grant.token@) && record.generation
        == expected_generation + 1
}

/// What a renewal writes down.
pub open spec fn refreshed(
    previous: Option<Standing>,
    leader: Seq<char>,
    grant: Grant,
    expected_generation: u64,
    applied: bool,
    local_nanos: u64,
) -> LogRecord {
    let recovering = finds_its_renewal(previous, leader, grant, expected_generation);
    LogRecord {
        outcome: ending(applied),
        ballot: grant.ballot,
        generation: (expected_generation + 1) as u64,
        leader_record_written: applied && !recovering,
        recovery_noop: applied && recovering,
        observed: seen(previous),
        local_nanos,
        lease_nanos: grant.lease_nanos,
        ..blank(OpKind::Renew, grant.token)
    }
}

/// What a renewal writes down.
pub fn refresh_record(
    previous: &Option<Standing>,
    leader: &str,
    grant: Grant,
    expected_generation: u64,
    applied: bool,
    local_nanos: u64,
) -> (r: LogRecord)
    requires
        expected_generation < u64::MAX,
    ensures
        r == refreshed(*previous, leader@, grant, expected_generation, applied, local_nanos),
{
    let recovering = match previous {
        Some(record) => record.is_held_by(leader, &grant.token) && record.generation
            == expected_generation + 1,
        None => false,
    };
    LogRecord {
        op: OpKind::Renew,
        outcome: ended(applied),
        attempt_id: 0,
        token: grant.token,
        ballot: grant.ballot,
        generation: expected_generation + 1,
        observed: sighted(previous),
        leader_record_written: applied && !recovering,
        recovery_noop: applied && recovering,
        maybe_committed: false,
        superseded: false,
        local_nanos,
        sim_nanos: 0,
        observation_start_nanos: None,
        lease_nanos: grant.lease_nanos,
        horizon_nanos: 0,
    }
}

/// Whether a resignation found the term already handed back.
pub open spec fn finds_it_vacant(previous: Option<Standing>, grant: Grant) -> bool {
    previous matches Some(record) && record.vacant && record.ballot == grant.ballot
}

/// What a resignation writes down: it keeps the identity it found, which is what
/// lets a successor take the next term without waiting.
pub open spec fn resigned(
    previous: Option<Standing>,
    grant: Grant,
    applied: bool,
    local_nanos: u64,
) -> LogRecord {
    let recovering = finds_it_vacant(previous, grant);
    LogRecord {
        outcome: ending(applied),
        ballot: match previous {
            Some(record) => record.ballot,
            None => grant.ballot,
        },
        generation: match previous {
            Some(record) => record.generation,
            None => grant.generation,
        },
        leader_record_written: applied && !recovering,
        recovery_noop: applied && recovering,
        observed: seen(previous),
        local_nanos,
        ..blank(OpKind::Resign, grant.token)
    }
}

/// What a resignation writes down.
pub fn resign_record(
    previous: &Option<Standing>,
    grant: Grant,
    applied: bool,
    local_nanos: u64,
) -> (r: LogRecord)
    ensures
        r == resigned(*previous, grant, applied, local_nanos),
{
    let (recovering, ballot, generation) = match previous {
        Some(record) => (
            record.vacant && record.ballot == grant.ballot,
            record.ballot,
            record.generation,
        ),
        None => (false, grant.ballot, grant.generation),
    };
    LogRecord {
        op: OpKind::Resign,
        outcome: ended(applied),
        attempt_id: 0,
        token: grant.token,
        ballot,
        generation,
        observed: sighted(previous),
        leader_record_written: applied && !recovering,
        recovery_noop: applied && recovering,
        maybe_committed: false,
        superseded: false,
        local_nanos,
        sim_nanos: 0,
        observation_start_nanos: None,
        lease_nanos: 0,
        horizon_nanos: 0,
    }
}

/// No token at all.
pub open spec fn no_token(token: [u8; 16]) -> bool {
    token@ == Seq::new(16, |i: int| 0u8)
}

/// What a fenced write writes down: the sequence it was made at stands in the
/// generation's place.
pub fn fenced_write_record(ballot: u64, sequence: u32, committed: bool, local_nanos: u64) -> (r:
    LogRecord)
    ensures
        no_token(r.token),
        r == (LogRecord {
            outcome: ending(committed),
            ballot,
            generation: sequence as u64,
            local_nanos,
            ..blank(OpKind::FencedWrite, r.token)
        }),
{
    let mut r = LogRecord::new(OpKind::FencedWrite);
    r.outcome = ended(committed);
    r.ballot = ballot;
    r.generation = sequence as u64;
    r.local_nanos = local_nanos;
    r
}

/// What a sighting of the leader record writes down.
pub fn observe_record(current: &Option<Standing>, local_nanos: u64) -> (r: LogRecord)
    ensures
        no_token(r.token),
        r == (LogRecord {
            observed: seen(*current),
            local_nanos,
            lease_nanos: advertised(*current),
            ..blank(OpKind::Observe, r.token)
        }),
{
    let mut r = LogRecord::new(OpKind::Observe);
    r.observed = sighted(current);
    r.local_nanos = local_nanos;
    r.lease_nanos = lease_seen(current);
    r
}

/// What a belief's beginning or extension writes down.
pub fn belief_begin_record(
    ballot: u64,
    token: [u8; 16],
    horizon_nanos: u64,
    lease_nanos: u64,
    local_nanos: u64,
) -> (r: LogRecord)
    ensures
        r == (LogRecord {
            ballot,
            local_nanos,
            horizon_nanos,
            lease_nanos,
            ..blank(OpKind::BeliefBegin, token)
        }),
{
    let mut r = LogRecord::new(OpKind::BeliefBegin);
    r.token = token;
    r.ballot = ballot;
    r.local_nanos = local_nanos;
    r.horizon_nanos = horizon_nanos;
    r.lease_nanos = lease_nanos;
    r
}

/// What a belief's end writes down: it has no horizon.
pub fn belief_end_record(ballot: u64, token: [u8; 16], lease_nanos: u64, local_nanos: u64) -> (r:
    LogRecord)
    ensures
        r == (LogRecord { ballot, local_nanos, lease_nanos, ..blank(OpKind::BeliefEnd, token) }),
{
    let mut r = LogRecord::new(OpKind::BeliefEnd);
    r.token = token;
    r.ballot = ballot;
    r.local_nanos = local_nanos;
    r.lease_nanos = lease_nanos;
    r
}

/// A record about to be appended: the true time is written in, and so is that an
/// earlier commit of the same transaction may have landed.
pub fn stamped(record: LogRecord, maybe_committed: bool, sim_nanos: u64) -> (r: LogRecord)
    ensures
        r == (LogRecord {
            maybe_committed: record.maybe_committed || maybe_committed,
            sim_nanos,
            ..record
        }),
{
    let mut r = record;
    r.maybe_committed = record.maybe_committed || maybe_committed;
    r.sim_nanos = sim_nanos;
    r
}

/// A record says at most one of two things: that its transaction wrote the leader
/// record, or that it found its own write already there. It says one of them
/// exactly where the operation applied.
pub proof fn a_write_is_told_apart_from_a_recovery(
    previous: Option<Standing>,
    leader: Seq<char>,
    claim: Claim,
    outcome: ClaimOutcome,
    grant: Grant,
    expected_generation: u64,
    applied: bool,
    local_nanos: u64,
)
    ensures
        ({
            let c = claimed(previous, leader, claim, outcome);
            let f = refreshed(previous, leader, grant, expected_generation, applied, local_nanos);
            let s = resigned(previous, grant, applied, local_nanos);
            &&& !(c.leader_record_written && c.recovery_noop)
            &&& (c.leader_record_written || c.recovery_noop) == (c.outcome == Outcome::Applied)
            &&& !(f.leader_record_written && f.recovery_noop)
            &&& (f.leader_record_written || f.recovery_noop) == (f.outcome == Outcome::Applied)
            &&& !(s.leader_record_written && s.recovery_noop)
            &&& (s.leader_record_written || s.recovery_noop) == (s.outcome == Outcome::Applied)
        }),
{
}

// ---------------------------------------------------------------------------
// The fenced register's value
// ---------------------------------------------------------------------------

/// What `foundationdb_tuple::pack` makes of a writer's tuple: the client, the
/// term and the fencing sequence.
pub uninterp spec fn packed_writer(t: (i32, u64, u32)) -> Seq<u8>;

/// What `foundationdb_tuple::unpack` makes of bytes read as a writer's tuple: the
/// tuple, or the `Debug` text of the error.
pub uninterp spec fn unpacked_writer(bytes: Seq<u8>) -> Result<(i32, u64, u32), Seq<char>>;

/// Calls `foundationdb_tuple::pack` on a writer's tuple. The contract names the
/// bytes and says that unpacking them gives the tuple back.
#[verifier::external_body]
fn pack_writer(client_id: i32, ballot: u64, sequence: u32) -> (r: Vec<u8>)
    ensures
        r@ == packed_writer((client_id, ballot, sequence)),
        unpacked_writer(r@) is Ok,
        unpacked_writer(r@)->Ok_0 == (client_id, ballot, sequence),
{
    foundationdb_tuple::pack(&(client_id, ballot, sequence))
}

/// Calls `foundationdb_tuple::unpack` for a writer's tuple, and prints the error
/// with `Debug` where there is one. The contract names the outcome, which is a
/// function of the bytes alone.
#[verifier::external_body]
fn unpack_writer(bytes: &[u8]) -> (r: Result<(i32, u64, u32), String>)
    ensures
        match r {
            Ok(t) => unpacked_writer(bytes@) is Ok && unpacked_writer(bytes@)->Ok_0 == t,
            Err(text) => unpacked_writer(bytes@) is Err && unpacked_writer(bytes@)->Err_0 == text@,
        },
{
    match foundationdb_tuple::unpack(bytes) {
        Ok(t) => Ok(t),
        Err(e) => Err(format!("{e:?}")),
    }
}

/// What a leader writes to the fenced register. Reading it back gives the writer.
pub fn writer_value(client_id: i32, ballot: u64, sequence: u32) -> (r: Vec<u8>)
    ensures
        r@ == packed_writer((client_id, ballot, sequence)),
        unpacked_writer(r@) is Ok,
        unpacked_writer(r@)->Ok_0 == (client_id, ballot, sequence),
{
    pack_writer(client_id, ballot, sequence)
}

/// Who wrote what the fenced register holds, where it holds anything.
pub fn register_writer(value: &Option<Vec<u8>>) -> (r: Result<Option<(i32, u64, u32)>, String>)
    ensures
        match *value {
            None => r is Ok && r->Ok_0 is None,
            Some(bytes) => match unpacked_writer(bytes@) {
                Ok(t) => r is Ok && r->Ok_0 == Some(t),
                Err(text) => r is Err && r->Err_0@ == text,
            },
        },
{
    match value {
        None => Ok(None),
        Some(bytes) => match unpack_writer(bytes.as_slice()) {
            Ok(t) => Ok(Some(t)),
            Err(text) => Err(text),
        },
    }
}

} // verus!
