//! The twelve invariants a finished run is judged by.
//!
//! Each check reads the log, what replaying it produced, or both, and reports
//! everything that broke it. A check finds; it repairs nothing and assumes
//! nothing of the log beyond what it names.

use crate::duration;
use crate::duration::{nanos, Duration};
use crate::log_schema::{LogEntry, LogRecord, ObservedIdentity, OpKind, Outcome};
use crate::replay;
use crate::replay::{
    same_token, Belief, ExpectedRecord, RecordView, Replay, ReplayView, Transition,
    TransitionKind, TransitionView,
};
use crate::report;
use crate::report::{note, Finding, InvariantReport, Violation, Violations};
use crate::text;
use crate::text::{byte_list, count_text, flag_text, number_text, quoted, same_text, signed_text, wide_text};
use std::collections::HashMap;
use vstd::prelude::*;
use vstd::string::*;

verus! {

// ---------------------------------------------------------------------------
// Parameters
// ---------------------------------------------------------------------------

/// How much clock disagreement a configuration admits.
#[derive(Debug, Clone, Copy, PartialEq, Eq, Structural)]
pub struct Tolerances {
    /// How far two belief intervals may overlap before it counts.
    pub belief_overlap: Duration,
    /// How much shorter than a full lease an observation window may measure.
    pub observation_slack: Duration,
}

impl Tolerances {
    /// No slack whatsoever: the configuration with identical clocks.
    pub fn strict() -> (r: Tolerances)
        ensures
            r.belief_overlap@ == 0,
            r.observation_slack@ == 0,
    {
        Tolerances { belief_overlap: Duration::zero(), observation_slack: Duration::zero() }
    }

    /// The same slack for both measurements.
    pub fn with_slack(slack: Duration) -> (r: Tolerances)
        ensures
            r.belief_overlap == slack,
            r.observation_slack == slack,
    {
        Tolerances { belief_overlap: slack, observation_slack: slack }
    }
}

/// The minimum a run must have achieved to count as having tested anything.
#[derive(Debug, Clone, Copy, PartialEq, Eq, Structural)]
pub struct ProgressThresholds {
    /// Applied claims and steals.
    pub min_acquisitions: usize,
    /// Applied renewals, demanded only of runs that had the chance to renew.
    pub min_renewals: usize,
    /// Distinct leader identities the watchers saw.
    pub min_observed_identities: usize,
    /// Unknown commits the run must have resolved, one way or the other.
    pub min_recoveries: usize,
    /// How long after a belief begins its first renewal comes due.
    pub renew_interval: Duration,
}

/// One entry of the recipe's own history subspace, oldest first.
#[derive(Debug, Clone, PartialEq, Eq)]
pub struct HistoryEntry {
    /// What the recipe recorded.
    pub kind: HistoryKind,
    /// The ballot the transition produced.
    pub ballot: u64,
    /// Who caused it.
    pub leader_id: String,
}

/// What a [`HistoryEntry`] says.
#[verifier::ext_equal]
pub struct HistoryView {
    pub kind: HistoryKind,
    pub ballot: u64,
    pub leader_id: Seq<char>,
}

impl View for HistoryEntry {
    type V = HistoryView;

    open spec fn view(&self) -> HistoryView {
        HistoryView { kind: self.kind, ballot: self.ballot, leader_id: self.leader_id@ }
    }
}

/// What a list of history entries says.
pub open spec fn history_views(history: Seq<HistoryEntry>) -> Seq<HistoryView> {
    Seq::new(history.len(), |i: int| history[i]@)
}

/// The transitions the recipe records; renewals are deliberately not among them.
#[derive(Debug, Clone, Copy, PartialEq, Eq, Structural, Hash)]
pub enum HistoryKind {
    /// Took an absent or vacant record.
    Claim,
    /// Took a record from a holder.
    Steal,
    /// Gave the term up.
    Resign,
}

/// How the recipe records a transition, if it does.
pub open spec fn recorded_as(kind: TransitionKind) -> Option<HistoryKind> {
    match kind {
        TransitionKind::Claim => Some(HistoryKind::Claim),
        TransitionKind::Steal => Some(HistoryKind::Steal),
        TransitionKind::Resign => Some(HistoryKind::Resign),
        TransitionKind::Renew => None,
    }
}

impl HistoryKind {
    /// How the recipe records a transition, if it does.
    pub fn from_transition(kind: TransitionKind) -> (r: Option<HistoryKind>)
        ensures
            r == recorded_as(kind),
    {
        match kind {
            TransitionKind::Claim => Some(HistoryKind::Claim),
            TransitionKind::Steal => Some(HistoryKind::Steal),
            TransitionKind::Resign => Some(HistoryKind::Resign),
            TransitionKind::Renew => None,
        }
    }

    /// The kind's name.
    pub fn name(self) -> (r: &'static str)
        ensures
            r@ == history_kind_text(self),
    {
        match self {
            HistoryKind::Claim => "Claim",
            HistoryKind::Steal => "Steal",
            HistoryKind::Resign => "Resign",
        }
    }
}

/// The name of a kind of history entry.
pub open spec fn history_kind_text(kind: HistoryKind) -> Seq<char> {
    match kind {
        HistoryKind::Claim => "Claim"@,
        HistoryKind::Steal => "Steal"@,
        HistoryKind::Resign => "Resign"@,
    }
}

// ---------------------------------------------------------------------------
// How values are spelled out
// ---------------------------------------------------------------------------

/// An identity, spelled out.
pub open spec fn identity_text(seen: ObservedIdentity) -> Seq<char> {
    "ObservedIdentity { ballot: "@ + text::nat_text(seen.ballot as nat) + ", generation: "@
        + text::nat_text(seen.generation as nat) + ", vacant: "@ + text::bool_text(seen.vacant)
        + " }"@
}

/// An identity, spelled out.
fn identity_words(seen: ObservedIdentity) -> (r: String)
    ensures
        r@ == identity_text(seen),
{
    "ObservedIdentity { ballot: ".to_owned().concat(number_text(seen.ballot).as_str()).concat(
        ", generation: ",
    ).concat(number_text(seen.generation).as_str()).concat(", vacant: ").concat(
        flag_text(seen.vacant),
    ).concat(" }")
}

/// An optional identity, spelled out.
pub open spec fn optional_identity_text(seen: Option<ObservedIdentity>) -> Seq<char> {
    match seen {
        Some(seen) => "Some("@ + identity_text(seen) + ")"@,
        None => "None"@,
    }
}

/// An optional identity, spelled out.
fn optional_identity_words(seen: Option<ObservedIdentity>) -> (r: String)
    ensures
        r@ == optional_identity_text(seen),
{
    match seen {
        Some(seen) => "Some(".to_owned().concat(identity_words(seen).as_str()).concat(")"),
        None => "None".to_owned(),
    }
}

/// An optional leader record, spelled out.
pub open spec fn optional_record_text(record: Option<RecordView>) -> Seq<char> {
    match record {
        Some(record) => "Some(ExpectedRecord { ballot: "@ + text::nat_text(record.ballot as nat)
            + ", generation: "@ + text::nat_text(record.generation as nat) + ", leader_id: "@
            + text::quoted_text(record.leader_id) + ", token: "@ + text::bytes_text(record.token)
            + ", lease_nanos: "@ + text::nat_text(record.lease_nanos as nat) + " })"@,
        None => "None"@,
    }
}

/// An optional leader record, spelled out.
fn optional_record_words(record: Option<&ExpectedRecord>) -> (r: String)
    ensures
        r@ == optional_record_text(view_of(record)),
{
    match record {
        Some(record) => "Some(ExpectedRecord { ballot: ".to_owned().concat(
            number_text(record.ballot).as_str(),
        ).concat(", generation: ").concat(number_text(record.generation).as_str()).concat(
            ", leader_id: ",
        ).concat(quoted(record.leader_id.as_str()).as_str()).concat(", token: ").concat(
            byte_list(record.token.as_slice()).as_str(),
        ).concat(", lease_nanos: ").concat(number_text(record.lease_nanos).as_str()).concat(" })"),
        None => "None".to_owned(),
    }
}

/// What a record, if there is one, says.
pub open spec fn view_of(record: Option<&ExpectedRecord>) -> Option<RecordView> {
    match record {
        Some(record) => Some(record@),
        None => None,
    }
}

// ---------------------------------------------------------------------------
// Dual path replay
// ---------------------------------------------------------------------------

/// Whether two records say the same.
fn same_record(a: &ExpectedRecord, b: &ExpectedRecord) -> (r: bool)
    ensures
        r == (a@ == b@),
{
    let r = a.ballot == b.ballot && a.generation == b.generation && same_text(
        a.leader_id.as_str(),
        b.leader_id.as_str(),
    ) && same_token(&a.token, &b.token) && a.lease_nanos == b.lease_nanos;
    assert(a.token@ == b.token@ ==> a.token =~= b.token);
    r
}

/// Every anomaly of the replay, as a finding.
pub open spec fn anomaly_findings(replayed: ReplayView) -> Seq<Finding> {
    Seq::new(
        replayed.anomalies.len(),
        |i: int| report::found_at(replayed.anomalies[i].index, replayed.anomalies[i].detail),
    )
}

/// The replay's own anomalies, and a disagreement between the record it ends at
/// and the one the database holds, filed under the last transition.
pub open spec fn dual_path_findings(
    replayed: ReplayView,
    snapshot: Option<RecordView>,
) -> Seq<Finding> {
    let detail = "replay says "@ + optional_record_text(replayed.final_state)
        + ", the database holds "@ + optional_record_text(snapshot);
    anomaly_findings(replayed) + report::when(
        replayed.final_state != snapshot,
        if replayed.transitions.len() > 0 {
            report::found_at(replayed.transitions.last().index, detail)
        } else {
            report::found_overall(detail)
        },
    )
}

/// Replaying the log must reproduce the database exactly.
pub fn dual_path_replay(replay: &Replay, snapshot: Option<&ExpectedRecord>) -> (r: InvariantReport)
    ensures
        r.says("DualPathReplay"@, dual_path_findings(replay@, view_of(snapshot))),
{
    let mut violations: Vec<Violation> = Vec::new();
    let mut i: usize = 0;
    while i < replay.anomalies.len()
        invariant
            i <= replay.anomalies@.len(),
            report::findings(violations@) == anomaly_findings(replay@).take(i as int),
        decreases replay.anomalies@.len() - i,
    {
        let anomaly = &replay.anomalies[i];
        note(&mut violations, Violation::at(anomaly.index, anomaly.detail.clone()));
        assert(anomaly_findings(replay@)[i as int] == report::found_at(
            anomaly.index,
            anomaly.detail@,
        ));
        assert(anomaly_findings(replay@).take(i as int + 1) =~= anomaly_findings(replay@).take(
            i as int,
        ).push(anomaly_findings(replay@)[i as int]));
        i = i + 1;
    }
    assert(anomaly_findings(replay@).take(i as int) =~= anomaly_findings(replay@));
    let expected = match &replay.final_state {
        Some(record) => Some(record),
        None => None,
    };
    let agrees = match (expected, snapshot) {
        (None, None) => true,
        (Some(expected), Some(actual)) => same_record(expected, actual),
        _ => false,
    };
    if !agrees {
        let detail = "replay says ".to_owned().concat(optional_record_words(expected).as_str()).concat(
            ", the database holds ",
        ).concat(optional_record_words(snapshot).as_str());
        let n: usize = replay.transitions.len();
        if n > 0 {
            assert(replay@.transitions.last() == replay.transitions@[n - 1]@);
            note(&mut violations, Violation::at(replay.transitions[n - 1].index, detail));
        } else {
            note(&mut violations, Violation::global(detail));
        }
    }
    assert(report::findings(violations@) =~= dual_path_findings(replay@, view_of(snapshot)));
    InvariantReport::new("DualPathReplay", violations)
}

/// The check passes exactly when the log makes sense entry by entry and replays
/// to the record the database holds.
pub proof fn dual_path_passes_exactly_when_the_paths_agree(
    replayed: ReplayView,
    snapshot: Option<RecordView>,
)
    ensures
        dual_path_findings(replayed, snapshot).len() == 0 <==> replayed.anomalies.len() == 0
            && replayed.final_state == snapshot,
{
}

// ---------------------------------------------------------------------------
// Ballot succession
// ---------------------------------------------------------------------------

/// The state a transition found.
pub open spec fn found_by(replayed: ReplayView, t: TransitionView) -> Option<RecordView> {
    replayed.states_before[t.index as int]
}

/// The identity a state shows, if there is one.
pub open spec fn shown(state: Option<RecordView>) -> Option<ObservedIdentity> {
    match state {
        Some(record) => Some(record.identity()),
        None => None,
    }
}

/// The ballot of a state, zero where there is no record.
pub open spec fn ballot_of(state: Option<RecordView>) -> int {
    match state {
        Some(record) => record.ballot as int,
        None => 0,
    }
}

/// The generation of a state, zero where there is no record.
pub open spec fn generation_of(state: Option<RecordView>) -> int {
    match state {
        Some(record) => record.generation as int,
        None => 0,
    }
}

/// What a transition decided on a read that its predecessor did not leave.
pub open spec fn stale_read_findings(t: TransitionView, previous: Option<RecordView>) -> Seq<Finding> {
    report::when(
        t.observed is Some && shown(previous) != t.observed,
        report::found_at(
            t.index,
            "read "@ + identity_text(t.observed->Some_0) + " but its predecessor left "@
                + optional_identity_text(shown(previous))
                + ": the write was decided on a stale read"@,
        ),
    )
}

/// What is wrong with the step an acquisition takes.
pub open spec fn acquisition_findings(t: TransitionView, previous: Option<RecordView>) -> Seq<Finding> {
    report::when(
        t.ballot != ballot_of(previous) + 1,
        report::found_at(
            t.index,
            "took ballot "@ + text::nat_text(t.ballot as nat) + " where the predecessor demands "@
                + text::nat_text((ballot_of(previous) + 1) as nat)
                + ": ballots never reset and never skip"@,
        ),
    ) + report::when(
        t.generation != generation_of(previous),
        report::found_at(
            t.index,
            "a new term continues the generation counter at "@ + text::nat_text(
                generation_of(previous) as nat,
            ) + ", not "@ + text::nat_text(t.generation as nat),
        ),
    )
}

/// What is wrong with the step a renewal takes.
pub open spec fn renewal_findings(t: TransitionView, previous: Option<RecordView>) -> Seq<Finding> {
    match previous {
        None => seq![report::found_at(t.index, "renewed a record that does not exist"@)],
        Some(previous) => report::when(
            previous.vacant(),
            report::found_at(t.index, "renewed a resigned term"@),
        ) + report::when(
            t.ballot != previous.ballot,
            report::found_at(
                t.index,
                "a renewal keeps ballot "@ + text::nat_text(previous.ballot as nat)
                    + ", it does not move to "@ + text::nat_text(t.ballot as nat),
            ),
        ) + report::when(
            t.generation != previous.generation + 1,
            report::found_at(
                t.index,
                "a renewal adds exactly one generation to "@ + text::nat_text(
                    previous.generation as nat,
                ) + ", not "@ + text::nat_text(t.generation as nat),
            ),
        ) + report::when(
            t.token != previous.token || t.leader_id != previous.leader_id,
            report::found_at(t.index, "a renewal came from something other than the holder"@),
        ),
    }
}

/// What is wrong with the step a resign takes.
pub open spec fn resign_findings(t: TransitionView, previous: Option<RecordView>) -> Seq<Finding> {
    match previous {
        None => seq![report::found_at(t.index, "resigned a record that does not exist"@)],
        Some(previous) => report::when(
            t.ballot != previous.ballot || t.generation != previous.generation,
            report::found_at(
                t.index,
                "a resign preserves ("@ + text::nat_text(previous.ballot as nat) + ", "@
                    + text::nat_text(previous.generation as nat) + "), it wrote ("@
                    + text::nat_text(t.ballot as nat) + ", "@ + text::nat_text(
                    t.generation as nat,
                ) + ")"@,
            ),
        ),
    }
}

/// What is wrong with the step one transition takes.
pub open spec fn step_findings(t: TransitionView, previous: Option<RecordView>) -> Seq<Finding> {
    stale_read_findings(t, previous) + match t.kind {
        TransitionKind::Claim | TransitionKind::Steal => acquisition_findings(t, previous),
        TransitionKind::Renew => renewal_findings(t, previous),
        TransitionKind::Resign => resign_findings(t, previous),
    }
}

/// The rule of ballot succession, transition by transition.
pub open spec fn succession_rule(replayed: ReplayView) -> spec_fn(int, TransitionView) -> Seq<Finding> {
    |i: int, t: TransitionView| step_findings(t, found_by(replayed, t))
}

/// Everything that breaks ballot succession.
pub open spec fn succession_findings(replayed: ReplayView) -> Seq<Finding> {
    report::gathered(
        replayed.transitions,
        replayed.transitions.len() as int,
        succession_rule(replayed),
    )
}

fn check_stale_read(
    violations: &mut Vec<Violation>,
    transition: &Transition,
    previous: Option<&ExpectedRecord>,
)
    ensures
        report::findings(final(violations)@) == report::findings(old(violations)@)
            + stale_read_findings(transition@, view_of(previous)),
{
    if let Some(observed) = transition.observed {
        let expected = match previous {
            Some(previous) => Some(previous.identity()),
            None => None,
        };
        if expected != Some(observed) {
            note(
                violations,
                Violation::at(
                    transition.index,
                    "read ".to_owned().concat(identity_words(observed).as_str()).concat(
                        " but its predecessor left ",
                    ).concat(optional_identity_words(expected).as_str()).concat(
                        ": the write was decided on a stale read",
                    ),
                ),
            );
        }
    }
    assert(report::findings(violations@) =~= report::findings(old(violations)@)
        + stale_read_findings(transition@, view_of(previous)));
}

fn check_acquisition(
    violations: &mut Vec<Violation>,
    transition: &Transition,
    previous: Option<&ExpectedRecord>,
)
    ensures
        report::findings(final(violations)@) == report::findings(old(violations)@)
            + acquisition_findings(transition@, view_of(previous)),
{
    let expected_ballot: u128 = match previous {
        Some(previous) => previous.ballot as u128 + 1,
        None => 1,
    };
    if transition.ballot as u128 != expected_ballot {
        note(
            violations,
            Violation::at(
                transition.index,
                "took ballot ".to_owned().concat(number_text(transition.ballot).as_str()).concat(
                    " where the predecessor demands ",
                ).concat(wide_text(expected_ballot).as_str()).concat(
                    ": ballots never reset and never skip",
                ),
            ),
        );
    }
    let expected_generation: u64 = match previous {
        Some(previous) => previous.generation,
        None => 0,
    };
    if transition.generation != expected_generation {
        note(
            violations,
            Violation::at(
                transition.index,
                "a new term continues the generation counter at ".to_owned().concat(
                    number_text(expected_generation).as_str(),
                ).concat(", not ").concat(number_text(transition.generation).as_str()),
            ),
        );
    }
    assert(report::findings(violations@) =~= report::findings(old(violations)@)
        + acquisition_findings(transition@, view_of(previous)));
}

fn check_renewal(
    violations: &mut Vec<Violation>,
    transition: &Transition,
    previous: Option<&ExpectedRecord>,
)
    ensures
        report::findings(final(violations)@) == report::findings(old(violations)@)
            + renewal_findings(transition@, view_of(previous)),
{
    match previous {
        None => {
            note(
                violations,
                Violation::at(transition.index, "renewed a record that does not exist".to_owned()),
            );
        },
        Some(previous) => {
            if previous.is_vacant() {
                note(
                    violations,
                    Violation::at(transition.index, "renewed a resigned term".to_owned()),
                );
            }
            if transition.ballot != previous.ballot {
                note(
                    violations,
                    Violation::at(
                        transition.index,
                        "a renewal keeps ballot ".to_owned().concat(
                            number_text(previous.ballot).as_str(),
                        ).concat(", it does not move to ").concat(
                            number_text(transition.ballot).as_str(),
                        ),
                    ),
                );
            }
            if transition.generation as u128 != previous.generation as u128 + 1 {
                note(
                    violations,
                    Violation::at(
                        transition.index,
                        "a renewal adds exactly one generation to ".to_owned().concat(
                            number_text(previous.generation).as_str(),
                        ).concat(", not ").concat(number_text(transition.generation).as_str()),
                    ),
                );
            }
            let same_holder = same_token(&transition.token, &previous.token) && same_text(
                transition.leader_id.as_str(),
                previous.leader_id.as_str(),
            );
            assert(transition.token@ == previous.token@ ==> transition.token =~= previous.token);
            if !same_holder {
                note(
                    violations,
                    Violation::at(
                        transition.index,
                        "a renewal came from something other than the holder".to_owned(),
                    ),
                );
            }
        },
    }
    assert(report::findings(violations@) =~= report::findings(old(violations)@)
        + renewal_findings(transition@, view_of(previous)));
}

fn check_resign(
    violations: &mut Vec<Violation>,
    transition: &Transition,
    previous: Option<&ExpectedRecord>,
)
    ensures
        report::findings(final(violations)@) == report::findings(old(violations)@)
            + resign_findings(transition@, view_of(previous)),
{
    match previous {
        None => {
            note(
                violations,
                Violation::at(transition.index, "resigned a record that does not exist".to_owned()),
            );
        },
        Some(previous) => {
            if transition.ballot != previous.ballot || transition.generation
                != previous.generation {
                note(
                    violations,
                    Violation::at(
                        transition.index,
                        "a resign preserves (".to_owned().concat(
                            number_text(previous.ballot).as_str(),
                        ).concat(", ").concat(number_text(previous.generation).as_str()).concat(
                            "), it wrote (",
                        ).concat(number_text(transition.ballot).as_str()).concat(", ").concat(
                            number_text(transition.generation).as_str(),
                        ).concat(")"),
                    ),
                );
            }
        },
    }
    assert(report::findings(violations@) =~= report::findings(old(violations)@)
        + resign_findings(transition@, view_of(previous)));
}

/// Every applied write moves the identity by exactly the step its kind allows.
pub fn ballot_succession(replay: &Replay) -> (r: InvariantReport)
    requires
        replay.indexed(),
    ensures
        r.says("BallotSuccession"@, succession_findings(replay@)),
{
    let mut violations: Vec<Violation> = Vec::new();
    assert(report::findings(violations@) =~= Seq::<Finding>::empty());
    let mut i: usize = 0;
    while i < replay.transitions.len()
        invariant
            i <= replay.transitions@.len(),
            replay.indexed(),
            report::findings(violations@) == report::gathered(
                replay@.transitions,
                i as int,
                succession_rule(replay@),
            ),
        decreases replay.transitions@.len() - i,
    {
        let transition = &replay.transitions[i];
        let previous = match &replay.states_before[transition.index] {
            Some(record) => Some(record),
            None => None,
        };
        let ghost before = report::findings(violations@);
        assert(replay@.transitions[i as int] == transition@);
        assert(view_of(previous) == found_by(replay@, transition@));
        check_stale_read(&mut violations, transition, previous);
        match transition.kind {
            TransitionKind::Claim => check_acquisition(&mut violations, transition, previous),
            TransitionKind::Steal => check_acquisition(&mut violations, transition, previous),
            TransitionKind::Renew => check_renewal(&mut violations, transition, previous),
            TransitionKind::Resign => check_resign(&mut violations, transition, previous),
        }
        assert(report::findings(violations@) =~= before + step_findings(
            transition@,
            found_by(replay@, transition@),
        ));
        i = i + 1;
    }
    InvariantReport::new("BallotSuccession", violations)
}

// ---------------------------------------------------------------------------
// One claim per ballot
// ---------------------------------------------------------------------------

/// Whether a transition acquires `ballot`.
pub open spec fn takes(t: TransitionView, ballot: u64) -> bool {
    replay::acquires(t.kind) && t.ballot == ballot
}

/// The position of the first of the first `n` transitions that acquired
/// `ballot`, or a negative number where none did.
pub open spec fn first_claim(transitions: Seq<TransitionView>, ballot: u64, n: int) -> int
    decreases n,
{
    if n <= 0 {
        -1
    } else {
        let earlier = first_claim(transitions, ballot, n - 1);
        if earlier >= 0 {
            earlier
        } else if takes(transitions[n - 1], ballot) {
            n - 1
        } else {
            -1
        }
    }
}

/// The rule that a ballot is acquired once: every acquisition of a ballot that
/// was acquired before is held against the first.
pub open spec fn one_claim_rule(replayed: ReplayView) -> spec_fn(int, TransitionView) -> Seq<Finding> {
    |i: int, t: TransitionView|
        {
            let first = first_claim(replayed.transitions, t.ballot, i);
            report::when(
                replay::acquires(t.kind) && first >= 0,
                report::found_between(
                    replayed.transitions[first].index,
                    t.index,
                    "ballot "@ + text::nat_text(t.ballot as nat)
                        + " was acquired twice, under tokens "@ + text::bytes_text(
                        replayed.transitions[first].token,
                    ) + " and "@ + text::bytes_text(t.token),
                ),
            )
        }
}

/// Everything that acquires a ballot twice.
pub open spec fn one_claim_findings(replayed: ReplayView) -> Seq<Finding> {
    report::gathered(
        replayed.transitions,
        replayed.transitions.len() as int,
        one_claim_rule(replayed),
    )
}

proof fn first_claim_found(transitions: Seq<TransitionView>, ballot: u64, n: int)
    requires
        0 <= n <= transitions.len(),
    ensures
        ({
            let p = first_claim(transitions, ballot, n);
            &&& -1 <= p < n
            &&& p >= 0 ==> takes(transitions[p], ballot)
            &&& forall|k: int|
                0 <= k < n && (p < 0 || k < p) ==> !takes(#[trigger] transitions[k], ballot)
        }),
    decreases n,
{
    if n > 0 {
        first_claim_found(transitions, ballot, n - 1);
    }
}

/// A ballot names one term, held by one process under one token.
pub fn one_claim_per_ballot(replay: &Replay) -> (r: InvariantReport)
    ensures
        r.says("OneClaimPerBallot"@, one_claim_findings(replay@)),
{
    broadcast use vstd::std_specs::hash::group_hash_axioms;

    let mut violations: Vec<Violation> = Vec::new();
    let mut seen: HashMap<u64, usize> = HashMap::new();
    assert(report::findings(violations@) =~= Seq::<Finding>::empty());
    let mut i: usize = 0;
    while i < replay.transitions.len()
        invariant
            i <= replay.transitions@.len(),
            forall|ballot: u64| #[trigger]
                seen@.contains_key(ballot) <==> first_claim(
                    replay@.transitions,
                    ballot,
                    i as int,
                ) >= 0,
            forall|ballot: u64| #[trigger]
                seen@.contains_key(ballot) ==> seen@[ballot] == first_claim(
                    replay@.transitions,
                    ballot,
                    i as int,
                ),
            report::findings(violations@) == report::gathered(
                replay@.transitions,
                i as int,
                one_claim_rule(replay@),
            ),
        decreases replay.transitions@.len() - i,
    {
        broadcast use vstd::std_specs::hash::group_hash_axioms;

        let transition = &replay.transitions[i];
        let ghost before = report::findings(violations@);
        let ghost seen_before = seen@;
        assert(replay@.transitions[i as int] == transition@);
        proof {
            first_claim_found(replay@.transitions, transition.ballot, i as int);
        }
        if transition.kind.is_acquisition() {
            let first: Option<usize> = match seen.get(&transition.ballot) {
                Some(first) => Some(*first),
                None => None,
            };
            match first {
                Some(first) => {
                    assert(replay@.transitions[first as int] == replay.transitions@[first as int]@);
                    note(
                        &mut violations,
                        Violation::between(
                            replay.transitions[first].index,
                            transition.index,
                            "ballot ".to_owned().concat(
                                number_text(transition.ballot).as_str(),
                            ).concat(" was acquired twice, under tokens ").concat(
                                byte_list(replay.transitions[first].token.as_slice()).as_str(),
                            ).concat(" and ").concat(
                                byte_list(transition.token.as_slice()).as_str(),
                            ),
                        ),
                    );
                },
                None => {
                    seen.insert(transition.ballot, i);
                },
            }
        }
        assert(report::findings(violations@) =~= before + one_claim_rule(replay@)(
            i as int,
            transition@,
        ));
        proof {
            assert forall|ballot: u64| #[trigger]
                seen@.contains_key(ballot) <==> first_claim(
                    replay@.transitions,
                    ballot,
                    i as int + 1,
                ) >= 0 by {
                assert(seen_before.contains_key(ballot) <==> first_claim(
                    replay@.transitions,
                    ballot,
                    i as int,
                ) >= 0);
            }
            assert forall|ballot: u64| #[trigger] seen@.contains_key(ballot) implies seen@[ballot]
                == first_claim(replay@.transitions, ballot, i as int + 1) by {
                assert(seen_before.contains_key(ballot) <==> first_claim(
                    replay@.transitions,
                    ballot,
                    i as int,
                ) >= 0);
            }
        }
        i = i + 1;
    }
    InvariantReport::new("OneClaimPerBallot", violations)
}

/// The check passes exactly when no two acquisitions share a ballot.
pub proof fn one_claim_passes_exactly_when_ballots_are_distinct(replayed: ReplayView)
    ensures
        one_claim_findings(replayed).len() == 0 <==> forall|j: int, k: int|
            0 <= j < k < replayed.transitions.len() && replay::acquires(
                (#[trigger] replayed.transitions[j]).kind,
            ) && replay::acquires((#[trigger] replayed.transitions[k]).kind)
                ==> replayed.transitions[j].ballot != replayed.transitions[k].ballot,
{
    let ts = replayed.transitions;
    let rule = one_claim_rule(replayed);
    report::nothing_gathered(ts, ts.len() as int, rule);
    if one_claim_findings(replayed).len() == 0 {
        assert forall|j: int, k: int|
            0 <= j < k < ts.len() && replay::acquires((#[trigger] ts[j]).kind) && replay::acquires(
                (#[trigger] ts[k]).kind,
            ) implies ts[j].ballot != ts[k].ballot by {
            assert(rule(k, ts[k]).len() == 0);
            first_claim_found(ts, ts[k].ballot, k);
            if ts[j].ballot == ts[k].ballot {
                assert(takes(ts[j], ts[k].ballot));
            }
        }
    }
    if forall|j: int, k: int|
        0 <= j < k < ts.len() && replay::acquires((#[trigger] ts[j]).kind) && replay::acquires(
            (#[trigger] ts[k]).kind,
        ) ==> ts[j].ballot != ts[k].ballot {
        assert forall|k: int| 0 <= k < ts.len() implies (#[trigger] rule(k, ts[k])).len() == 0 by {
            first_claim_found(ts, ts[k].ballot, k);
            let p = first_claim(ts, ts[k].ballot, k);
            if p >= 0 && replay::acquires(ts[k].kind) {
                assert(replay::acquires(ts[p].kind) && ts[p].ballot == ts[k].ballot);
            }
        }
    }
}

// ---------------------------------------------------------------------------
// No belief overlap
// ---------------------------------------------------------------------------

/// Of two beliefs, the one that began first; the first given where they began
/// together.
pub open spec fn earlier(first: Belief, second: Belief) -> Belief {
    if first.begin_sim_nanos <= second.begin_sim_nanos {
        first
    } else {
        second
    }
}

/// Of two beliefs, the other one.
pub open spec fn later(first: Belief, second: Belief) -> Belief {
    if first.begin_sim_nanos <= second.begin_sim_nanos {
        second
    } else {
        first
    }
}

/// How long two beliefs overlap, in simulated nanoseconds.
pub open spec fn overlap(first: Belief, second: Belief) -> int {
    replay::floored_difference(
        replay::effective_end(earlier(first, second)),
        later(first, second).begin_sim_nanos as int,
    )
}

/// What two beliefs break by overlapping more than `epsilon` nanoseconds. The entries
/// that began them are named in commit order, whichever began first by the clock.
pub open spec fn pair_findings(first: Belief, second: Belief, epsilon: u64) -> Seq<Finding> {
    let early = earlier(first, second);
    let late = later(first, second);
    let in_order = first.begin_index <= second.begin_index;
    report::when(
        overlap(first, second) > epsilon,
        report::found_between(
            if in_order {
                first.begin_index
            } else {
                second.begin_index
            },
            if in_order {
                second.begin_index
            } else {
                first.begin_index
            },
            "client "@ + text::int_text(early.client_id as int) + " believed it held ballot "@
                + text::nat_text(early.ballot as nat) + " until "@ + text::nat_text(
                replay::effective_end(early) as nat,
            ) + " ns, while client "@ + text::int_text(late.client_id as int)
                + " started believing it held ballot "@ + text::nat_text(late.ballot as nat)
                + " at "@ + text::nat_text(late.begin_sim_nanos as nat) + " ns ("@
                + text::nat_text(overlap(first, second) as nat) + " ns of overlap, tolerance "@
                + text::nat_text(epsilon as nat) + " ns)"@,
        ),
    )
}

/// What belief `i` breaks with the beliefs after it, up to position `m`.
pub open spec fn overlaps_with(beliefs: Seq<Belief>, epsilon: u64, i: int, m: int) -> Seq<Finding>
    decreases m - i,
{
    if m <= i + 1 {
        Seq::empty()
    } else {
        overlaps_with(beliefs, epsilon, i, m - 1) + pair_findings(
            beliefs[i],
            beliefs[m - 1],
            epsilon,
        )
    }
}

/// The rule that beliefs do not overlap: each belief against every later one.
pub open spec fn overlap_rule(beliefs: Seq<Belief>, epsilon: u64) -> spec_fn(int, Belief) -> Seq<Finding> {
    |i: int, belief: Belief| overlaps_with(beliefs, epsilon, i, beliefs.len() as int)
}

/// Every overlap of two beliefs beyond the tolerance.
pub open spec fn overlap_findings(beliefs: Seq<Belief>, epsilon: u64) -> Seq<Finding> {
    report::gathered(beliefs, beliefs.len() as int, overlap_rule(beliefs, epsilon))
}

/// No two processes believe they lead at the same time.
pub fn no_belief_overlap(replay: &Replay, tolerances: &Tolerances) -> (r: InvariantReport)
    requires
        replay.beliefs@.len() * replay.beliefs@.len() <= usize::MAX,
    ensures
        r.says(
            "NoBeliefOverlap"@,
            report::capped(
                overlap_findings(
                    replay.beliefs@,
                    duration::low_bits(tolerances.belief_overlap@),
                ),
            ),
        ),
{
    let mut violations = Violations::new();
    let epsilon: u64 = nanos(tolerances.belief_overlap);
    let beliefs = &replay.beliefs;
    let ghost n = beliefs@.len() as int;
    let mut i: usize = 0;
    while i < beliefs.len()
        invariant
            i <= beliefs@.len(),
            n == beliefs@.len(),
            n * n <= usize::MAX,
            violations.pushed() <= i * n,
            violations.holds(
                report::gathered(beliefs@, i as int, overlap_rule(beliefs@, epsilon)),
            ),
        decreases beliefs@.len() - i,
    {
        let ghost before = report::gathered(beliefs@, i as int, overlap_rule(beliefs@, epsilon));
        let first = &beliefs[i];
        let mut j: usize = i + 1;
        assert(before + overlaps_with(beliefs@, epsilon, i as int, i as int + 1) =~= before);
        while j < beliefs.len()
            invariant
                i < j <= beliefs@.len(),
                n == beliefs@.len(),
                n * n <= usize::MAX,
                violations.pushed() <= i * n + (j - i - 1),
                *first == beliefs@[i as int],
                violations.holds(before + overlaps_with(beliefs@, epsilon, i as int, j as int)),
            decreases beliefs@.len() - j,
        {
            let second = &beliefs[j];
            let (early, late) = if first.begin_sim_nanos <= second.begin_sim_nanos {
                (first, second)
            } else {
                (second, first)
            };
            let end: u64 = early.effective_end_sim_nanos();
            let shared: u64 = end.saturating_sub(late.begin_sim_nanos);
            let ghost so_far = overlaps_with(beliefs@, epsilon, i as int, j as int);
            assert(i * n + (j - i - 1) < n * n) by (nonlinear_arith)
                requires
                    0 <= i < j < n,
            ;
            if shared > epsilon {
                let (lower, upper) = if first.begin_index <= second.begin_index {
                    (first, second)
                } else {
                    (second, first)
                };
                let violation = Violation::between(
                    lower.begin_index,
                    upper.begin_index,
                    "client ".to_owned().concat(signed_text(early.client_id as i64).as_str()).concat(
                        " believed it held ballot ",
                    ).concat(number_text(early.ballot).as_str()).concat(" until ").concat(
                        number_text(end).as_str(),
                    ).concat(" ns, while client ").concat(
                        signed_text(late.client_id as i64).as_str(),
                    ).concat(" started believing it held ballot ").concat(
                        number_text(late.ballot).as_str(),
                    ).concat(" at ").concat(number_text(late.begin_sim_nanos).as_str()).concat(
                        " ns (",
                    ).concat(number_text(shared).as_str()).concat(
                        " ns of overlap, tolerance ",
                    ).concat(number_text(epsilon).as_str()).concat(" ns)"),
                );
                violations.push(violation);
                assert((before + so_far).push(violation@) =~= before + (so_far + pair_findings(
                    beliefs@[i as int],
                    beliefs@[j as int],
                    epsilon,
                )));
            } else {
                assert(before + so_far =~= before + (so_far + pair_findings(
                    beliefs@[i as int],
                    beliefs@[j as int],
                    epsilon,
                )));
            }
            j = j + 1;
        }
        assert(i * n + n == (i + 1) * n) by (nonlinear_arith);
        i = i + 1;
    }
    violations.into_report("NoBeliefOverlap")
}

proof fn overlaps_with_none(beliefs: Seq<Belief>, epsilon: u64, i: int, m: int)
    requires
        0 <= i < m <= beliefs.len(),
    ensures
        overlaps_with(beliefs, epsilon, i, m).len() == 0 <==> forall|j: int|
            i < j < m ==> overlap(beliefs[i], #[trigger] beliefs[j]) <= epsilon,
    decreases m - i,
{
    if m > i + 1 {
        overlaps_with_none(beliefs, epsilon, i, m - 1);
    }
}

/// The check passes exactly when no two beliefs overlap by more than the
/// tolerance.
pub proof fn no_overlap_passes_exactly_when_beliefs_are_apart(beliefs: Seq<Belief>, epsilon: u64)
    ensures
        report::capped(overlap_findings(beliefs, epsilon)).len() == 0 <==> forall|i: int, j: int|
            0 <= i < j < beliefs.len() ==> overlap(#[trigger] beliefs[i], #[trigger] beliefs[j])
                <= epsilon,
{
    let rule = overlap_rule(beliefs, epsilon);
    report::nothing_gathered(beliefs, beliefs.len() as int, rule);
    report::capping_keeps_the_judgement(overlap_findings(beliefs, epsilon));
    assert forall|i: int| 0 <= i < beliefs.len() implies ((#[trigger] rule(i, beliefs[i])).len() == 0
        <==> forall|j: int|
        i < j < beliefs.len() ==> overlap(beliefs[i], #[trigger] beliefs[j]) <= epsilon) by {
        overlaps_with_none(beliefs, epsilon, i, beliefs.len() as int);
    }
    if forall|i: int, j: int|
        0 <= i < j < beliefs.len() ==> overlap(#[trigger] beliefs[i], #[trigger] beliefs[j])
            <= epsilon {
        assert forall|i: int| 0 <= i < beliefs.len() implies (#[trigger] rule(i, beliefs[i])).len()
            == 0 by {}
    }
    if overlap_findings(beliefs, epsilon).len() == 0 {
        assert forall|i: int, j: int| 0 <= i < j < beliefs.len() implies overlap(
            #[trigger] beliefs[i],
            #[trigger] beliefs[j],
        ) <= epsilon by {
            assert(rule(i, beliefs[i]).len() == 0);
        }
    }
}

// ---------------------------------------------------------------------------
// Steal observation discipline
// ---------------------------------------------------------------------------

/// The entry indices of the first `n` transitions that lie strictly between two
/// entries.
pub open spec fn interference(
    transitions: Seq<TransitionView>,
    after: usize,
    before: usize,
    n: int,
) -> Seq<usize>
    decreases n,
{
    if n <= 0 {
        Seq::empty()
    } else {
        let earlier = interference(transitions, after, before, n - 1);
        if after < transitions[n - 1].index < before {
            earlier.push(transitions[n - 1].index)
        } else {
            earlier
        }
    }
}

/// What is wrong with the window a steal watched for: none recorded, or one
/// shorter than the lease it had to outlast, less the slack.
pub open spec fn window_findings(index: usize, record: LogRecord, lease: u64, slack: u64) -> Seq<Finding> {
    match record.observation_start_nanos {
        None => seq![report::found_at(index, "stole a term without an observation window"@)],
        Some(start) => {
            let elapsed = replay::floored_difference(record.local_nanos as int, start as int);
            report::when(
                elapsed + slack < lease,
                report::found_at(
                    index,
                    "observed the record for "@ + text::nat_text(elapsed as nat)
                        + " ns before taking it, but it advertised a lease of "@
                        + text::nat_text(lease as nat) + " ns (tolerance "@ + text::nat_text(
                        slack as nat,
                    ) + " ns)"@,
                ),
            )
        },
    }
}

/// What interrupted the window a steal watched for: an identity nobody wrote, or
/// writes between the one that produced it and the steal.
pub open spec fn interruption_findings(
    transitions: Seq<TransitionView>,
    index: usize,
    observed: ObservedIdentity,
) -> Seq<Finding> {
    let n = transitions.len() as int;
    let source = replay::producer_position(transitions, observed, index as int, n);
    if source < 0 {
        seq![
            report::found_at(
                index,
                "observed "@ + identity_text(observed)
                    + ", which no applied write ever produced"@,
            ),
        ]
    } else {
        let writes = interference(transitions, transitions[source].index, index, n);
        report::when(
            writes.len() > 0,
            Finding {
                indices: report::bounded(
                    seq![transitions[source].index] + writes + seq![index],
                ),
                detail: text::nat_text(writes.len())
                    + " applied write(s) changed the leader record inside the observation window"@,
            },
        )
    }
}

/// What is wrong with one steal.
pub open spec fn steal_findings(
    entries: Seq<LogEntry>,
    replayed: ReplayView,
    t: TransitionView,
    slack: u64,
) -> Seq<Finding> {
    if !(t.kind is Steal) {
        Seq::empty()
    } else if t.observed is None {
        seq![report::found_at(t.index, "stole a term without recording what it observed"@)]
    } else if found_by(replayed, t) is None {
        seq![report::found_at(t.index, "stole a term from an absent record"@)]
    } else {
        window_findings(
            t.index,
            entries[t.index as int].record,
            found_by(replayed, t)->Some_0.lease_nanos,
            slack,
        ) + interruption_findings(replayed.transitions, t.index, t.observed->Some_0)
    }
}

/// The rule that a steal is earned by watching.
pub open spec fn steal_rule(
    entries: Seq<LogEntry>,
    replayed: ReplayView,
    slack: u64,
) -> spec_fn(int, TransitionView) -> Seq<Finding> {
    |i: int, t: TransitionView| steal_findings(entries, replayed, t, slack)
}

/// Every steal that was not earned.
pub open spec fn discipline_findings(
    entries: Seq<LogEntry>,
    replayed: ReplayView,
    slack: u64,
) -> Seq<Finding> {
    report::gathered(
        replayed.transitions,
        replayed.transitions.len() as int,
        steal_rule(entries, replayed, slack),
    )
}

fn interfering_writes(replay: &Replay, after: usize, before: usize) -> (r: Vec<usize>)
    ensures
        r@ == interference(
            replay@.transitions,
            after,
            before,
            replay.transitions@.len() as int,
        ),
{
    let mut r: Vec<usize> = Vec::new();
    let mut i: usize = 0;
    while i < replay.transitions.len()
        invariant
            i <= replay.transitions@.len(),
            r@ == interference(replay@.transitions, after, before, i as int),
        decreases replay.transitions@.len() - i,
    {
        let t = &replay.transitions[i];
        assert(replay@.transitions[i as int] == t@);
        if t.index > after && t.index < before {
            r.push(t.index);
        }
        i = i + 1;
    }
    r
}

fn check_window(
    violations: &mut Vec<Violation>,
    index: usize,
    record: &LogRecord,
    lease: u64,
    slack: u64,
)
    ensures
        report::findings(final(violations)@) == report::findings(old(violations)@)
            + window_findings(index, *record, lease, slack),
{
    match record.observation_start_nanos {
        None => {
            note(
                violations,
                Violation::at(index, "stole a term without an observation window".to_owned()),
            );
        },
        Some(start) => {
            let elapsed: u64 = record.local_nanos.saturating_sub(start);
            if (elapsed as u128 + slack as u128) < (lease as u128) {
                note(
                    violations,
                    Violation::at(
                        index,
                        "observed the record for ".to_owned().concat(
                            number_text(elapsed).as_str(),
                        ).concat(" ns before taking it, but it advertised a lease of ").concat(
                            number_text(lease).as_str(),
                        ).concat(" ns (tolerance ").concat(number_text(slack).as_str()).concat(
                            " ns)",
                        ),
                    ),
                );
            }
        },
    }
    assert(report::findings(violations@) =~= report::findings(old(violations)@) + window_findings(
        index,
        *record,
        lease,
        slack,
    ));
}

fn check_interruption(
    violations: &mut Vec<Violation>,
    replay: &Replay,
    index: usize,
    observed: ObservedIdentity,
)
    ensures
        report::findings(final(violations)@) == report::findings(old(violations)@)
            + interruption_findings(replay@.transitions, index, observed),
{
    match replay.transition_producing(observed, index) {
        None => {
            note(
                violations,
                Violation::at(
                    index,
                    "observed ".to_owned().concat(identity_words(observed).as_str()).concat(
                        ", which no applied write ever produced",
                    ),
                ),
            );
        },
        Some(source) => {
            let ghost p = replay::producer_position(
                replay@.transitions,
                observed,
                index as int,
                replay.transitions@.len() as int,
            );
            assert(replay@.transitions[p] == source@);
            let writes = interfering_writes(replay, source.index, index);
            if writes.len() > 0 {
                let count = count_text(writes.len());
                let ghost named = writes@;
                let mut indices = vec![source.index];
                let mut writes = writes;
                indices.append(&mut writes);
                indices.push(index);
                assert(indices@ =~= seq![source.index] + named + seq![index]);
                note(
                    violations,
                    Violation::spanning(
                        Violations::indices(indices),
                        count.concat(
                            " applied write(s) changed the leader record inside the observation window",
                        ),
                    ),
                );
            }
        },
    }
    assert(report::findings(violations@) =~= report::findings(old(violations)@)
        + interruption_findings(replay@.transitions, index, observed));
}

/// A steal is earned by watching, not by guessing.
pub fn steal_observation_discipline(
    entries: &[LogEntry],
    replay: &Replay,
    tolerances: &Tolerances,
) -> (r: InvariantReport)
    requires
        replay.indexed(),
        forall|i: int|
            0 <= i < replay.transitions@.len() ==> (#[trigger] replay.transitions@[i]).index
                < entries@.len(),
        2 * replay.transitions@.len() <= usize::MAX,
    ensures
        r.says(
            "StealObservationDiscipline"@,
            report::capped(
                discipline_findings(
                    entries@,
                    replay@,
                    duration::low_bits(tolerances.observation_slack@),
                ),
            ),
        ),
{
    let mut violations = Violations::new();
    let slack: u64 = nanos(tolerances.observation_slack);
    let mut i: usize = 0;
    while i < replay.transitions.len()
        invariant
            i <= replay.transitions@.len(),
            replay.indexed(),
            forall|i: int|
                0 <= i < replay.transitions@.len() ==> (#[trigger] replay.transitions@[i]).index
                    < entries@.len(),
            2 * replay.transitions@.len() <= usize::MAX,
            violations.pushed() <= 2 * i,
            violations.holds(
                report::gathered(
                    replay@.transitions,
                    i as int,
                    steal_rule(entries@, replay@, slack),
                ),
            ),
        decreases replay.transitions@.len() - i,
    {
        let transition = &replay.transitions[i];
        let ghost before = report::gathered(
            replay@.transitions,
            i as int,
            steal_rule(entries@, replay@, slack),
        );
        assert(replay@.transitions[i as int] == transition@);
        let index: usize = transition.index;
        let mut of_this_steal: Vec<Violation> = Vec::new();
        assert(report::findings(of_this_steal@) =~= Seq::<Finding>::empty());
        if transition.kind == TransitionKind::Steal {
            match transition.observed {
                None => {
                    note(
                        &mut of_this_steal,
                        Violation::at(
                            index,
                            "stole a term without recording what it observed".to_owned(),
                        ),
                    );
                },
                Some(observed) => match &replay.states_before[index] {
                    None => {
                        note(
                            &mut of_this_steal,
                            Violation::at(index, "stole a term from an absent record".to_owned()),
                        );
                    },
                    Some(previous) => {
                        assert(found_by(replay@, transition@) == Some(previous@));
                        check_window(
                            &mut of_this_steal,
                            index,
                            &entries[index].record,
                            previous.lease_nanos,
                            slack,
                        );
                        check_interruption(&mut of_this_steal, replay, index, observed);
                    },
                },
            }
        }
        let ghost step = steal_findings(entries@, replay@, transition@, slack);
        assert(report::findings(of_this_steal@) =~= step);
        assert(step.len() <= 2);
        violations.push_all(of_this_steal);
        i = i + 1;
    }
    violations.into_report("StealObservationDiscipline")
}

// ---------------------------------------------------------------------------
// Vacant reclaim
// ---------------------------------------------------------------------------

/// The first recorded state at or after an entry, if there is one.
pub open spec fn next_record(states: Seq<Option<RecordView>>, from: int) -> Option<RecordView>
    decreases states.len() - from,
{
    if from >= states.len() {
        None
    } else if states[from] is Some {
        states[from]
    } else {
        next_record(states, from + 1)
    }
}

/// What is wrong with one transition's handling of vacancy.
pub open spec fn vacancy_findings(replayed: ReplayView, t: TransitionView) -> Seq<Finding> {
    let previous = found_by(replayed, t);
    match t.kind {
        TransitionKind::Resign => match previous {
            None => seq![report::found_at(t.index, "resigned a record that does not exist"@)],
            Some(previous) => {
                let after = next_record(replayed.states_before, t.index as int + 1);
                report::when(
                    previous.vacant(),
                    report::found_at(t.index, "resigned an already vacant term"@),
                ) + report::when(
                    t.ballot != previous.ballot,
                    report::found_at(
                        t.index,
                        "a resign preserves ballot "@ + text::nat_text(previous.ballot as nat)
                            + ", it wrote "@ + text::nat_text(t.ballot as nat)
                            + ": the successor would reuse a ballot"@,
                    ),
                ) + report::when(
                    after is Some && after->Some_0.ballot == t.ballot && !after->Some_0.vacant(),
                    report::found_at(t.index, "a resign must leave the record vacant"@),
                )
            },
        },
        TransitionKind::Claim => report::when(
            previous is Some && !previous->Some_0.vacant(),
            report::found_at(
                t.index,
                "claimed a held record without the observation window a steal owes"@,
            ),
        ),
        TransitionKind::Steal => match previous {
            None => seq![
                report::found_at(t.index, "stole from an absent record, which is a claim"@),
            ],
            Some(previous) => report::when(
                previous.vacant(),
                report::found_at(
                    t.index,
                    "stole a vacant record, which is reclaimed without waiting"@,
                ),
            ),
        },
        TransitionKind::Renew => Seq::empty(),
    }
}

/// The rule that only a vacant record is reclaimed without waiting.
pub open spec fn vacancy_rule(replayed: ReplayView) -> spec_fn(int, TransitionView) -> Seq<Finding> {
    |i: int, t: TransitionView| vacancy_findings(replayed, t)
}

/// Everything that breaks the handling of vacancy.
pub open spec fn reclaim_findings(replayed: ReplayView) -> Seq<Finding> {
    report::gathered(
        replayed.transitions,
        replayed.transitions.len() as int,
        vacancy_rule(replayed),
    )
}

fn record_after(replay: &Replay, from: usize) -> (r: Option<&ExpectedRecord>)
    requires
        from <= replay.states_before@.len(),
    ensures
        view_of(r) == next_record(replay@.states_before, from as int),
{
    let mut i: usize = from;
    while i < replay.states_before.len()
        invariant
            from <= i <= replay.states_before@.len(),
            next_record(replay@.states_before, from as int) == next_record(
                replay@.states_before,
                i as int,
            ),
        decreases replay.states_before@.len() - i,
    {
        assert(replay@.states_before[i as int] == replay::record_view(
            replay.states_before@[i as int],
        ));
        if let Some(record) = &replay.states_before[i] {
            return Some(record);
        }
        i = i + 1;
    }
    None
}

fn check_vacancy(violations: &mut Vec<Violation>, replay: &Replay, transition: &Transition)
    requires
        transition.index < replay.states_before@.len(),
    ensures
        report::findings(final(violations)@) == report::findings(old(violations)@)
            + vacancy_findings(replay@, transition@),
{
    let index: usize = transition.index;
    assert(index < replay.states_before.len());
    let previous = match &replay.states_before[index] {
        Some(record) => Some(record),
        None => None,
    };
    assert(view_of(previous) == found_by(replay@, transition@));
    match transition.kind {
        TransitionKind::Resign => match previous {
            None => {
                note(
                    violations,
                    Violation::at(index, "resigned a record that does not exist".to_owned()),
                );
            },
            Some(previous) => {
                if previous.is_vacant() {
                    note(
                        violations,
                        Violation::at(index, "resigned an already vacant term".to_owned()),
                    );
                }
                if transition.ballot != previous.ballot {
                    note(
                        violations,
                        Violation::at(
                            index,
                            "a resign preserves ballot ".to_owned().concat(
                                number_text(previous.ballot).as_str(),
                            ).concat(", it wrote ").concat(
                                number_text(transition.ballot).as_str(),
                            ).concat(": the successor would reuse a ballot"),
                        ),
                    );
                }
                if let Some(after) = record_after(replay, index + 1) {
                    if after.ballot == transition.ballot && !after.is_vacant() {
                        note(
                            violations,
                            Violation::at(
                                index,
                                "a resign must leave the record vacant".to_owned(),
                            ),
                        );
                    }
                }
            },
        },
        TransitionKind::Claim => {
            if let Some(previous) = previous {
                if !previous.is_vacant() {
                    note(
                        violations,
                        Violation::at(
                            index,
                            "claimed a held record without the observation window a steal owes".to_owned(),
                        ),
                    );
                }
            }
        },
        TransitionKind::Steal => match previous {
            None => {
                note(
                    violations,
                    Violation::at(
                        index,
                        "stole from an absent record, which is a claim".to_owned(),
                    ),
                );
            },
            Some(previous) => {
                if previous.is_vacant() {
                    note(
                        violations,
                        Violation::at(
                            index,
                            "stole a vacant record, which is reclaimed without waiting".to_owned(),
                        ),
                    );
                }
            },
        },
        TransitionKind::Renew => {},
    }
    assert(report::findings(violations@) =~= report::findings(old(violations)@) + vacancy_findings(
        replay@,
        transition@,
    ));
}

/// An orderly handover costs nothing; a crash costs a full lease.
pub fn vacant_reclaim(replay: &Replay) -> (r: InvariantReport)
    requires
        replay.indexed(),
    ensures
        r.says("VacantReclaim"@, reclaim_findings(replay@)),
{
    let mut violations: Vec<Violation> = Vec::new();
    assert(report::findings(violations@) =~= Seq::<Finding>::empty());
    let mut i: usize = 0;
    while i < replay.transitions.len()
        invariant
            i <= replay.transitions@.len(),
            replay.indexed(),
            report::findings(violations@) == report::gathered(
                replay@.transitions,
                i as int,
                vacancy_rule(replay@),
            ),
        decreases replay.transitions@.len() - i,
    {
        assert(replay@.transitions[i as int] == replay.transitions@[i as int]@);
        check_vacancy(&mut violations, replay, &replay.transitions[i]);
        i = i + 1;
    }
    InvariantReport::new("VacantReclaim", violations)
}

// ---------------------------------------------------------------------------
// Fencing holds
// ---------------------------------------------------------------------------

/// Whether an entry is a fenced write that landed.
pub open spec fn landed_write(entry: LogEntry) -> bool {
    entry.record.op is FencedWrite && entry.record.outcome is Applied
}

/// What is wrong with one entry, if it is a fenced write that landed: the term
/// had moved past its ballot, nobody held the term, or somebody else did.
pub open spec fn fencing_findings_at(replayed: ReplayView, index: int, entry: LogEntry) -> Seq<Finding> {
    let ballot = entry.record.ballot;
    let current = ballot_of(replayed.states_before[index]);
    let holder = replay::covering_position(replayed.terms, index, 0);
    if !landed_write(entry) {
        Seq::empty()
    } else if ballot < current {
        seq![
            report::found_at(
                index as usize,
                "a write fenced at ballot "@ + text::nat_text(ballot as nat)
                    + " landed while the term had already moved to "@ + text::nat_text(
                    current as nat,
                ),
            ),
        ]
    } else if holder >= replayed.terms.len() {
        seq![
            report::found_at(
                index as usize,
                "a write fenced at ballot "@ + text::nat_text(ballot as nat)
                    + " landed while nobody held the term"@,
            ),
        ]
    } else {
        let term = replayed.terms[holder];
        report::when(
            term.ballot != ballot || term.client_id != entry.client_id,
            report::found_at(
                index as usize,
                "client "@ + text::int_text(entry.client_id as int) + " wrote at ballot "@
                    + text::nat_text(ballot as nat) + " while client "@ + text::int_text(
                    term.client_id as int,
                ) + " held ballot "@ + text::nat_text(term.ballot as nat),
            ),
        )
    }
}

/// The rule that a fenced write lands only under the term that authorised it.
pub open spec fn fencing_rule(replayed: ReplayView) -> spec_fn(int, LogEntry) -> Seq<Finding> {
    |i: int, entry: LogEntry| fencing_findings_at(replayed, i, entry)
}

/// Every fenced write that landed where it had no right to.
pub open spec fn fencing_findings(entries: Seq<LogEntry>, replayed: ReplayView) -> Seq<Finding> {
    report::gathered(entries, entries.len() as int, fencing_rule(replayed))
}

/// A fenced write lands only under the ballot of the term that authorised it.
pub fn fencing_holds(entries: &[LogEntry], replay: &Replay) -> (r: InvariantReport)
    requires
        forall|i: int|
            0 <= i < entries@.len() && landed_write(#[trigger] entries@[i]) ==> i
                < replay.states_before@.len(),
    ensures
        r.says("FencingHolds"@, fencing_findings(entries@, replay@)),
{
    let mut violations: Vec<Violation> = Vec::new();
    assert(report::findings(violations@) =~= Seq::<Finding>::empty());
    let mut i: usize = 0;
    while i < entries.len()
        invariant
            i <= entries@.len(),
            forall|i: int|
                0 <= i < entries@.len() && landed_write(#[trigger] entries@[i]) ==> i
                    < replay.states_before@.len(),
            report::findings(violations@) == report::gathered(
                entries@,
                i as int,
                fencing_rule(replay@),
            ),
        decreases entries@.len() - i,
    {
        let entry = &entries[i];
        let ghost before = report::findings(violations@);
        if entry.record.op == OpKind::FencedWrite && entry.record.outcome.is_applied() {
            assert(landed_write(entries@[i as int]));
            let ballot: u64 = entry.record.ballot;
            let current: u64 = match &replay.states_before[i] {
                Some(state) => state.ballot,
                None => 0,
            };
            assert(current == ballot_of(replay@.states_before[i as int]));
            if ballot < current {
                note(
                    &mut violations,
                    Violation::at(
                        i,
                        "a write fenced at ballot ".to_owned().concat(
                            number_text(ballot).as_str(),
                        ).concat(" landed while the term had already moved to ").concat(
                            number_text(current).as_str(),
                        ),
                    ),
                );
            } else {
                match replay.term_at(i) {
                    None => {
                        note(
                            &mut violations,
                            Violation::at(
                                i,
                                "a write fenced at ballot ".to_owned().concat(
                                    number_text(ballot).as_str(),
                                ).concat(" landed while nobody held the term"),
                            ),
                        );
                    },
                    Some(term) => {
                        assert(replay@.terms[replay::covering_position(
                            replay@.terms,
                            i as int,
                            0,
                        )] == term@);
                        if term.ballot != ballot || term.client_id != entry.client_id {
                            note(
                                &mut violations,
                                Violation::at(
                                    i,
                                    "client ".to_owned().concat(
                                        signed_text(entry.client_id as i64).as_str(),
                                    ).concat(" wrote at ballot ").concat(
                                        number_text(ballot).as_str(),
                                    ).concat(" while client ").concat(
                                        signed_text(term.client_id as i64).as_str(),
                                    ).concat(" held ballot ").concat(
                                        number_text(term.ballot).as_str(),
                                    ),
                                ),
                            );
                        }
                    },
                }
            }
        }
        assert(report::findings(violations@) =~= before + fencing_findings_at(
            replay@,
            i as int,
            *entry,
        ));
        i = i + 1;
    }
    InvariantReport::new("FencingHolds", violations)
}

// ---------------------------------------------------------------------------
// Sleeper was fenced
// ---------------------------------------------------------------------------

/// Whether an entry is `client_id`'s operation of one kind at `ballot`.
pub open spec fn acts(entry: LogEntry, client_id: i32, ballot: u64, op: OpKind) -> bool {
    entry.client_id == client_id && entry.record.ballot == ballot && entry.record.op == op
}

/// How `client_id`'s first operation of one kind at `ballot` at or after an
/// entry ended, if there is one.
pub open spec fn first_outcome(
    entries: Seq<LogEntry>,
    client_id: i32,
    ballot: u64,
    op: OpKind,
    from: int,
) -> Option<Outcome>
    decreases entries.len() - from,
{
    if from >= entries.len() {
        None
    } else if acts(entries[from], client_id, ballot, op) {
        Some(entries[from].record.outcome)
    } else {
        first_outcome(entries, client_id, ballot, op, from + 1)
    }
}

/// What is wrong with one operation a paused leader owed.
pub open spec fn owed_findings(
    index: int,
    client_id: i32,
    ballot: u64,
    what: Seq<char>,
    outcome: Option<Outcome>,
) -> Seq<Finding> {
    match outcome {
        None => seq![
            report::found_at(
                index as usize,
                "client "@ + text::int_text(client_id as int)
                    + " passed its pause barrier at ballot "@ + text::nat_text(ballot as nat)
                    + " but never attempted the stale "@ + what
                    + ": the scenario proves nothing if the paused leader never acts"@,
            ),
        ],
        Some(outcome) => report::when(
            outcome is Applied,
            report::found_at(
                index as usize,
                "client "@ + text::int_text(client_id as int)
                    + " paused past its lease and its stale "@ + what + " at ballot "@
                    + text::nat_text(ballot as nat) + " was applied rather than refused"@,
            ),
        ),
    }
}

/// What is wrong with what followed one entry, if it is the marker of a paused
/// leader: a stale write and a stale renewal are owed, and both must have been
/// refused.
pub open spec fn sleeper_findings_at(entries: Seq<LogEntry>, index: int, entry: LogEntry) -> Seq<Finding> {
    if !(entry.record.op is SleeperWoke) {
        Seq::empty()
    } else {
        let client = entry.client_id;
        let ballot = entry.record.ballot;
        owed_findings(
            index,
            client,
            ballot,
            "fenced write"@,
            first_outcome(entries, client, ballot, OpKind::FencedWrite, index + 1),
        ) + owed_findings(
            index,
            client,
            ballot,
            "renewal"@,
            first_outcome(entries, client, ballot, OpKind::Renew, index + 1),
        )
    }
}

/// The rule that a paused leader is fenced out.
pub open spec fn sleeper_rule(entries: Seq<LogEntry>) -> spec_fn(int, LogEntry) -> Seq<Finding> {
    |i: int, entry: LogEntry| sleeper_findings_at(entries, i, entry)
}

/// Every paused leader that was not fenced out.
pub open spec fn sleeper_findings(entries: Seq<LogEntry>) -> Seq<Finding> {
    report::gathered(entries, entries.len() as int, sleeper_rule(entries))
}

fn outcome_after(
    entries: &[LogEntry],
    client_id: i32,
    ballot: u64,
    op: OpKind,
    from: usize,
) -> (r: Option<Outcome>)
    requires
        from <= entries@.len(),
    ensures
        r == first_outcome(entries@, client_id, ballot, op, from as int),
{
    let mut i: usize = from;
    while i < entries.len()
        invariant
            from <= i <= entries@.len(),
            first_outcome(entries@, client_id, ballot, op, from as int) == first_outcome(
                entries@,
                client_id,
                ballot,
                op,
                i as int,
            ),
        decreases entries@.len() - i,
    {
        let entry = &entries[i];
        if entry.client_id == client_id && entry.record.ballot == ballot && entry.record.op == op {
            return Some(entry.record.outcome);
        }
        i = i + 1;
    }
    None
}

fn check_owed(
    violations: &mut Vec<Violation>,
    index: usize,
    client_id: i32,
    ballot: u64,
    what: &str,
    outcome: Option<Outcome>,
)
    ensures
        report::findings(final(violations)@) == report::findings(old(violations)@) + owed_findings(
            index as int,
            client_id,
            ballot,
            what@,
            outcome,
        ),
{
    let client = signed_text(client_id as i64);
    match outcome {
        None => {
            note(
                violations,
                Violation::at(
                    index,
                    "client ".to_owned().concat(client.as_str()).concat(
                        " passed its pause barrier at ballot ",
                    ).concat(number_text(ballot).as_str()).concat(
                        " but never attempted the stale ",
                    ).concat(what).concat(
                        ": the scenario proves nothing if the paused leader never acts",
                    ),
                ),
            );
        },
        Some(outcome) => {
            if outcome.is_applied() {
                note(
                    violations,
                    Violation::at(
                        index,
                        "client ".to_owned().concat(client.as_str()).concat(
                            " paused past its lease and its stale ",
                        ).concat(what).concat(" at ballot ").concat(
                            number_text(ballot).as_str(),
                        ).concat(" was applied rather than refused"),
                    ),
                );
            }
        },
    }
    assert(report::findings(violations@) =~= report::findings(old(violations)@) + owed_findings(
        index as int,
        client_id,
        ballot,
        what@,
        outcome,
    ));
}

/// The pause scenario actually ran, and both stale operations were refused.
pub fn sleeper_was_fenced(entries: &[LogEntry]) -> (r: InvariantReport)
    ensures
        r.says("SleeperWasFenced"@, sleeper_findings(entries@)),
{
    let mut violations: Vec<Violation> = Vec::new();
    assert(report::findings(violations@) =~= Seq::<Finding>::empty());
    let mut i: usize = 0;
    while i < entries.len()
        invariant
            i <= entries@.len(),
            report::findings(violations@) == report::gathered(
                entries@,
                i as int,
                sleeper_rule(entries@),
            ),
        decreases entries@.len() - i,
    {
        let entry = &entries[i];
        let ghost before = report::findings(violations@);
        if entry.record.op == OpKind::SleeperWoke {
            let client_id: i32 = entry.client_id;
            let ballot: u64 = entry.record.ballot;
            let write = outcome_after(entries, client_id, ballot, OpKind::FencedWrite, i + 1);
            let renewal = outcome_after(entries, client_id, ballot, OpKind::Renew, i + 1);
            check_owed(&mut violations, i, client_id, ballot, "fenced write", write);
            check_owed(&mut violations, i, client_id, ballot, "renewal", renewal);
        }
        assert(report::findings(violations@) =~= before + sleeper_findings_at(
            entries@,
            i as int,
            *entry,
        ));
        i = i + 1;
    }
    InvariantReport::new("SleeperWasFenced", violations)
}

/// A run that logged no pause marker is judged on nothing.
pub proof fn no_marker_demands_nothing(entries: Seq<LogEntry>)
    requires
        forall|i: int|
            0 <= i < entries.len() ==> !((#[trigger] entries[i]).record.op is SleeperWoke),
    ensures
        sleeper_findings(entries).len() == 0,
{
    let rule = sleeper_rule(entries);
    report::nothing_gathered(entries, entries.len() as int, rule);
    assert forall|i: int| 0 <= i < entries.len() implies (#[trigger] rule(i, entries[i])).len()
        == 0 by {}
}

// ---------------------------------------------------------------------------
// Recovery writes nothing twice
// ---------------------------------------------------------------------------

/// Whether a transition acquires for `client_id` under `token`.
pub open spec fn claims_under(t: TransitionView, client_id: i32, token: Seq<u8>) -> bool {
    replay::acquires(t.kind) && t.client_id == client_id && t.token == token
}

/// The position of the first of the first `n` transitions that acquired for
/// `client_id` under `token`, or a negative number where none did.
pub open spec fn first_under(
    transitions: Seq<TransitionView>,
    client_id: i32,
    token: Seq<u8>,
    n: int,
) -> int
    decreases n,
{
    if n <= 0 {
        -1
    } else {
        let earlier = first_under(transitions, client_id, token, n - 1);
        if earlier >= 0 {
            earlier
        } else if claims_under(transitions[n - 1], client_id, token) {
            n - 1
        } else {
            -1
        }
    }
}

/// The rule that a token accounts for one applied claim.
pub open spec fn token_rule(replayed: ReplayView) -> spec_fn(int, TransitionView) -> Seq<Finding> {
    |i: int, t: TransitionView|
        {
            let first = first_under(replayed.transitions, t.client_id, t.token, i);
            report::when(
                replay::acquires(t.kind) && first >= 0,
                report::found_between(
                    replayed.transitions[first].index,
                    t.index,
                    "client "@ + text::int_text(t.client_id as int)
                        + " claimed twice under one token (ballots "@ + text::nat_text(
                        replayed.transitions[first].ballot as nat,
                    ) + " and "@ + text::nat_text(t.ballot as nat) + ")"@,
                ),
            )
        }
}

/// Whether an entry retires `client_id`'s attempt under `token`.
pub open spec fn retires(entry: LogEntry, client_id: i32, token: Seq<u8>) -> bool {
    entry.record.superseded && entry.client_id == client_id && entry.record.token@ == token
}

/// The first of the first `n` entries that retired `client_id`'s attempt under
/// `token`, or a negative number where none did.
pub open spec fn retired_at(
    entries: Seq<LogEntry>,
    client_id: i32,
    token: Seq<u8>,
    n: int,
) -> int
    decreases n,
{
    if n <= 0 {
        -1
    } else {
        let earlier = retired_at(entries, client_id, token, n - 1);
        if earlier >= 0 {
            earlier
        } else if retires(entries[n - 1], client_id, token) {
            n - 1
        } else {
            -1
        }
    }
}

/// Whether an entry says that its attempt holds a term.
pub open spec fn acquired(record: LogRecord) -> bool {
    ((record.op is Claim || record.op is Steal) && record.outcome is Applied)
        || record.recovery_noop
}

/// What is wrong with one entry's account of its attempt.
pub open spec fn attempt_findings(entries: Seq<LogEntry>, index: int, entry: LogEntry) -> Seq<Finding> {
    let record = entry.record;
    let at = index as usize;
    if record.superseded {
        report::when(
            record.leader_record_written,
            report::found_at(
                at,
                "a superseded attempt wrote the leader record: a retirement is terminal, it is not a write"@,
            ),
        ) + report::when(
            record.recovery_noop,
            report::found_at(
                at,
                "an attempt reports being both adopted and superseded: the two resolutions are exclusive"@,
            ),
        ) + report::when(
            record.outcome is Applied,
            report::found_at(
                at,
                "a superseded attempt reports success: a retired attempt wins nothing"@,
            ),
        )
    } else {
        let first = retired_at(entries, entry.client_id, record.token@, index);
        report::when(
            record.recovery_noop && record.leader_record_written,
            report::found_at(
                at,
                "a recovered unknown commit wrote a second time instead of adopting its record"@,
            ),
        ) + report::when(
            record.recovery_noop && !(record.outcome is Applied),
            report::found_at(
                at,
                "a recovery no-op reports a rejection: recovery either adopts or is superseded"@,
            ),
        ) + report::when(
            first >= 0 && acquired(record),
            report::found_between(
                first as usize,
                at,
                "client "@ + text::int_text(entry.client_id as int)
                    + " campaigned again under a token retired at entry "@ + text::nat_text(
                    first as nat,
                )
                    + ": a superseded attempt is spent, and a fresh campaign owes a fresh token"@,
            ),
        )
    }
}

/// The rule that a recovered attempt adopts or is retired, and nothing else.
pub open spec fn attempt_rule(entries: Seq<LogEntry>) -> spec_fn(int, LogEntry) -> Seq<Finding> {
    |i: int, entry: LogEntry| attempt_findings(entries, i, entry)
}

/// Every claim made twice under one token, then every attempt whose account of
/// its recovery does not hold together.
pub open spec fn recovery_findings(entries: Seq<LogEntry>, replayed: ReplayView) -> Seq<Finding> {
    report::gathered(
        replayed.transitions,
        replayed.transitions.len() as int,
        token_rule(replayed),
    ) + report::gathered(entries, entries.len() as int, attempt_rule(entries))
}

fn first_claim_under(replay: &Replay, client_id: i32, token: &[u8; 16], n: usize) -> (r: Option<
    usize,
>)
    requires
        n <= replay.transitions@.len(),
    ensures
        match r {
            Some(i) => i < n && first_under(replay@.transitions, client_id, token@, n as int) == i,
            None => first_under(replay@.transitions, client_id, token@, n as int) < 0,
        },
{
    let mut i: usize = 0;
    while i < n
        invariant
            i <= n <= replay.transitions@.len(),
            first_under(replay@.transitions, client_id, token@, i as int) < 0,
        decreases n - i,
    {
        let t = &replay.transitions[i];
        assert(replay@.transitions[i as int] == t@);
        assert(t.token@ == token@ ==> t.token =~= *token);
        if t.kind.is_acquisition() && t.client_id == client_id && same_token(&t.token, token) {
            proof {
                first_under_stays(replay@.transitions, client_id, token@, i as int, n as int);
            }
            return Some(i);
        }
        i = i + 1;
    }
    None
}

proof fn first_under_stays(
    transitions: Seq<TransitionView>,
    client_id: i32,
    token: Seq<u8>,
    i: int,
    n: int,
)
    requires
        0 <= i < n <= transitions.len(),
        first_under(transitions, client_id, token, i) < 0,
        claims_under(transitions[i], client_id, token),
    ensures
        first_under(transitions, client_id, token, n) == i,
    decreases n,
{
    if n > i + 1 {
        first_under_stays(transitions, client_id, token, i, n - 1);
    }
}

fn first_retirement(entries: &[LogEntry], client_id: i32, token: &[u8; 16], n: usize) -> (r: Option<
    usize,
>)
    requires
        n <= entries@.len(),
    ensures
        match r {
            Some(i) => i < n && retired_at(entries@, client_id, token@, n as int) == i,
            None => retired_at(entries@, client_id, token@, n as int) < 0,
        },
{
    let mut i: usize = 0;
    while i < n
        invariant
            i <= n <= entries@.len(),
            retired_at(entries@, client_id, token@, i as int) < 0,
        decreases n - i,
    {
        let entry = &entries[i];
        assert(entry.record.token@ == token@ ==> entry.record.token =~= *token);
        if entry.record.superseded && entry.client_id == client_id && same_token(
            &entry.record.token,
            token,
        ) {
            proof {
                retired_at_stays(entries@, client_id, token@, i as int, n as int);
            }
            return Some(i);
        }
        i = i + 1;
    }
    None
}

proof fn retired_at_stays(entries: Seq<LogEntry>, client_id: i32, token: Seq<u8>, i: int, n: int)
    requires
        0 <= i < n <= entries.len(),
        retired_at(entries, client_id, token, i) < 0,
        retires(entries[i], client_id, token),
    ensures
        retired_at(entries, client_id, token, n) == i,
    decreases n,
{
    if n > i + 1 {
        retired_at_stays(entries, client_id, token, i, n - 1);
    }
}

fn check_attempt(violations: &mut Vec<Violation>, entries: &[LogEntry], i: usize)
    requires
        i < entries@.len(),
    ensures
        report::findings(final(violations)@) == report::findings(old(violations)@)
            + attempt_findings(entries@, i as int, entries@[i as int]),
{
    let entry = &entries[i];
    let record = &entry.record;
    if record.superseded {
        if record.leader_record_written {
            note(
                violations,
                Violation::at(
                    i,
                    "a superseded attempt wrote the leader record: a retirement is terminal, it is not a write".to_owned(),
                ),
            );
        }
        if record.recovery_noop {
            note(
                violations,
                Violation::at(
                    i,
                    "an attempt reports being both adopted and superseded: the two resolutions are exclusive".to_owned(),
                ),
            );
        }
        if record.outcome.is_applied() {
            note(
                violations,
                Violation::at(
                    i,
                    "a superseded attempt reports success: a retired attempt wins nothing".to_owned(),
                ),
            );
        }
    } else {
        if record.recovery_noop && record.leader_record_written {
            note(
                violations,
                Violation::at(
                    i,
                    "a recovered unknown commit wrote a second time instead of adopting its record".to_owned(),
                ),
            );
        }
        if record.recovery_noop && !record.outcome.is_applied() {
            note(
                violations,
                Violation::at(
                    i,
                    "a recovery no-op reports a rejection: recovery either adopts or is superseded".to_owned(),
                ),
            );
        }
        let holds = ((record.op == OpKind::Claim || record.op == OpKind::Steal)
            && record.outcome.is_applied()) || record.recovery_noop;
        if let Some(first) = first_retirement(entries, entry.client_id, &record.token, i) {
            if holds {
                note(
                    violations,
                    Violation::between(
                        first,
                        i,
                        "client ".to_owned().concat(
                            signed_text(entry.client_id as i64).as_str(),
                        ).concat(" campaigned again under a token retired at entry ").concat(
                            count_text(first).as_str(),
                        ).concat(
                            ": a superseded attempt is spent, and a fresh campaign owes a fresh token",
                        ),
                    ),
                );
            }
        }
    }
    assert(report::findings(violations@) =~= report::findings(old(violations)@) + attempt_findings(
        entries@,
        i as int,
        entries@[i as int],
    ));
}

/// One token accounts for at most one applied claim, and a spent token is spent.
pub fn uuid_recovery_no_dup(entries: &[LogEntry], replay: &Replay) -> (r: InvariantReport)
    ensures
        r.says("UuidRecoveryNoDup"@, recovery_findings(entries@, replay@)),
{
    let mut violations: Vec<Violation> = Vec::new();
    assert(report::findings(violations@) =~= Seq::<Finding>::empty());
    let mut i: usize = 0;
    while i < replay.transitions.len()
        invariant
            i <= replay.transitions@.len(),
            report::findings(violations@) == report::gathered(
                replay@.transitions,
                i as int,
                token_rule(replay@),
            ),
        decreases replay.transitions@.len() - i,
    {
        let t = &replay.transitions[i];
        let ghost before = report::findings(violations@);
        assert(replay@.transitions[i as int] == t@);
        if t.kind.is_acquisition() {
            if let Some(first) = first_claim_under(replay, t.client_id, &t.token, i) {
                assert(replay@.transitions[first as int] == replay.transitions@[first as int]@);
                note(
                    &mut violations,
                    Violation::between(
                        replay.transitions[first].index,
                        t.index,
                        "client ".to_owned().concat(signed_text(t.client_id as i64).as_str()).concat(
                            " claimed twice under one token (ballots ",
                        ).concat(number_text(replay.transitions[first].ballot).as_str()).concat(
                            " and ",
                        ).concat(number_text(t.ballot).as_str()).concat(")"),
                    ),
                );
            }
        }
        assert(report::findings(violations@) =~= before + token_rule(replay@)(i as int, t@));
        i = i + 1;
    }
    let ghost claims = report::findings(violations@);
    let mut k: usize = 0;
    assert(claims + report::gathered(entries@, 0, attempt_rule(entries@)) =~= claims);
    while k < entries.len()
        invariant
            k <= entries@.len(),
            report::findings(violations@) == claims + report::gathered(
                entries@,
                k as int,
                attempt_rule(entries@),
            ),
        decreases entries@.len() - k,
    {
        let ghost before = report::findings(violations@);
        check_attempt(&mut violations, entries, k);
        assert(report::findings(violations@) =~= claims + report::gathered(
            entries@,
            k as int + 1,
            attempt_rule(entries@),
        ));
        k = k + 1;
    }
    InvariantReport::new("UuidRecoveryNoDup", violations)
}

// ---------------------------------------------------------------------------
// Progress made
// ---------------------------------------------------------------------------

/// How many of the first `n` transitions acquired a term.
pub open spec fn acquisition_count(transitions: Seq<TransitionView>, n: int) -> nat
    decreases n,
{
    if n <= 0 {
        0
    } else {
        acquisition_count(transitions, n - 1) + if replay::acquires(transitions[n - 1].kind) {
            1nat
        } else {
            0nat
        }
    }
}

/// How many of the first `n` transitions renewed a term.
pub open spec fn renewal_count(transitions: Seq<TransitionView>, n: int) -> nat
    decreases n,
{
    if n <= 0 {
        0
    } else {
        renewal_count(transitions, n - 1) + if transitions[n - 1].kind is Renew {
            1nat
        } else {
            0nat
        }
    }
}

/// Whether a belief outlived its renewal deadline.
pub open spec fn outlived(belief: Belief, renew_interval: u64) -> bool {
    replay::floored_difference(replay::effective_end(belief), belief.begin_sim_nanos as int)
        > renew_interval
}

/// How many of the first `n` beliefs outlived their renewal deadline.
pub open spec fn opportunity_count(beliefs: Seq<Belief>, renew_interval: u64, n: int) -> nat
    decreases n,
{
    if n <= 0 {
        0
    } else {
        opportunity_count(beliefs, renew_interval, n - 1) + if outlived(
            beliefs[n - 1],
            renew_interval,
        ) {
            1nat
        } else {
            0nat
        }
    }
}

/// Whether an entry is a sighting of `identity`.
pub open spec fn sights(entry: LogEntry, identity: ObservedIdentity) -> bool {
    entry.record.op is Observe && entry.record.observed == Some(identity)
}

/// The distinct identities sighted in the first `n` entries.
pub open spec fn sighted(entries: Seq<LogEntry>, n: int) -> Set<ObservedIdentity>
    decreases n,
{
    if n <= 0 {
        Set::empty()
    } else {
        let record = entries[n - 1].record;
        if record.op is Observe && record.observed is Some {
            sighted(entries, n - 1).insert(record.observed->Some_0)
        } else {
            sighted(entries, n - 1)
        }
    }
}

/// What a run failed to achieve. Renewals are demanded only of a run in which
/// some belief outlived its renewal deadline.
pub open spec fn progress_findings(
    entries: Seq<LogEntry>,
    replayed: ReplayView,
    thresholds: ProgressThresholds,
) -> Seq<Finding> {
    let acquisitions = acquisition_count(replayed.transitions, replayed.transitions.len() as int);
    let renewals = renewal_count(replayed.transitions, replayed.transitions.len() as int);
    let renew_interval = duration::low_bits(thresholds.renew_interval@);
    let opportunities = opportunity_count(
        replayed.beliefs,
        renew_interval,
        replayed.beliefs.len() as int,
    );
    let identities = sighted(entries, entries.len() as int).len();
    report::when(
        acquisitions < thresholds.min_acquisitions,
        report::found_overall(
            text::nat_text(acquisitions) + " applied claims and steals, expected at least "@
                + text::nat_text(thresholds.min_acquisitions as nat),
        ),
    ) + report::when(
        opportunities > 0 && renewals < thresholds.min_renewals,
        report::found_overall(
            text::nat_text(renewals) + " applied renewals, expected at least "@ + text::nat_text(
                thresholds.min_renewals as nat,
            ) + ": "@ + text::nat_text(opportunities)
                + " belief interval(s) outlived their renewal deadline, "@ + text::nat_text(
                renew_interval as nat,
            ) + " ns after the belief began"@,
        ),
    ) + report::when(
        identities < thresholds.min_observed_identities,
        report::found_overall(
            "the watchers saw "@ + text::nat_text(identities)
                + " distinct leader identities, expected at least "@ + text::nat_text(
                thresholds.min_observed_identities as nat,
            ),
        ),
    )
}

fn count_acquisitions(replay: &Replay) -> (r: usize)
    ensures
        r == acquisition_count(replay@.transitions, replay.transitions@.len() as int),
        r <= replay.transitions@.len(),
{
    let mut r: usize = 0;
    let mut i: usize = 0;
    while i < replay.transitions.len()
        invariant
            i <= replay.transitions@.len(),
            r <= i,
            r == acquisition_count(replay@.transitions, i as int),
        decreases replay.transitions@.len() - i,
    {
        assert(replay@.transitions[i as int] == replay.transitions@[i as int]@);
        if replay.transitions[i].kind.is_acquisition() {
            r = r + 1;
        }
        i = i + 1;
    }
    r
}

fn count_renewals(replay: &Replay) -> (r: usize)
    ensures
        r == renewal_count(replay@.transitions, replay.transitions@.len() as int),
{
    let mut r: usize = 0;
    let mut i: usize = 0;
    while i < replay.transitions.len()
        invariant
            i <= replay.transitions@.len(),
            r <= i,
            r == renewal_count(replay@.transitions, i as int),
        decreases replay.transitions@.len() - i,
    {
        assert(replay@.transitions[i as int] == replay.transitions@[i as int]@);
        if replay.transitions[i].kind == TransitionKind::Renew {
            r = r + 1;
        }
        i = i + 1;
    }
    r
}

fn count_opportunities(beliefs: &Vec<Belief>, renew_interval: u64) -> (r: usize)
    ensures
        r == opportunity_count(beliefs@, renew_interval, beliefs@.len() as int),
{
    let mut r: usize = 0;
    let mut i: usize = 0;
    while i < beliefs.len()
        invariant
            i <= beliefs@.len(),
            r <= i,
            r == opportunity_count(beliefs@, renew_interval, i as int),
        decreases beliefs@.len() - i,
    {
        let belief = &beliefs[i];
        if belief.effective_end_sim_nanos().saturating_sub(belief.begin_sim_nanos)
            > renew_interval {
            r = r + 1;
        }
        i = i + 1;
    }
    r
}

fn count_identities(entries: &[LogEntry]) -> (r: usize)
    ensures
        r == sighted(entries@, entries@.len() as int).len(),
{
    let mut identities: Vec<ObservedIdentity> = Vec::new();
    assert(identities@.to_set() =~= sighted(entries@, 0));
    let mut i: usize = 0;
    while i < entries.len()
        invariant
            i <= entries@.len(),
            identities@.no_duplicates(),
            identities@.to_set() == sighted(entries@, i as int),
        decreases entries@.len() - i,
    {
        let record = &entries[i].record;
        if record.op == OpKind::Observe {
            if let Some(observed) = record.observed {
                let ghost before = identities@;
                if !is_listed(&identities, observed) {
                    identities.push(observed);
                    assert(identities@.to_set() =~= before.to_set().insert(observed)) by {
                        assert(identities@.last() == observed);
                        assert forall|x: ObservedIdentity| #[trigger]
                            before.to_set().insert(observed).contains(
                                x,
                            ) implies identities@.to_set().contains(x) by {
                            if before.contains(x) {
                                let k = choose|k: int| 0 <= k < before.len() && before[k] == x;
                                assert(identities@[k] == x);
                            }
                        }
                    }
                } else {
                    assert(before.to_set() =~= before.to_set().insert(observed));
                }
            }
        }
        i = i + 1;
    }
    proof {
        identities@.unique_seq_to_set();
    }
    identities.len()
}

fn is_listed(identities: &Vec<ObservedIdentity>, identity: ObservedIdentity) -> (r: bool)
    ensures
        r == identities@.contains(identity),
{
    let mut i: usize = 0;
    while i < identities.len()
        invariant
            i <= identities@.len(),
            forall|k: int| 0 <= k < i ==> identities@[k] != identity,
        decreases identities@.len() - i,
    {
        if identities[i] == identity {
            return true;
        }
        i = i + 1;
    }
    false
}

/// The run actually elected somebody.
pub fn progress_made(entries: &[LogEntry], replay: &Replay, thresholds: &ProgressThresholds) -> (r:
    InvariantReport)
    ensures
        r.says("ProgressMade"@, progress_findings(entries@, replay@, *thresholds)),
{
    let mut violations: Vec<Violation> = Vec::new();
    let acquisitions: usize = count_acquisitions(replay);
    if acquisitions < thresholds.min_acquisitions {
        note(
            &mut violations,
            Violation::global(
                count_text(acquisitions).concat(
                    " applied claims and steals, expected at least ",
                ).concat(count_text(thresholds.min_acquisitions).as_str()),
            ),
        );
    }
    let renewals: usize = count_renewals(replay);
    let renew_interval: u64 = nanos(thresholds.renew_interval);
    let opportunities: usize = count_opportunities(&replay.beliefs, renew_interval);
    if opportunities > 0 && renewals < thresholds.min_renewals {
        note(
            &mut violations,
            Violation::global(
                count_text(renewals).concat(" applied renewals, expected at least ").concat(
                    count_text(thresholds.min_renewals).as_str(),
                ).concat(": ").concat(count_text(opportunities).as_str()).concat(
                    " belief interval(s) outlived their renewal deadline, ",
                ).concat(number_text(renew_interval).as_str()).concat(
                    " ns after the belief began",
                ),
            ),
        );
    }
    let identities: usize = count_identities(entries);
    if identities < thresholds.min_observed_identities {
        note(
            &mut violations,
            Violation::global(
                "the watchers saw ".to_owned().concat(count_text(identities).as_str()).concat(
                    " distinct leader identities, expected at least ",
                ).concat(count_text(thresholds.min_observed_identities).as_str()),
            ),
        );
    }
    assert(report::findings(violations@) =~= progress_findings(entries@, replay@, *thresholds));
    InvariantReport::new("ProgressMade", violations)
}

/// A run whose beliefs all ended before their renewal came due owes no renewal.
pub proof fn renewals_are_owed_only_by_a_chance_to_renew(
    entries: Seq<LogEntry>,
    replayed: ReplayView,
    thresholds: ProgressThresholds,
)
    requires
        acquisition_count(replayed.transitions, replayed.transitions.len() as int)
            >= thresholds.min_acquisitions,
        sighted(entries, entries.len() as int).len() >= thresholds.min_observed_identities,
        forall|i: int|
            0 <= i < replayed.beliefs.len() ==> !outlived(
                #[trigger] replayed.beliefs[i],
                duration::low_bits(thresholds.renew_interval@),
            ),
    ensures
        progress_findings(entries, replayed, thresholds).len() == 0,
{
    no_opportunity(
        replayed.beliefs,
        duration::low_bits(thresholds.renew_interval@),
        replayed.beliefs.len() as int,
    );
}

proof fn no_opportunity(beliefs: Seq<Belief>, renew_interval: u64, n: int)
    requires
        0 <= n <= beliefs.len(),
        forall|i: int| 0 <= i < n ==> !outlived(#[trigger] beliefs[i], renew_interval),
    ensures
        opportunity_count(beliefs, renew_interval, n) == 0,
    decreases n,
{
    if n > 0 {
        no_opportunity(beliefs, renew_interval, n - 1);
    }
}

// ---------------------------------------------------------------------------
// History faithful
// ---------------------------------------------------------------------------

/// The transitions among the first `n` that the recipe records.
pub open spec fn recorded(transitions: Seq<TransitionView>, n: int) -> Seq<TransitionView>
    decreases n,
{
    if n <= 0 {
        Seq::empty()
    } else if recorded_as(transitions[n - 1].kind) is Some {
        recorded(transitions, n - 1).push(transitions[n - 1])
    } else {
        recorded(transitions, n - 1)
    }
}

/// What one history entry gets wrong about its transition.
pub open spec fn mismatch_findings(actual: HistoryView, t: TransitionView) -> Seq<Finding> {
    let kind = recorded_as(t.kind)->Some_0;
    report::when(
        actual.kind != kind || actual.ballot != t.ballot || actual.leader_id != t.leader_id,
        report::found_at(
            t.index,
            "the history records "@ + history_kind_text(actual.kind) + " at ballot "@
                + text::nat_text(actual.ballot as nat) + " by "@ + actual.leader_id
                + ", but the transition was "@ + history_kind_text(kind) + " at ballot "@
                + text::nat_text(t.ballot as nat) + " by "@ + t.leader_id,
        ),
    )
}

/// The rule that the trail is a suffix of what was recorded, which starts
/// `offset` transitions in.
pub open spec fn history_rule(expected: Seq<TransitionView>, offset: int) -> spec_fn(
    int,
    HistoryView,
) -> Seq<Finding> {
    |i: int, actual: HistoryView| mismatch_findings(actual, expected[offset + i])
}

/// Everything the history gets wrong: more entries than there were transitions,
/// or entries that differ from the last ones.
pub open spec fn history_findings(replayed: ReplayView, history: Seq<HistoryView>) -> Seq<Finding> {
    let expected = recorded(replayed.transitions, replayed.transitions.len() as int);
    if history.len() > expected.len() {
        seq![
            report::found_overall(
                "the history holds "@ + text::nat_text(history.len())
                    + " transitions but only "@ + text::nat_text(expected.len())
                    + " were applied"@,
            ),
        ]
    } else {
        report::gathered(
            history,
            history.len() as int,
            history_rule(expected, expected.len() - history.len()),
        )
    }
}

/// The positions of the transitions the recipe records.
fn recorded_positions(replay: &Replay) -> (r: Vec<usize>)
    ensures
        r@.len() == recorded(replay@.transitions, replay.transitions@.len() as int).len(),
        forall|k: int|
            0 <= k < r@.len() ==> (#[trigger] r@[k]) < replay.transitions@.len()
                && replay@.transitions[r@[k] as int] == recorded(
                replay@.transitions,
                replay.transitions@.len() as int,
            )[k] && recorded_as(replay@.transitions[r@[k] as int].kind) is Some,
{
    let mut r: Vec<usize> = Vec::new();
    let mut i: usize = 0;
    while i < replay.transitions.len()
        invariant
            i <= replay.transitions@.len(),
            r@.len() == recorded(replay@.transitions, i as int).len(),
            forall|k: int|
                0 <= k < r@.len() ==> (#[trigger] r@[k]) < i && replay@.transitions[r@[k] as int]
                    == recorded(replay@.transitions, i as int)[k] && recorded_as(
                    replay@.transitions[r@[k] as int].kind,
                ) is Some,
        decreases replay.transitions@.len() - i,
    {
        assert(replay@.transitions[i as int] == replay.transitions@[i as int]@);
        if HistoryKind::from_transition(replay.transitions[i].kind).is_some() {
            r.push(i);
        }
        i = i + 1;
    }
    r
}

/// The recipe's own audit trail agrees with what happened.
pub fn history_faithful(replay: &Replay, history: &[HistoryEntry]) -> (r: InvariantReport)
    ensures
        r.says("HistoryFaithful"@, history_findings(replay@, history_views(history@))),
{
    let mut violations: Vec<Violation> = Vec::new();
    assert(report::findings(violations@) =~= Seq::<Finding>::empty());
    let expected = recorded_positions(replay);
    let ghost wanted = recorded(replay@.transitions, replay.transitions@.len() as int);
    let ghost views = history_views(history@);
    if history.len() > expected.len() {
        note(
            &mut violations,
            Violation::global(
                "the history holds ".to_owned().concat(count_text(history.len()).as_str()).concat(
                    " transitions but only ",
                ).concat(count_text(expected.len()).as_str()).concat(" were applied"),
            ),
        );
        assert(report::findings(violations@) =~= history_findings(replay@, views));
        return InvariantReport::new("HistoryFaithful", violations);
    }
    let offset: usize = expected.len() - history.len();
    let mut i: usize = 0;
    while i < history.len()
        invariant
            i <= history@.len(),
            views == history_views(history@),
            wanted == recorded(replay@.transitions, replay.transitions@.len() as int),
            expected@.len() == wanted.len(),
            offset == expected@.len() - history@.len(),
            forall|k: int|
                0 <= k < expected@.len() ==> (#[trigger] expected@[k]) < replay.transitions@.len()
                    && replay@.transitions[expected@[k] as int] == wanted[k] && recorded_as(
                    replay@.transitions[expected@[k] as int].kind,
                ) is Some,
            report::findings(violations@) == report::gathered(
                views,
                i as int,
                history_rule(wanted, offset as int),
            ),
        decreases history@.len() - i,
    {
        let actual = &history[i];
        let ghost before = report::findings(violations@);
        assert(offset + i < expected.len());
        let position: usize = expected[offset + i];
        let t = &replay.transitions[position];
        assert(replay@.transitions[position as int] == t@);
        assert(views[i as int] == actual@);
        if let Some(kind) = HistoryKind::from_transition(t.kind) {
            let same = actual.kind == kind && actual.ballot == t.ballot && same_text(
                actual.leader_id.as_str(),
                t.leader_id.as_str(),
            );
            if !same {
                note(
                    &mut violations,
                    Violation::at(
                        t.index,
                        "the history records ".to_owned().concat(actual.kind.name()).concat(
                            " at ballot ",
                        ).concat(number_text(actual.ballot).as_str()).concat(" by ").concat(
                            actual.leader_id.as_str(),
                        ).concat(", but the transition was ").concat(kind.name()).concat(
                            " at ballot ",
                        ).concat(number_text(t.ballot).as_str()).concat(" by ").concat(
                            t.leader_id.as_str(),
                        ),
                    ),
                );
            }
        }
        assert(report::findings(violations@) =~= before + history_rule(wanted, offset as int)(
            i as int,
            views[i as int],
        ));
        i = i + 1;
    }
    InvariantReport::new("HistoryFaithful", violations)
}

/// The check passes exactly when the trail is a suffix of the recorded
/// transitions: retention may have trimmed the front, and nothing else differs.
pub proof fn history_passes_exactly_on_a_suffix(replayed: ReplayView, history: Seq<HistoryView>)
    ensures
        history_findings(replayed, history).len() == 0 <==> {
            let expected = recorded(replayed.transitions, replayed.transitions.len() as int);
            &&& history.len() <= expected.len()
            &&& forall|i: int|
                0 <= i < history.len() ==> #[trigger] history[i] == (HistoryView {
                    kind: recorded_as(expected[expected.len() - history.len() + i].kind)->Some_0,
                    ballot: expected[expected.len() - history.len() + i].ballot,
                    leader_id: expected[expected.len() - history.len() + i].leader_id,
                })
        },
{
    let expected = recorded(replayed.transitions, replayed.transitions.len() as int);
    if history.len() <= expected.len() {
        let offset = expected.len() - history.len();
        let rule = history_rule(expected, offset);
        report::nothing_gathered(history, history.len() as int, rule);
        assert forall|i: int| 0 <= i < history.len() implies ((#[trigger] rule(i, history[i])).len()
            == 0 <==> history[i] == (HistoryView {
            kind: recorded_as(expected[offset + i].kind)->Some_0,
            ballot: expected[offset + i].ballot,
            leader_id: expected[offset + i].leader_id,
        })) by {}
        if history_findings(replayed, history).len() == 0 {
            assert forall|i: int| 0 <= i < history.len() implies #[trigger] history[i] == (
            HistoryView {
                kind: recorded_as(expected[offset + i].kind)->Some_0,
                ballot: expected[offset + i].ballot,
                leader_id: expected[offset + i].leader_id,
            }) by {
                assert(rule(i, history[i]).len() == 0);
            }
        }
    }
}

// ---------------------------------------------------------------------------
// Recovery exercised
// ---------------------------------------------------------------------------

/// Whether a record is one of the two ways an unknown commit ends: its attempt
/// adopted its own record, or was retired.
pub open spec fn resolves(record: LogRecord) -> bool {
    record.recovery_noop || (record.superseded && (record.op is Claim || record.op is Steal))
}

/// Whether this record is one of the two ways an unknown commit ends.
pub fn is_resolution(record: &LogRecord) -> (r: bool)
    ensures
        r == resolves(*record),
{
    record.recovery_noop || (record.superseded && (record.op == OpKind::Claim || record.op
        == OpKind::Steal))
}

/// How many of the first `n` entries mark an injected unknown commit.
pub open spec fn marker_count(entries: Seq<LogEntry>, n: int) -> nat
    decreases n,
{
    if n <= 0 {
        0
    } else {
        marker_count(entries, n - 1) + if entries[n - 1].record.op is InjectedUnknown {
            1nat
        } else {
            0nat
        }
    }
}

/// How many of the first `n` entries resolve an unknown commit.
pub open spec fn resolution_count(entries: Seq<LogEntry>, n: int) -> nat
    decreases n,
{
    if n <= 0 {
        0
    } else {
        resolution_count(entries, n - 1) + if resolves(entries[n - 1].record) {
            1nat
        } else {
            0nat
        }
    }
}

/// What a run that drew forced recovery failed to show: any injection at all
/// though terms were won, or enough resolutions of what it injected.
pub open spec fn exercise_findings(
    entries: Seq<LogEntry>,
    replayed: ReplayView,
    thresholds: ProgressThresholds,
) -> Seq<Finding> {
    let markers = marker_count(entries, entries.len() as int);
    let resolutions = resolution_count(entries, entries.len() as int);
    let acquisitions = acquisition_count(replayed.transitions, replayed.transitions.len() as int);
    if thresholds.min_recoveries == 0 {
        Seq::empty()
    } else if markers == 0 {
        report::when(
            acquisitions > 0,
            report::found_overall(
                text::nat_text(acquisitions)
                    + " term(s) were won and not one reply was thrown away: this configuration drew forced recovery, so the injection is broken rather than unlucky"@,
            ),
        )
    } else {
        report::when(
            resolutions < thresholds.min_recoveries,
            report::found_overall(
                text::nat_text(markers) + " injected unknown commit(s) produced "@
                    + text::nat_text(resolutions) + " resolution(s), expected at least "@
                    + text::nat_text(thresholds.min_recoveries as nat)
                    + ": an unknown commit is resolved by adopting its own record or by retiring the attempt, and one that did neither was never re-probed"@,
            ),
        )
    }
}

fn count_markers(entries: &[LogEntry]) -> (r: usize)
    ensures
        r == marker_count(entries@, entries@.len() as int),
{
    let mut r: usize = 0;
    let mut i: usize = 0;
    while i < entries.len()
        invariant
            i <= entries@.len(),
            r <= i,
            r == marker_count(entries@, i as int),
        decreases entries@.len() - i,
    {
        if entries[i].record.op == OpKind::InjectedUnknown {
            r = r + 1;
        }
        i = i + 1;
    }
    r
}

/// How many entries resolve an unknown commit.
pub fn count_resolutions(entries: &[LogEntry]) -> (r: usize)
    ensures
        r == resolution_count(entries@, entries@.len() as int),
{
    let mut r: usize = 0;
    let mut i: usize = 0;
    while i < entries.len()
        invariant
            i <= entries@.len(),
            r <= i,
            r == resolution_count(entries@, i as int),
        decreases entries@.len() - i,
    {
        if is_resolution(&entries[i].record) {
            r = r + 1;
        }
        i = i + 1;
    }
    r
}

/// The unknown-commit path was actually taken, and every injection ended.
pub fn recovery_exercised(
    entries: &[LogEntry],
    replay: &Replay,
    thresholds: &ProgressThresholds,
) -> (r: InvariantReport)
    ensures
        r.says("RecoveryExercised"@, exercise_findings(entries@, replay@, *thresholds)),
{
    let mut violations: Vec<Violation> = Vec::new();
    if thresholds.min_recoveries > 0 {
        let markers: usize = count_markers(entries);
        let resolutions: usize = count_resolutions(entries);
        let acquisitions: usize = count_acquisitions(replay);
        if markers == 0 {
            if acquisitions > 0 {
                note(
                    &mut violations,
                    Violation::global(
                        count_text(acquisitions).concat(
                            " term(s) were won and not one reply was thrown away: this configuration drew forced recovery, so the injection is broken rather than unlucky",
                        ),
                    ),
                );
            }
        } else if resolutions < thresholds.min_recoveries {
            note(
                &mut violations,
                Violation::global(
                    count_text(markers).concat(" injected unknown commit(s) produced ").concat(
                        count_text(resolutions).as_str(),
                    ).concat(" resolution(s), expected at least ").concat(
                        count_text(thresholds.min_recoveries).as_str(),
                    ).concat(
                        ": an unknown commit is resolved by adopting its own record or by retiring the attempt, and one that did neither was never re-probed",
                    ),
                ),
            );
        }
    }
    assert(report::findings(violations@) =~= exercise_findings(entries@, replay@, *thresholds));
    InvariantReport::new("RecoveryExercised", violations)
}

// ---------------------------------------------------------------------------
// All of them
// ---------------------------------------------------------------------------

/// Everything a check phase needs to judge a run.
pub struct CheckInputs<'a> {
    /// The log, in commit order.
    pub entries: &'a [LogEntry],
    /// What replaying it produced.
    pub replay: &'a Replay,
    /// The leader record the database actually holds.
    pub snapshot: Option<&'a ExpectedRecord>,
    /// The recipe's own history subspace, oldest first.
    pub history: &'a [HistoryEntry],
    /// What the configuration's clock assumptions allow.
    pub tolerances: Tolerances,
    /// What the configuration expects the run to have achieved.
    pub thresholds: ProgressThresholds,
}

impl<'a> CheckInputs<'a> {
    /// Whether the replay is indexed like the log, and neither is too large to
    /// count what the checks find.
    pub open spec fn fit(self) -> bool {
        &&& self.replay.states_before@.len() == self.entries@.len()
        &&& self.replay.indexed()
        &&& self.replay.beliefs@.len() * self.replay.beliefs@.len() <= usize::MAX
        &&& 2 * self.replay.transitions@.len() <= usize::MAX
    }
}

/// Runs every invariant, in a fixed order.
pub fn check_all(inputs: &CheckInputs<'_>) -> (r: Vec<InvariantReport>)
    requires
        inputs.fit(),
    ensures
        r@.len() == 12,
        r@[0].says("DualPathReplay"@, dual_path_findings(inputs.replay@, view_of(inputs.snapshot))),
        r@[1].says("BallotSuccession"@, succession_findings(inputs.replay@)),
        r@[2].says("OneClaimPerBallot"@, one_claim_findings(inputs.replay@)),
        r@[3].says(
            "NoBeliefOverlap"@,
            report::capped(
                overlap_findings(
                    inputs.replay.beliefs@,
                    duration::low_bits(inputs.tolerances.belief_overlap@),
                ),
            ),
        ),
        r@[4].says(
            "StealObservationDiscipline"@,
            report::capped(
                discipline_findings(
                    inputs.entries@,
                    inputs.replay@,
                    duration::low_bits(inputs.tolerances.observation_slack@),
                ),
            ),
        ),
        r@[5].says("VacantReclaim"@, reclaim_findings(inputs.replay@)),
        r@[6].says("FencingHolds"@, fencing_findings(inputs.entries@, inputs.replay@)),
        r@[7].says("SleeperWasFenced"@, sleeper_findings(inputs.entries@)),
        r@[8].says("UuidRecoveryNoDup"@, recovery_findings(inputs.entries@, inputs.replay@)),
        r@[9].says(
            "ProgressMade"@,
            progress_findings(inputs.entries@, inputs.replay@, inputs.thresholds),
        ),
        r@[10].says(
            "HistoryFaithful"@,
            history_findings(inputs.replay@, history_views(inputs.history@)),
        ),
        r@[11].says(
            "RecoveryExercised"@,
            exercise_findings(inputs.entries@, inputs.replay@, inputs.thresholds),
        ),
{
    let mut r: Vec<InvariantReport> = Vec::new();
    r.push(dual_path_replay(inputs.replay, inputs.snapshot));
    r.push(ballot_succession(inputs.replay));
    r.push(one_claim_per_ballot(inputs.replay));
    r.push(no_belief_overlap(inputs.replay, &inputs.tolerances));
    r.push(steal_observation_discipline(inputs.entries, inputs.replay, &inputs.tolerances));
    r.push(vacant_reclaim(inputs.replay));
    r.push(fencing_holds(inputs.entries, inputs.replay));
    r.push(sleeper_was_fenced(inputs.entries));
    r.push(uuid_recovery_no_dup(inputs.entries, inputs.replay));
    r.push(progress_made(inputs.entries, inputs.replay, &inputs.thresholds));
    r.push(history_faithful(inputs.replay, inputs.history));
    r.push(recovery_exercised(inputs.entries, inputs.replay, &inputs.thresholds));
    r
}

// ---------------------------------------------------------------------------
// Laws across checks
// ---------------------------------------------------------------------------

/// Whether ballot succession finds nothing in a replayed log.
pub open spec fn succession_holds(entries: Seq<LogEntry>, ids: spec_fn(i32) -> Seq<char>) -> bool {
    succession_findings(replay::replay_of(entries, ids)).len() == 0
}

/// A log that keeps ballot succession moves the ballot by one at each
/// acquisition and never otherwise.
pub proof fn ballots_move_one_at_a_time(
    entries: Seq<LogEntry>,
    ids: spec_fn(i32) -> Seq<char>,
    i: int,
)
    requires
        entries.len() <= usize::MAX,
        succession_holds(entries, ids),
        0 <= i < entries.len(),
    ensures
        ballot_of(replay::state_after(entries, ids, i + 1)) == ballot_of(
            replay::state_after(entries, ids, i),
        ) + if replay::is_transition(entries[i]) && replay::acquires(
            replay::kind_of(entries[i].record.op)->Some_0,
        ) {
            1int
        } else {
            0
        },
{
    let replayed = replay::replay_of(entries, ids);
    let ts = replayed.transitions;
    if replay::is_transition(entries[i]) {
        replay::every_write_is_a_transition(entries, ids, entries.len() as int, i);
        let t = replay::transition_at(entries[i], i, ids(entries[i].client_id));
        let k = choose|k: int| 0 <= k < ts.len() && ts[k] == t;
        report::nothing_gathered(ts, ts.len() as int, succession_rule(replayed));
        assert(succession_rule(replayed)(k, ts[k]).len() == 0);
        assert(found_by(replayed, t) == replay::state_after(entries, ids, i));
    }
}

proof fn ballots_never_fall(
    entries: Seq<LogEntry>,
    ids: spec_fn(i32) -> Seq<char>,
    i: int,
    j: int,
)
    requires
        entries.len() <= usize::MAX,
        succession_holds(entries, ids),
        0 <= i <= j <= entries.len(),
    ensures
        ballot_of(replay::state_after(entries, ids, i)) <= ballot_of(
            replay::state_after(entries, ids, j),
        ),
    decreases j - i,
{
    if i < j {
        ballots_never_fall(entries, ids, i, j - 1);
        ballots_move_one_at_a_time(entries, ids, j - 1);
    }
}

/// Ballot succession implies one claim per ballot: where every step is the one
/// its kind allows, no ballot can be acquired twice.
pub proof fn succession_implies_one_claim_per_ballot(
    entries: Seq<LogEntry>,
    ids: spec_fn(i32) -> Seq<char>,
)
    requires
        entries.len() <= usize::MAX,
        succession_holds(entries, ids),
    ensures
        one_claim_findings(replay::replay_of(entries, ids)).len() == 0,
{
    let replayed = replay::replay_of(entries, ids);
    let ts = replayed.transitions;
    replay::transitions_are_in_commit_order(entries, ids, entries.len() as int);
    one_claim_passes_exactly_when_ballots_are_distinct(replayed);
    assert forall|j: int, k: int|
        0 <= j < k < ts.len() && replay::acquires((#[trigger] ts[j]).kind) && replay::acquires(
            (#[trigger] ts[k]).kind,
        ) implies ts[j].ballot != ts[k].ballot by {
        let a = ts[j].index as int;
        let b = ts[k].index as int;
        ballots_move_one_at_a_time(entries, ids, a);
        ballots_move_one_at_a_time(entries, ids, b);
        ballots_never_fall(entries, ids, a + 1, b);
    }
}

/// In a log that keeps ballot succession a claim is never decided on a stale
/// read: what a transition says it read is what its predecessor left.
pub proof fn succession_means_every_read_was_fresh(
    entries: Seq<LogEntry>,
    ids: spec_fn(i32) -> Seq<char>,
    i: int,
)
    requires
        entries.len() <= usize::MAX,
        succession_holds(entries, ids),
        0 <= i < entries.len(),
        replay::is_transition(entries[i]),
        entries[i].record.observed is Some,
    ensures
        shown(replay::state_after(entries, ids, i)) == entries[i].record.observed,
{
    let replayed = replay::replay_of(entries, ids);
    let ts = replayed.transitions;
    replay::every_write_is_a_transition(entries, ids, entries.len() as int, i);
    let t = replay::transition_at(entries[i], i, ids(entries[i].client_id));
    let k = choose|k: int| 0 <= k < ts.len() && ts[k] == t;
    report::nothing_gathered(ts, ts.len() as int, succession_rule(replayed));
    assert(succession_rule(replayed)(k, ts[k]).len() == 0);
    assert(found_by(replayed, t) == replay::state_after(entries, ids, i));
}

} // verus!
