//! What the leader-lease simulation concludes at the end of a run.

use crate::lease_oracle;
use crate::lease_oracle::CoverageReport;
use vstd::prelude::*;
use vstd::string::*;

verus! {

/// What a run whose log was accepted comes to.
#[derive(Debug, Clone, Copy, PartialEq, Eq, Structural)]
pub enum Conclusion {
    /// A path the completion phase drives was not taken: the run failed.
    ForcedWitnessMissing,
    /// A path that chance decides was not taken: the run says less than it could.
    CoverageIncomplete,
    /// Every path was taken.
    Passed,
}

impl Conclusion {
    /// The name of the event a conclusion is traced as.
    pub fn event(self) -> (r: &'static str)
        ensures
            r@ == (match self {
                Conclusion::ForcedWitnessMissing => "LeaderLeaseForcedWitnessMissing"@,
                Conclusion::CoverageIncomplete => "LeaderLeaseCoverageIncomplete"@,
                Conclusion::Passed => "LeaderLeaseCheckPassed"@,
            }),
    {
        match self {
            Conclusion::ForcedWitnessMissing => "LeaderLeaseForcedWitnessMissing",
            Conclusion::CoverageIncomplete => "LeaderLeaseCoverageIncomplete",
            Conclusion::Passed => "LeaderLeaseCheckPassed",
        }
    }
}

/// Whether the coordinated race that the log shows is the one the clients ran.
pub open spec fn race_agrees(coverage: CoverageReport, completed: bool, contenders: usize) -> bool {
    completed && coverage.saw_coordinated_race && coverage.coordinated_race_contenders
        == contenders
}

/// What a run comes to. A forced witness may be missing only where the completion
/// phase itself ran into errors; the coordinated race never may.
pub open spec fn conclusion(
    coverage: CoverageReport,
    completion_run_errors: u64,
    completed: bool,
    contenders: usize,
) -> Conclusion {
    if (coverage.forced_missing@.len() > 0 && completion_run_errors == 0) || !race_agrees(
        coverage,
        completed,
        contenders,
    ) {
        Conclusion::ForcedWitnessMissing
    } else if coverage.forced_missing@.len() > 0 || coverage.probabilistic_missing@.len() > 0 {
        Conclusion::CoverageIncomplete
    } else {
        Conclusion::Passed
    }
}

/// What a run comes to.
pub fn conclude(
    coverage: &CoverageReport,
    completion_run_errors: u64,
    coordinated_race_completed: bool,
    coordinated_race_contenders: usize,
) -> (r: Conclusion)
    ensures
        r == conclusion(
            *coverage,
            completion_run_errors,
            coordinated_race_completed,
            coordinated_race_contenders,
        ),
{
    if (coverage.forced_missing.len() > 0 && completion_run_errors == 0)
        || !coordinated_race_completed || !coverage.saw_coordinated_race
        || coverage.coordinated_race_contenders != coordinated_race_contenders {
        Conclusion::ForcedWitnessMissing
    } else if coverage.forced_missing.len() > 0 || coverage.probabilistic_missing.len() > 0
        || !coordinated_race_completed {
        Conclusion::CoverageIncomplete
    } else {
        Conclusion::Passed
    }
}

/// A run passes exactly where no witness is missing and the race the log shows is
/// the one the clients ran to the end.
pub proof fn a_pass_leaves_nothing_out(
    coverage: CoverageReport,
    w: lease_oracle::WitnessView,
    completion_run_errors: u64,
    completed: bool,
    contenders: usize,
)
    requires
        coverage.reports(w),
    ensures
        conclusion(coverage, completion_run_errors, completed, contenders) is Passed <==> (
        lease_oracle::forced_missing(w.seen).len() == 0 && lease_oracle::probabilistic_missing(
            w.seen,
        ).len() == 0 && completed && lease_oracle::race_ran(w.race) && w.race.contenders.len()
            == contenders),
{
    assert(lease_oracle::names(coverage.forced_missing@).len() == coverage.forced_missing@.len());
    assert(lease_oracle::names(coverage.probabilistic_missing@).len()
        == coverage.probabilistic_missing@.len());
}

/// The first `n` names, with commas between them.
pub open spec fn joined_text(names: Seq<Seq<char>>, n: int) -> Seq<char>
    decreases n,
{
    if n <= 0 {
        Seq::empty()
    } else if n == 1 {
        names[0]
    } else {
        joined_text(names, n - 1) + ", "@ + names[n - 1]
    }
}

/// Names, with commas between them.
pub fn joined(list: &[&'static str]) -> (r: String)
    ensures
        r@ == joined_text(lease_oracle::names(list@), list@.len() as int),
{
    let ghost names = lease_oracle::names(list@);
    proof {
        reveal_strlit("");
    }
    let mut r = "".to_owned();
    assert(r@ =~= Seq::<char>::empty());
    let mut i: usize = 0;
    while i < list.len()
        invariant
            i <= list@.len(),
            names == lease_oracle::names(list@),
            r@ == joined_text(names, i as int),
        decreases list@.len() - i,
    {
        let name: &'static str = list[i];
        assert(names[i as int] == name@);
        r = if i == 0 {
            name.to_owned()
        } else {
            r.concat(", ").concat(name)
        };
        i = i + 1;
    }
    r
}

} // verus!
