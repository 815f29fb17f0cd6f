//! What checking an invariant produces: violations, collected and reported.

use crate::text;
use crate::text::count_text;
use vstd::prelude::*;
use vstd::string::*;

verus! {

/// One way a run broke an invariant.
#[derive(Debug, Clone, PartialEq, Eq)]
pub struct Violation {
    /// Indices of the offending log entries, in commit order.
    pub indices: Vec<usize>,
    /// What went wrong, in terms a reader of the trace can act on.
    pub detail: String,
}

/// What a [`Violation`] says.
#[verifier::ext_equal]
pub struct Finding {
    pub indices: Seq<usize>,
    pub detail: Seq<char>,
}

impl View for Violation {
    type V = Finding;

    open spec fn view(&self) -> Finding {
        Finding { indices: self.indices@, detail: self.detail@ }
    }
}

/// What a list of violations says.
pub open spec fn findings(violations: Seq<Violation>) -> Seq<Finding> {
    Seq::new(violations.len(), |i: int| violations[i]@)
}

/// A finding about one entry.
pub open spec fn found_at(index: usize, detail: Seq<char>) -> Finding {
    Finding { indices: seq![index], detail }
}

/// A finding about two entries.
pub open spec fn found_between(first: usize, second: usize, detail: Seq<char>) -> Finding {
    Finding { indices: seq![first, second], detail }
}

/// A finding about the run as a whole.
pub open spec fn found_overall(detail: Seq<char>) -> Finding {
    Finding { indices: Seq::empty(), detail }
}

/// One finding where `broken` holds, none otherwise.
pub open spec fn when(broken: bool, finding: Finding) -> Seq<Finding> {
    if broken {
        seq![finding]
    } else {
        Seq::empty()
    }
}

/// The findings of the first `n` items, item by item.
pub open spec fn gathered<A>(
    items: Seq<A>,
    n: int,
    rule: spec_fn(int, A) -> Seq<Finding>,
) -> Seq<Finding>
    decreases n,
{
    if n <= 0 {
        Seq::empty()
    } else {
        gathered(items, n - 1, rule) + rule(n - 1, items[n - 1])
    }
}

/// A rule finds nothing in a list exactly when it finds nothing in each item.
pub proof fn nothing_gathered<A>(items: Seq<A>, n: int, rule: spec_fn(int, A) -> Seq<Finding>)
    requires
        0 <= n <= items.len(),
    ensures
        gathered(items, n, rule).len() == 0 <==> forall|i: int|
            0 <= i < n ==> (#[trigger] rule(i, items[i])).len() == 0,
    decreases n,
{
    if n > 0 {
        nothing_gathered(items, n - 1, rule);
        assert(gathered(items, n, rule).len() == gathered(items, n - 1, rule).len() + rule(
            n - 1,
            items[n - 1],
        ).len());
    }
}

impl Violation {
    /// A violation by one entry.
    pub fn at(index: usize, detail: String) -> (r: Violation)
        ensures
            r@ == found_at(index, detail@),
    {
        let indices = vec![index];
        assert(indices@ =~= seq![index]);
        Violation { indices, detail }
    }

    /// A violation by several entries.
    pub fn spanning(indices: Vec<usize>, detail: String) -> (r: Violation)
        ensures
            r@ == (Finding { indices: indices@, detail: detail@ }),
    {
        Violation { indices, detail }
    }

    /// A violation by two entries.
    pub fn between(first: usize, second: usize, detail: String) -> (r: Violation)
        ensures
            r@ == found_between(first, second, detail@),
    {
        let indices = vec![first, second];
        assert(indices@ =~= seq![first, second]);
        Violation::spanning(indices, detail)
    }

    /// A violation by the run as a whole.
    pub fn global(detail: String) -> (r: Violation)
        ensures
            r@ == found_overall(detail@),
    {
        Violation { indices: Vec::new(), detail }
    }
}

/// Adds one violation to a list.
pub fn note(violations: &mut Vec<Violation>, violation: Violation)
    ensures
        findings(final(violations)@) == findings(old(violations)@).push(violation@),
{
    violations.push(violation);
    assert(findings(violations@) =~= findings(old(violations)@).push(violation@));
}

/// What checking one invariant produced.
#[derive(Debug, Clone, PartialEq, Eq)]
pub struct InvariantReport {
    /// The invariant's name, as it appears in the simulation trace.
    pub name: &'static str,
    /// Everything that broke it; empty means it held.
    pub violations: Vec<Violation>,
}

impl InvariantReport {
    /// Whether this is the report `name` makes of these findings.
    pub open spec fn says(self, name: Seq<char>, found: Seq<Finding>) -> bool {
        self.name@ == name && findings(self.violations@) == found
    }

    /// A report of everything given.
    pub fn new(name: &'static str, violations: Vec<Violation>) -> (r: InvariantReport)
        ensures
            r.says(name@, findings(violations@)),
    {
        InvariantReport { name, violations }
    }

    /// Whether the invariant held.
    pub fn passed(&self) -> (r: bool)
        ensures
            r == (self.violations@.len() == 0),
    {
        self.violations.len() == 0
    }
}

/// How many violations of one invariant are kept.
pub const MAX_VIOLATIONS_KEPT: usize = 64;

/// How many log indices one violation may name.
pub const MAX_INDICES_KEPT: usize = 64;

/// How many of `found` are kept.
pub open spec fn kept_count(found: nat) -> int {
    if found > MAX_VIOLATIONS_KEPT {
        MAX_VIOLATIONS_KEPT as int
    } else {
        found as int
    }
}

/// What a bounded report says of everything found: all of it, or the first
/// [`MAX_VIOLATIONS_KEPT`] and a count of the rest.
pub open spec fn capped(found: Seq<Finding>) -> Seq<Finding> {
    if found.len() <= MAX_VIOLATIONS_KEPT {
        found
    } else {
        found.take(MAX_VIOLATIONS_KEPT as int).push(
            found_overall(
                "and "@ + text::nat_text((found.len() - MAX_VIOLATIONS_KEPT) as nat)
                    + " further violation(s), not spelled out: "@ + text::nat_text(found.len())
                    + " were found in total"@,
            ),
        )
    }
}

/// Bounding a report changes no judgement: it is empty exactly when nothing was
/// found, and it never holds more than one entry beyond the bound.
pub proof fn capping_keeps_the_judgement(found: Seq<Finding>)
    ensures
        capped(found).len() == 0 <==> found.len() == 0,
        capped(found).len() <= MAX_VIOLATIONS_KEPT + 1,
{
}

/// A bounded collector for the checks that can produce a violation per pair.
#[derive(Debug)]
pub struct Violations {
    kept: Vec<Violation>,
    total: usize,
}

impl Violations {
    /// Whether exactly these findings have been pushed.
    pub closed spec fn holds(self, found: Seq<Finding>) -> bool {
        &&& self.total == found.len()
        &&& findings(self.kept@) == found.take(kept_count(found.len()))
    }

    /// How many findings have been pushed.
    pub closed spec fn pushed(self) -> nat {
        self.total as nat
    }

    /// A collector of nothing.
    pub fn new() -> (r: Violations)
        ensures
            r.holds(Seq::empty()),
            r.pushed() == 0,
    {
        let r = Violations { kept: Vec::new(), total: 0 };
        assert(findings(r.kept@) =~= Seq::<Finding>::empty().take(0));
        r
    }

    /// Adds a violation.
    pub fn push(&mut self, violation: Violation)
        requires
            old(self).pushed() < usize::MAX,
        ensures
            final(self).pushed() == old(self).pushed() + 1,
            forall|found: Seq<Finding>| #[trigger]
                old(self).holds(found) ==> final(self).holds(found.push(violation@)),
    {
        self.total = self.total + 1;
        if self.kept.len() < MAX_VIOLATIONS_KEPT {
            note(&mut self.kept, violation);
        }
        proof {
            assert forall|found: Seq<Finding>| #[trigger] old(self).holds(found) implies self.holds(
                found.push(violation@),
            ) by {
                let more = found.push(violation@);
                assert(findings(old(self).kept@).len() == old(self).kept@.len());
                if found.len() < MAX_VIOLATIONS_KEPT {
                    assert(found.take(kept_count(found.len())) =~= found);
                    assert(more.take(kept_count(more.len())) =~= more);
                } else {
                    assert(more.take(MAX_VIOLATIONS_KEPT as int) =~= found.take(
                        MAX_VIOLATIONS_KEPT as int,
                    ));
                }
            }
        }
    }

    /// Adds every violation of a list, in order.
    pub fn push_all(&mut self, violations: Vec<Violation>)
        requires
            old(self).pushed() + violations@.len() <= usize::MAX,
        ensures
            final(self).pushed() == old(self).pushed() + violations@.len(),
            forall|found: Seq<Finding>| #[trigger]
                old(self).holds(found) ==> final(self).holds(found + findings(violations@)),
    {
        let ghost all = violations@;
        let ghost start = *self;
        proof {
            assert forall|found: Seq<Finding>| #[trigger] start.holds(found) implies self.holds(
                found + findings(all.take(0)),
            ) by {
                assert(found + findings(all.take(0)) =~= found);
            }
        }
        for violation in iter: violations
            invariant
                iter.seq() == all,
                start.pushed() + all.len() <= usize::MAX,
                self.pushed() == start.pushed() + iter.index(),
                forall|found: Seq<Finding>| #[trigger]
                    start.holds(found) ==> self.holds(found + findings(all.take(iter.index()))),
        {
            let ghost so_far = findings(all.take(iter.index()));
            let ghost before = *self;
            let ghost found_now = violation@;
            self.push(violation);
            proof {
                assert forall|found: Seq<Finding>| #[trigger] start.holds(found) implies self.holds(
                    found + findings(all.take(iter.index() + 1)),
                ) by {
                    assert(before.holds(found + so_far));
                    assert((found + so_far).push(found_now) =~= found + findings(
                        all.take(iter.index() + 1),
                    ));
                }
            }
        }
        assert(all.take(all.len() as int) =~= all);
    }

    /// The indices of one violation, bounded the same way.
    pub fn indices(indices: Vec<usize>) -> (r: Vec<usize>)
        ensures
            r@ == bounded(indices@),
    {
        let mut indices = indices;
        if indices.len() > MAX_INDICES_KEPT {
            indices.truncate(MAX_INDICES_KEPT);
        }
        indices
    }

    /// The report of everything pushed.
    pub fn into_report(self, name: &'static str) -> (r: InvariantReport)
        ensures
            r.name@ == name@,
            forall|found: Seq<Finding>| #[trigger]
                self.holds(found) ==> r.says(name@, capped(found)),
    {
        let mut kept = self.kept;
        let total: usize = self.total;
        let dropped: usize = total.saturating_sub(kept.len());
        let ghost before = findings(kept@);
        if dropped > 0 {
            note(
                &mut kept,
                Violation::global(
                    "and ".to_owned().concat(count_text(dropped).as_str()).concat(
                        " further violation(s), not spelled out: ",
                    ).concat(count_text(total).as_str()).concat(" were found in total"),
                ),
            );
        }
        proof {
            assert forall|found: Seq<Finding>| #[trigger] self.holds(found) implies findings(kept@)
                == capped(found) by {
                assert(before.len() == self.kept@.len());
                if found.len() <= MAX_VIOLATIONS_KEPT {
                    assert(found.take(kept_count(found.len())) =~= found);
                }
            }
        }
        InvariantReport::new(name, kept)
    }
}

/// The first [`MAX_INDICES_KEPT`] of a list of indices.
pub open spec fn bounded(indices: Seq<usize>) -> Seq<usize> {
    if indices.len() > MAX_INDICES_KEPT {
        indices.take(MAX_INDICES_KEPT as int)
    } else {
        indices
    }
}

} // verus!
