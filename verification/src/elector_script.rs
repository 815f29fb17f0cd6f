//! The script of a client that runs the recipe's own elector.
//!
//! It has two halves. [`ElectorScript::step`] campaigns for one term after another;
//! [`ElectorScript::work`] is what is done under a term. Neither touches the database
//! or a clock: each is told what came of its last action and answers with the next.

use crate::duration::Duration;
use crate::elector_role;
use crate::elector_role::{
    after_lead, closes_belief, count_acquisition, count_error, count_work, gave_up_early,
    lost_belief, should_log_extension, work_window, BeliefBookkeeping, ElectorCounters,
    LeadOutcome,
};
use crate::liveness;
use crate::liveness::{next_tick, LivenessGuard};
use crate::roles;
use crate::roles::Work;
use vstd::prelude::*;

verus! {

// ---------------------------------------------------------------------------
// What goes in and out
// ---------------------------------------------------------------------------

/// What a client does between terms.
#[derive(Debug, Clone, Copy)]
pub enum ElectorAction {
    /// Campaign, and serve the term that comes of it.
    Lead {
        /// How long to try for.
        within: Duration,
    },
    /// Log that a belief is over.
    EndBelief {
        /// Its term.
        ballot: u64,
    },
    /// Stop.
    Finish,
}

/// What came of an [`ElectorAction`].
#[derive(Debug, Clone, Copy)]
pub enum ElectorEvent {
    /// The campaign, and the term that came of it, is over.
    Led(LeadOutcome),
    /// The time to try ran out.
    TimedOut {
        /// Whether waiting failed.
        delay_failed: bool,
    },
    /// It was done.
    Elapsed,
    /// It failed.
    Failed,
}

/// What a client does under a term.
#[derive(Debug, Clone, Copy)]
pub enum WorkAction {
    /// Log a belief.
    BeginBelief {
        /// Its term.
        ballot: u64,
        /// Until when.
        horizon: Duration,
    },
    /// Install the term's fence.
    InstallFence,
    /// Write to the register at the term's next rank.
    FencedWrite {
        /// How long the write may take.
        within: Duration,
    },
    /// Wait.
    Wait {
        /// How long.
        span: Duration,
    },
    /// Log that the belief is over.
    EndBelief {
        /// Its term.
        ballot: u64,
    },
    /// Leave the term to the recipe.
    Leave,
}

/// What came of a [`WorkAction`].
#[derive(Debug, Clone, Copy)]
pub enum WorkEvent {
    /// It was done.
    Elapsed,
    /// A fenced write came back.
    Worked(Work),
    /// The term has no rank left to give.
    NoRank,
    /// Waiting failed.
    DelayFailed,
    /// It failed.
    Failed,
}

/// What a [`ElectorAction`] says.
pub enum ElectorActionView {
    Lead { within: nat },
    EndBelief { ballot: u64 },
    Finish,
}

/// What a [`WorkAction`] says.
pub enum WorkActionView {
    BeginBelief { ballot: u64, horizon: nat },
    InstallFence,
    FencedWrite { within: nat },
    Wait { span: nat },
    EndBelief { ballot: u64 },
    Leave,
}

impl View for ElectorAction {
    type V = ElectorActionView;

    open spec fn view(&self) -> ElectorActionView {
        match *self {
            ElectorAction::Lead { within } => ElectorActionView::Lead { within: within@ },
            ElectorAction::EndBelief { ballot } => ElectorActionView::EndBelief { ballot },
            ElectorAction::Finish => ElectorActionView::Finish,
        }
    }
}

impl View for WorkAction {
    type V = WorkActionView;

    open spec fn view(&self) -> WorkActionView {
        match *self {
            WorkAction::BeginBelief { ballot, horizon } => WorkActionView::BeginBelief {
                ballot,
                horizon: horizon@,
            },
            WorkAction::InstallFence => WorkActionView::InstallFence,
            WorkAction::FencedWrite { within } => WorkActionView::FencedWrite { within: within@ },
            WorkAction::Wait { span } => WorkActionView::Wait { span: span@ },
            WorkAction::EndBelief { ballot } => WorkActionView::EndBelief { ballot },
            WorkAction::Leave => WorkActionView::Leave,
        }
    }
}

/// What a step has to tell whoever reads the trace.
#[derive(Debug, Clone, Copy, PartialEq, Eq, Structural)]
pub enum ElectorNote {
    /// The campaigns go round without the clock moving.
    TermsStalled,
    /// The work goes round without the clock moving.
    WorkStalled,
    /// The elector failed.
    LeadFailed,
    /// A belief could not be logged.
    BeliefFailed,
    /// A fence could not be installed.
    FenceFailed,
    /// A fenced write failed.
    WriteFailed,
    /// Waiting failed.
    DelayFailed,
    /// The client gave up before the run was over.
    GaveUpEarly {
        /// Whether waiting failed.
        delay_failed: bool,
    },
    /// The client gave up at the end of the run.
    GaveUp,
}

/// Where a client is between terms.
#[derive(Debug, Clone, Copy, PartialEq, Eq, Structural)]
pub enum ElectorPlace {
    Leading,
    Closing,
    Done,
}

/// Where a client is under a term.
#[derive(Debug, Clone, Copy, PartialEq, Eq, Structural)]
pub enum WorkPlace {
    Beginning { first: bool },
    Installing,
    Writing,
    Pacing,
    Ending,
    Left,
}

/// A client's script.
#[derive(Debug, Clone, Copy)]
pub struct ElectorScript {
    /// When the run ends.
    pub deadline: Duration,
    /// How long it waits between writes.
    pub step: Duration,
    /// What it has counted.
    pub counters: ElectorCounters,
    /// What it has logged of the belief in its term.
    pub book: BeliefBookkeeping,
    /// Watches the campaigns.
    pub terms: LivenessGuard,
    /// Where it is between terms.
    pub place: ElectorPlace,
    /// Watches the work.
    pub works: LivenessGuard,
    /// When the next write is due.
    pub cursor: Duration,
    /// The horizon it is logging.
    pub horizon: Duration,
    /// Where it is under a term.
    pub work_place: WorkPlace,
    /// What its last step had to tell.
    pub note: Option<ElectorNote>,
}

/// What a guard has seen last, and how often in a row.
pub struct GuardView {
    pub last: Option<nat>,
    pub stalls: u32,
}

/// What a guard says.
pub open spec fn guard_view(guard: LivenessGuard) -> GuardView {
    GuardView {
        last: match guard.last() {
            Some(last) => Some(last@),
            None => None,
        },
        stalls: guard.stalls(),
    }
}

/// What a [`ElectorScript`] says.
pub struct ElectorView {
    pub deadline: nat,
    pub step: nat,
    pub counters: ElectorCounters,
    pub book: BeliefBookkeeping,
    pub terms: GuardView,
    pub place: ElectorPlace,
    pub works: GuardView,
    pub cursor: nat,
    pub horizon: Duration,
    pub work_place: WorkPlace,
    pub note: Option<ElectorNote>,
}

impl View for ElectorScript {
    type V = ElectorView;

    open spec fn view(&self) -> ElectorView {
        ElectorView {
            deadline: self.deadline@,
            step: self.step@,
            counters: self.counters,
            book: self.book,
            terms: guard_view(self.terms),
            place: self.place,
            works: guard_view(self.works),
            cursor: self.cursor@,
            horizon: self.horizon,
            work_place: self.work_place,
            note: self.note,
        }
    }
}

/// A client after a step between terms, and what it does next.
pub struct ElectorTurn {
    pub script: ElectorView,
    pub action: ElectorActionView,
}

/// A client after a step under a term, and what it does next.
pub struct WorkTurn {
    pub script: ElectorView,
    pub action: WorkActionView,
}

// ---------------------------------------------------------------------------
// Between terms
// ---------------------------------------------------------------------------

/// A guard once another iteration has begun.
pub open spec fn ticked(guard: GuardView, now: nat) -> GuardView {
    GuardView {
        last: Some(now),
        stalls: if guard.last == Some(now) {
            (guard.stalls + 1) as u32
        } else {
            0
        },
    }
}

/// A guard that has seen nothing.
pub open spec fn unseen() -> GuardView {
    GuardView { last: None, stalls: 0 }
}

/// A client that counts an error and tells of it.
pub open spec fn erring(v: ElectorView, note: ElectorNote) -> ElectorView {
    ElectorView {
        counters: ElectorCounters { errors: roles::one_more(v.counters.errors), ..v.counters },
        note: Some(note),
        ..v
    }
}

/// A client that is done.
pub open spec fn finishing(v: ElectorView) -> ElectorTurn {
    ElectorTurn {
        script: ElectorView { place: ElectorPlace::Done, ..v },
        action: ElectorActionView::Finish,
    }
}

/// A client at the top of its loop: it campaigns for as long as the run lasts and the
/// clock moves.
pub open spec fn campaigning(v: ElectorView, sim: nat) -> ElectorTurn {
    if sim >= v.deadline {
        finishing(v)
    } else {
        let seen = ElectorView { terms: ticked(v.terms, sim), ..v };
        if seen.terms.stalls >= LivenessGuard::STALL_LIMIT {
            finishing(erring(seen, ElectorNote::TermsStalled))
        } else {
            ElectorTurn {
                script: ElectorView {
                    book: elector_role::blank_book(),
                    place: ElectorPlace::Leading,
                    ..seen
                },
                action: ElectorActionView::Lead { within: (v.deadline - sim) as nat },
            }
        }
    }
}

/// A campaign, and the term that came of it, is over. A term that was lost has its
/// belief closed, where that can still be written down.
pub open spec fn led(v: ElectorView, outcome: LeadOutcome, sim: nat, local: nat) -> ElectorTurn {
    match outcome {
        LeadOutcome::Completed { released } => campaigning(
            ElectorView {
                counters: if released {
                    ElectorCounters { resigns: roles::one_more(v.counters.resigns), ..v.counters }
                } else {
                    v.counters
                },
                ..v
            },
            sim,
        ),
        LeadOutcome::LeaseLost => {
            let lost = ElectorView {
                counters: ElectorCounters {
                    lease_losses: roles::one_more(v.counters.lease_losses),
                    ..v.counters
                },
                ..v
            };
            match elector_role::belief_to_close(v.book, local) {
                Some(ballot) => ElectorTurn {
                    script: ElectorView { place: ElectorPlace::Closing, ..lost },
                    action: ElectorActionView::EndBelief { ballot },
                },
                None => campaigning(lost, sim),
            }
        },
        LeadOutcome::Failed => finishing(erring(v, ElectorNote::LeadFailed)),
    }
}

/// The time to try ran out: that is in order only at the end of the run.
pub open spec fn timed_out(v: ElectorView, delay_failed: bool, sim: nat) -> ElectorTurn {
    finishing(
        if delay_failed || sim < v.deadline {
            erring(v, ElectorNote::GaveUpEarly { delay_failed })
        } else {
            ElectorView { note: Some(ElectorNote::GaveUp), ..v }
        },
    )
}

/// What a client does between terms, given what came of its last action. An answer of
/// the wrong kind counts as a failure of the action.
pub open spec fn stepped(before: ElectorView, event: ElectorEvent, sim: nat, local: nat) -> ElectorTurn {
    let v = ElectorView { note: None, ..before };
    match (v.place, event) {
        (ElectorPlace::Leading, ElectorEvent::Led(outcome)) => led(v, outcome, sim, local),
        (ElectorPlace::Leading, ElectorEvent::TimedOut { delay_failed }) => timed_out(
            v,
            delay_failed,
            sim,
        ),
        (ElectorPlace::Leading, _) => led(v, LeadOutcome::Failed, sim, local),
        (ElectorPlace::Closing, ElectorEvent::Elapsed) => campaigning(
            ElectorView { book: BeliefBookkeeping { ended: true, ..v.book }, ..v },
            sim,
        ),
        (ElectorPlace::Closing, _) => campaigning(erring(v, ElectorNote::BeliefFailed), sim),
        (ElectorPlace::Done, _) => finishing(v),
    }
}

// ---------------------------------------------------------------------------
// Under a term
// ---------------------------------------------------------------------------

/// A client under a term that has come to a place and does something there.
pub open spec fn doing(v: ElectorView, work_place: WorkPlace, action: WorkActionView) -> WorkTurn {
    WorkTurn { script: ElectorView { work_place, ..v }, action }
}

/// A client leaves its term: it closes the belief that still stands, where that can
/// still be written down.
pub open spec fn leaving(v: ElectorView, stands: bool, until: nat, local: nat) -> WorkTurn {
    if stands && local < until {
        doing(v, WorkPlace::Ending, WorkActionView::EndBelief { ballot: v.book.ballot })
    } else {
        doing(v, WorkPlace::Left, WorkActionView::Leave)
    }
}

/// The belief is logged, and so far as it has moved out since. Now the client works
/// for as long as it lasts.
pub open spec fn writing(v: ElectorView, stands: bool, until: nat, local: nat) -> WorkTurn {
    if local < until {
        doing(
            v,
            WorkPlace::Writing,
            WorkActionView::FencedWrite { within: (until - local) as nat },
        )
    } else {
        leaving(v, stands, until, local)
    }
}

/// The belief comes before anything that is done under it: its horizon is logged where
/// it has moved out, first before the fence and then before every write.
pub open spec fn extending(v: ElectorView, first: bool, stands: bool, until: Duration, local: nat) -> WorkTurn {
    if (v.book.logged_horizon matches Some(logged) ==> until@ > logged@) {
        doing(
            ElectorView { horizon: until, ..v },
            WorkPlace::Beginning { first },
            WorkActionView::BeginBelief { ballot: v.book.ballot, horizon: until@ },
        )
    } else if first {
        doing(v, WorkPlace::Installing, WorkActionView::InstallFence)
    } else {
        writing(v, stands, until@, local)
    }
}

/// A client at the top of its work: it goes on for as long as the run lasts, the clock
/// moves and the term stands.
pub open spec fn working(v: ElectorView, stands: bool, until: Duration, sim: nat, local: nat) -> WorkTurn {
    if sim >= v.deadline {
        leaving(v, stands, until@, local)
    } else {
        let seen = ElectorView { works: ticked(v.works, sim), ..v };
        if seen.works.stalls >= LivenessGuard::STALL_LIMIT {
            leaving(erring(seen, ElectorNote::WorkStalled), stands, until@, local)
        } else if !stands {
            leaving(seen, stands, until@, local)
        } else {
            extending(seen, false, stands, until, local)
        }
    }
}

/// A write is done: the client waits for the next one.
pub open spec fn pacing(v: ElectorView, stands: bool, until: Duration, sim: nat, local: nat) -> WorkTurn {
    let cursor = liveness::next_cursor(v.cursor, v.step);
    let moved = ElectorView { cursor, ..v };
    let wait = liveness::wait_until(cursor, local);
    if wait == 0 {
        working(moved, stands, until, sim, local)
    } else {
        doing(moved, WorkPlace::Pacing, WorkActionView::Wait { span: wait })
    }
}

/// A client that has won a term logs its belief.
pub open spec fn entering(v: ElectorView, ballot: u64, stands: bool, until: Duration, local: nat) -> WorkTurn {
    extending(
        ElectorView {
            book: BeliefBookkeeping { ballot, ..v.book },
            counters: ElectorCounters {
                acquisitions: roles::one_more(v.counters.acquisitions),
                ..v.counters
            },
            note: None,
            ..v
        },
        true,
        stands,
        until,
        local,
    )
}

/// What a client does under a term, given what came of its last action, whether the
/// term stands and until when it may be believed.
pub open spec fn worked(
    before: ElectorView,
    event: WorkEvent,
    stands: bool,
    until: Duration,
    sim: nat,
    local: nat,
) -> WorkTurn {
    let v = ElectorView { note: None, ..before };
    match (v.work_place, event) {
        (WorkPlace::Beginning { first }, WorkEvent::Elapsed) => {
            let logged = ElectorView {
                book: BeliefBookkeeping { logged_horizon: Some(v.horizon), ..v.book },
                ..v
            };
            if first {
                doing(logged, WorkPlace::Installing, WorkActionView::InstallFence)
            } else {
                writing(logged, stands, until@, local)
            }
        },
        (WorkPlace::Beginning { .. }, _) => leaving(
            erring(v, ElectorNote::BeliefFailed),
            stands,
            until@,
            local,
        ),
        (WorkPlace::Installing, WorkEvent::Elapsed) => working(
            ElectorView { works: unseen(), cursor: local, ..v },
            stands,
            until,
            sim,
            local,
        ),
        (WorkPlace::Installing, WorkEvent::NoRank) => leaving(v, stands, until@, local),
        (WorkPlace::Installing, _) => leaving(
            erring(v, ElectorNote::FenceFailed),
            stands,
            until@,
            local,
        ),
        (WorkPlace::Writing, WorkEvent::Worked(work)) => pacing(
            ElectorView { counters: elector_role::with_work(v.counters, work), ..v },
            stands,
            until,
            sim,
            local,
        ),
        (WorkPlace::Writing, WorkEvent::NoRank) => leaving(v, stands, until@, local),
        (WorkPlace::Writing, WorkEvent::DelayFailed) => leaving(
            erring(v, ElectorNote::DelayFailed),
            stands,
            until@,
            local,
        ),
        (WorkPlace::Writing, _) => leaving(
            erring(v, ElectorNote::WriteFailed),
            stands,
            until@,
            local,
        ),
        (WorkPlace::Pacing, WorkEvent::Elapsed) => working(v, stands, until, sim, local),
        (WorkPlace::Pacing, _) => leaving(
            erring(v, ElectorNote::DelayFailed),
            stands,
            until@,
            local,
        ),
        (WorkPlace::Ending, WorkEvent::Elapsed) => doing(
            ElectorView { book: BeliefBookkeeping { ended: true, ..v.book }, ..v },
            WorkPlace::Left,
            WorkActionView::Leave,
        ),
        (WorkPlace::Ending, _) => doing(
            erring(v, ElectorNote::BeliefFailed),
            WorkPlace::Left,
            WorkActionView::Leave,
        ),
        (WorkPlace::Left, _) => doing(v, WorkPlace::Left, WorkActionView::Leave),
    }
}

/// Whether the script can take another step: neither guard has run out of numbers.
pub open spec fn in_hand(v: ElectorView) -> bool {
    v.terms.stalls < u32::MAX && v.works.stalls < u32::MAX
}

// ---------------------------------------------------------------------------
// Running the script
// ---------------------------------------------------------------------------

impl ElectorScript {
    /// Whether the script can take another step.
    pub fn can_step(&self) -> (r: bool)
        ensures
            r == in_hand(self@),
    {
        self.terms.stalled_for() < u32::MAX && self.works.stalled_for() < u32::MAX
    }

    fn err(&mut self, note: ElectorNote)
        ensures
            final(self)@ == erring(old(self)@, note),
    {
        self.counters = count_error(self.counters);
        self.note = Some(note);
    }

    fn finish(&mut self) -> (r: ElectorAction)
        ensures
            (ElectorTurn { script: final(self)@, action: r@ }) == finishing(old(self)@),
    {
        self.place = ElectorPlace::Done;
        ElectorAction::Finish
    }

    fn campaign(&mut self, sim: Duration) -> (r: ElectorAction)
        requires
            in_hand(old(self)@),
        ensures
            (ElectorTurn { script: final(self)@, action: r@ }) == campaigning(old(self)@, sim@),
    {
        if !sim.shorter_than(&self.deadline) {
            return self.finish();
        }
        if !self.terms.tick(sim) {
            self.err(ElectorNote::TermsStalled);
            return self.finish();
        }
        self.book = BeliefBookkeeping::default();
        self.place = ElectorPlace::Leading;
        ElectorAction::Lead { within: self.deadline.saturating_sub(sim) }
    }

    fn after_term(&mut self, outcome: LeadOutcome, sim: Duration, local: Duration) -> (r:
        ElectorAction)
        requires
            in_hand(old(self)@),
        ensures
            (ElectorTurn { script: final(self)@, action: r@ }) == led(
                old(self)@,
                outcome,
                sim@,
                local@,
            ),
    {
        let (counters, again) = after_lead(self.counters, outcome);
        self.counters = counters;
        if !again {
            self.note = Some(ElectorNote::LeadFailed);
            return self.finish();
        }
        let closing = match outcome {
            LeadOutcome::LeaseLost => lost_belief(&self.book, local),
            _ => None,
        };
        match closing {
            Some(ballot) => {
                self.place = ElectorPlace::Closing;
                ElectorAction::EndBelief { ballot }
            },
            None => self.campaign(sim),
        }
    }

    fn give_up(&mut self, delay_failed: bool, sim: Duration) -> (r: ElectorAction)
        ensures
            (ElectorTurn { script: final(self)@, action: r@ }) == timed_out(
                old(self)@,
                delay_failed,
                sim@,
            ),
    {
        if gave_up_early(delay_failed, sim, self.deadline) {
            self.err(ElectorNote::GaveUpEarly { delay_failed });
        } else {
            self.note = Some(ElectorNote::GaveUp);
        }
        self.finish()
    }

    /// A client at the start of a run, and what it does first.
    pub fn begin(deadline: Duration, step: Duration, sim: Duration) -> (r: (
        ElectorScript,
        ElectorAction,
    ))
        ensures
            (ElectorTurn { script: r.0@, action: r.1@ }) == campaigning(
                fresh(deadline@, step@, r.0.horizon),
                sim@,
            ),
            r.0.horizon@ == 0,
    {
        let mut script = ElectorScript {
            deadline,
            step,
            counters: ElectorCounters::default(),
            book: BeliefBookkeeping::default(),
            terms: LivenessGuard::new(),
            place: ElectorPlace::Leading,
            works: LivenessGuard::new(),
            cursor: Duration::zero(),
            horizon: Duration::zero(),
            work_place: WorkPlace::Left,
            note: None,
        };
        let action = script.campaign(sim);
        (script, action)
    }

    /// Tells the client what came of its last action between terms, and what time it
    /// is by the simulator's clock and by its own; it answers with what it does next.
    pub fn step(&mut self, event: ElectorEvent, sim: Duration, local: Duration) -> (r: ElectorAction)
        requires
            in_hand(old(self)@),
        ensures
            (ElectorTurn { script: final(self)@, action: r@ }) == stepped(
                old(self)@,
                event,
                sim@,
                local@,
            ),
    {
        self.note = None;
        match (self.place, event) {
            (ElectorPlace::Leading, ElectorEvent::Led(outcome)) => self.after_term(
                outcome,
                sim,
                local,
            ),
            (ElectorPlace::Leading, ElectorEvent::TimedOut { delay_failed }) => self.give_up(
                delay_failed,
                sim,
            ),
            (ElectorPlace::Leading, _) => self.after_term(LeadOutcome::Failed, sim, local),
            (ElectorPlace::Closing, ElectorEvent::Elapsed) => {
                self.book.ended = true;
                self.campaign(sim)
            },
            (ElectorPlace::Closing, _) => {
                self.err(ElectorNote::BeliefFailed);
                self.campaign(sim)
            },
            (ElectorPlace::Done, _) => self.finish(),
        }
    }

    fn go(&mut self, work_place: WorkPlace, action: WorkAction) -> (r: WorkAction)
        ensures
            (WorkTurn { script: final(self)@, action: r@ }) == doing(
                old(self)@,
                work_place,
                action@,
            ),
    {
        self.work_place = work_place;
        action
    }

    fn leave(&mut self, stands: bool, until: Duration, local: Duration) -> (r: WorkAction)
        ensures
            (WorkTurn { script: final(self)@, action: r@ }) == leaving(
                old(self)@,
                stands,
                until@,
                local@,
            ),
    {
        if closes_belief(stands, local, until) {
            let ballot: u64 = self.book.ballot;
            self.go(WorkPlace::Ending, WorkAction::EndBelief { ballot })
        } else {
            self.go(WorkPlace::Left, WorkAction::Leave)
        }
    }

    fn leave_for(&mut self, note: ElectorNote, stands: bool, until: Duration, local: Duration) -> (r:
        WorkAction)
        ensures
            (WorkTurn { script: final(self)@, action: r@ }) == leaving(
                erring(old(self)@, note),
                stands,
                until@,
                local@,
            ),
    {
        self.err(note);
        self.leave(stands, until, local)
    }

    fn write(&mut self, stands: bool, until: Duration, local: Duration) -> (r: WorkAction)
        ensures
            (WorkTurn { script: final(self)@, action: r@ }) == writing(
                old(self)@,
                stands,
                until@,
                local@,
            ),
    {
        match work_window(until, local) {
            Some(within) => self.go(WorkPlace::Writing, WorkAction::FencedWrite { within }),
            None => self.leave(stands, until, local),
        }
    }

    fn extend(&mut self, first: bool, stands: bool, until: Duration, local: Duration) -> (r:
        WorkAction)
        ensures
            (WorkTurn { script: final(self)@, action: r@ }) == extending(
                old(self)@,
                first,
                stands,
                until,
                local@,
            ),
    {
        if should_log_extension(self.book.logged_horizon, until) {
            self.horizon = until;
            let ballot: u64 = self.book.ballot;
            self.go(
                WorkPlace::Beginning { first },
                WorkAction::BeginBelief { ballot, horizon: until },
            )
        } else if first {
            self.go(WorkPlace::Installing, WorkAction::InstallFence)
        } else {
            self.write(stands, until, local)
        }
    }

    fn keep_working(&mut self, stands: bool, until: Duration, sim: Duration, local: Duration) -> (r:
        WorkAction)
        requires
            in_hand(old(self)@),
        ensures
            (WorkTurn { script: final(self)@, action: r@ }) == working(
                old(self)@,
                stands,
                until,
                sim@,
                local@,
            ),
    {
        if !sim.shorter_than(&self.deadline) {
            return self.leave(stands, until, local);
        }
        if !self.works.tick(sim) {
            return self.leave_for(ElectorNote::WorkStalled, stands, until, local);
        }
        if !stands {
            self.leave(stands, until, local)
        } else {
            self.extend(false, stands, until, local)
        }
    }

    fn pace(&mut self, stands: bool, until: Duration, sim: Duration, local: Duration) -> (r:
        WorkAction)
        requires
            in_hand(old(self)@),
        ensures
            (WorkTurn { script: final(self)@, action: r@ }) == pacing(
                old(self)@,
                stands,
                until,
                sim@,
                local@,
            ),
    {
        let (cursor, wait) = next_tick(self.cursor, self.step, local);
        self.cursor = cursor;
        if wait.is_zero() {
            self.keep_working(stands, until, sim, local)
        } else {
            self.go(WorkPlace::Pacing, WorkAction::Wait { span: wait })
        }
    }

    /// A client that has won a term, and what it does first under it.
    pub fn enter(&mut self, ballot: u64, stands: bool, until: Duration, local: Duration) -> (r:
        WorkAction)
        ensures
            (WorkTurn { script: final(self)@, action: r@ }) == entering(
                old(self)@,
                ballot,
                stands,
                until,
                local@,
            ),
    {
        self.note = None;
        self.book.ballot = ballot;
        self.counters = count_acquisition(self.counters);
        self.extend(true, stands, until, local)
    }

    /// Tells the client what came of its last action under its term, whether the term
    /// stands, until when it may be believed, and what time it is by the simulator's
    /// clock and by its own; it answers with what it does next.
    pub fn work(
        &mut self,
        event: WorkEvent,
        stands: bool,
        until: Duration,
        sim: Duration,
        local: Duration,
    ) -> (r: WorkAction)
        requires
            in_hand(old(self)@),
        ensures
            (WorkTurn { script: final(self)@, action: r@ }) == worked(
                old(self)@,
                event,
                stands,
                until,
                sim@,
                local@,
            ),
    {
        self.note = None;
        match (self.work_place, event) {
            (WorkPlace::Beginning { first }, WorkEvent::Elapsed) => {
                self.book.logged_horizon = Some(self.horizon);
                if first {
                    self.go(WorkPlace::Installing, WorkAction::InstallFence)
                } else {
                    self.write(stands, until, local)
                }
            },
            (WorkPlace::Beginning { .. }, _) => self.leave_for(
                ElectorNote::BeliefFailed,
                stands,
                until,
                local,
            ),
            (WorkPlace::Installing, WorkEvent::Elapsed) => {
                self.works = LivenessGuard::new();
                self.cursor = local;
                self.keep_working(stands, until, sim, local)
            },
            (WorkPlace::Installing, WorkEvent::NoRank) => self.leave(stands, until, local),
            (WorkPlace::Installing, _) => self.leave_for(
                ElectorNote::FenceFailed,
                stands,
                until,
                local,
            ),
            (WorkPlace::Writing, WorkEvent::Worked(work)) => {
                self.counters = count_work(self.counters, work);
                self.pace(stands, until, sim, local)
            },
            (WorkPlace::Writing, WorkEvent::NoRank) => self.leave(stands, until, local),
            (WorkPlace::Writing, WorkEvent::DelayFailed) => self.leave_for(
                ElectorNote::DelayFailed,
                stands,
                until,
                local,
            ),
            (WorkPlace::Writing, _) => self.leave_for(
                ElectorNote::WriteFailed,
                stands,
                until,
                local,
            ),
            (WorkPlace::Pacing, WorkEvent::Elapsed) => self.keep_working(stands, until, sim, local),
            (WorkPlace::Pacing, _) => self.leave_for(
                ElectorNote::DelayFailed,
                stands,
                until,
                local,
            ),
            (WorkPlace::Ending, WorkEvent::Elapsed) => {
                self.book.ended = true;
                self.go(WorkPlace::Left, WorkAction::Leave)
            },
            (WorkPlace::Ending, _) => {
                self.err(ElectorNote::BeliefFailed);
                self.go(WorkPlace::Left, WorkAction::Leave)
            },
            (WorkPlace::Left, _) => self.go(WorkPlace::Left, WorkAction::Leave),
        }
    }
}

/// A client before its first campaign.
pub open spec fn fresh(deadline: nat, step: nat, horizon: Duration) -> ElectorView {
    ElectorView {
        deadline,
        step,
        counters: elector_role::nothing_counted(),
        book: elector_role::blank_book(),
        terms: unseen(),
        place: ElectorPlace::Leading,
        works: unseen(),
        cursor: 0,
        horizon,
        work_place: WorkPlace::Left,
        note: None,
    }
}

// ---------------------------------------------------------------------------
// What holds of every step
// ---------------------------------------------------------------------------

/// A client works only while it may be believed to lead, and gives the work no more
/// time than that.
pub proof fn work_ends_with_the_belief(
    v: ElectorView,
    event: WorkEvent,
    stands: bool,
    until: Duration,
    sim: nat,
    local: nat,
)
    ensures
        worked(v, event, stands, until, sim, local).action matches WorkActionView::FencedWrite {
            within,
        } ==> local + within == until@ && within > 0,
{
}

/// The end of a belief is written down only while the belief lasts: under a term while
/// the term stands, and after one that was lost once and only if it began.
pub proof fn a_belief_is_closed_while_it_lasts(
    v: ElectorView,
    event: WorkEvent,
    after: ElectorEvent,
    stands: bool,
    until: Duration,
    sim: nat,
    local: nat,
)
    ensures
        worked(v, event, stands, until, sim, local).action is EndBelief ==> stands && local
            < until@,
        stepped(v, after, sim, local).action is EndBelief ==> !v.book.ended && (
        v.book.logged_horizon matches Some(horizon) && local < horizon@),
{
}

/// Nobody campaigns once the run is over, and nobody campaigns past its end.
pub proof fn campaigns_end_with_the_run(v: ElectorView, event: ElectorEvent, sim: nat, local: nat)
    ensures
        stepped(v, event, sim, local).action matches ElectorActionView::Lead { within } ==> sim
            + within == v.deadline && within > 0,
{
}

/// The fence is installed only under a belief that was written down.
pub proof fn a_fence_follows_a_belief(
    v: ElectorView,
    event: WorkEvent,
    stands: bool,
    until: Duration,
    sim: nat,
    local: nat,
)
    ensures
        worked(v, event, stands, until, sim, local).action is InstallFence ==> worked(
            v,
            event,
            stands,
            until,
            sim,
            local,
        ).script.book.logged_horizon is Some,
{
}

} // verus!
