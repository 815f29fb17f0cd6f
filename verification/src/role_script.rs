//! The script a client of the election follows for the length of a run.
//!
//! The script touches neither the database nor a clock. [`RoleScript::step`] is told
//! what came of the last action and what time it is, and answers with the next
//! action; whoever runs it performs that action and comes back.

use crate::duration::Duration;
use crate::lease_oracle;
use crate::roles;
use crate::roles::{
    after_renewal, after_resign, begin_campaign, begin_work, count_fenced, count_one, drops_reply,
    duty, has_successor, judge_claim, may_drop_replies, may_log_end, pace_until, resume_spread,
    sights, stop_at_horizon, take_up, Campaign, ClaimReply, Counters, Duty, RenewalReply, Role,
    Term, Timing, Verdict, Work,
};
use vstd::prelude::*;

verus! {

// ---------------------------------------------------------------------------
// What goes in and out
// ---------------------------------------------------------------------------

/// What a run lets its clients do.
#[derive(Debug, Clone, Copy, PartialEq, Eq, Structural)]
pub struct RoleConfig {
    /// The spans everything is measured in.
    pub timing: Timing,
    /// How long everybody but the sleeper holds back at the start.
    pub head_start: Duration,
    /// Whether replies to claims are thrown away.
    pub forced_recovery: bool,
    /// The longest a thrown-away reply stays unresolved.
    pub longest_wait: Duration,
    /// How much of the run must be left for a reply to be thrown away.
    pub longest_recovery: Duration,
}

/// Something that happens by chance.
#[derive(Debug, Clone, Copy, PartialEq, Eq, Structural)]
pub enum Fault {
    /// The leader stops responding.
    Crash,
    /// The leader hands its term back.
    Resign,
    /// The reply to a claim is thrown away.
    DropReply,
}

/// What a client does next.
#[derive(Debug, Clone, Copy)]
pub enum RoleAction {
    /// Claim, with a fresh attempt or the one whose reply was thrown away.
    Claim {
        /// Whether the attempt is the earlier one.
        resumed: bool,
        /// The attempt's number.
        attempt_id: u64,
    },
    /// Log that the reply to the claim was thrown away.
    LogUnknown {
        /// The attempt's number.
        attempt_id: u64,
        /// The term it won.
        ballot: u64,
    },
    /// Log that the client believes it leads.
    BeginBelief {
        /// The term.
        ballot: u64,
        /// Until when.
        horizon: Duration,
    },
    /// Log that the client no longer believes it leads.
    EndBelief,
    /// Renew the term.
    Renew,
    /// Hand the term back.
    Resign,
    /// Write to the register under the term.
    FencedWrite {
        /// The term.
        ballot: u64,
        /// The place of the write in its term.
        sequence: u32,
        /// How long the write may take.
        within: Option<Duration>,
    },
    /// Read and log the leader record.
    Sight,
    /// Read who wrote to the register last.
    ReadRegister,
    /// Read and log the leader record, and watch it.
    Watch,
    /// Wait for the record to change, but not for long.
    AwaitChange,
    /// Let chance decide.
    Roll {
        /// On what.
        fault: Fault,
    },
    /// Draw a span about as long as a step.
    Jitter,
    /// Draw a span of a step and a part of a spread.
    DrawDelay {
        /// The spread.
        spread: Duration,
    },
    /// Wait.
    Wait {
        /// How long.
        span: Duration,
    },
    /// Be unresponsive for longer than the lease.
    Outlast,
    /// Pause across the lease.
    Pause,
    /// Log that the paused client has been succeeded.
    LogWoke {
        /// Its term.
        ballot: u64,
    },
    /// Stop.
    Finish,
}

/// What a [`RoleAction`] says.
pub enum RoleActionView {
    Claim { resumed: bool, attempt_id: u64 },
    LogUnknown { attempt_id: u64, ballot: u64 },
    BeginBelief { ballot: u64, horizon: nat },
    EndBelief,
    Renew,
    Resign,
    FencedWrite { ballot: u64, sequence: u32, within: Option<nat> },
    Sight,
    ReadRegister,
    Watch,
    AwaitChange,
    Roll { fault: Fault },
    Jitter,
    DrawDelay { spread: nat },
    Wait { span: nat },
    Outlast,
    Pause,
    LogWoke { ballot: u64 },
    Finish,
}

/// What an optional span says.
pub open spec fn span_of(span: Option<Duration>) -> Option<nat> {
    match span {
        Some(span) => Some(span@),
        None => None,
    }
}

impl View for RoleAction {
    type V = RoleActionView;

    open spec fn view(&self) -> RoleActionView {
        match *self {
            RoleAction::Claim { resumed, attempt_id } => RoleActionView::Claim {
                resumed,
                attempt_id,
            },
            RoleAction::LogUnknown { attempt_id, ballot } => RoleActionView::LogUnknown {
                attempt_id,
                ballot,
            },
            RoleAction::BeginBelief { ballot, horizon } => RoleActionView::BeginBelief {
                ballot,
                horizon: horizon@,
            },
            RoleAction::EndBelief => RoleActionView::EndBelief,
            RoleAction::Renew => RoleActionView::Renew,
            RoleAction::Resign => RoleActionView::Resign,
            RoleAction::FencedWrite { ballot, sequence, within } => RoleActionView::FencedWrite {
                ballot,
                sequence,
                within: span_of(within),
            },
            RoleAction::Sight => RoleActionView::Sight,
            RoleAction::ReadRegister => RoleActionView::ReadRegister,
            RoleAction::Watch => RoleActionView::Watch,
            RoleAction::AwaitChange => RoleActionView::AwaitChange,
            RoleAction::Roll { fault } => RoleActionView::Roll { fault },
            RoleAction::Jitter => RoleActionView::Jitter,
            RoleAction::DrawDelay { spread } => RoleActionView::DrawDelay { spread: spread@ },
            RoleAction::Wait { span } => RoleActionView::Wait { span: span@ },
            RoleAction::Outlast => RoleActionView::Outlast,
            RoleAction::Pause => RoleActionView::Pause,
            RoleAction::LogWoke { ballot } => RoleActionView::LogWoke { ballot },
            RoleAction::Finish => RoleActionView::Finish,
        }
    }
}

/// What came of an action.
#[derive(Debug, Clone, Copy)]
pub enum RoleEvent {
    /// Nothing beyond that it was done.
    Elapsed,
    /// A claim came back.
    Claimed(ClaimReply),
    /// A renewal came back.
    Renewed(RenewalReply),
    /// A resignation handed the term back, or not.
    Resigned(bool),
    /// A fenced write came back.
    Worked(Work),
    /// The term of the leader record, if there is one.
    Sighted(Option<u64>),
    /// The term of the last writer, if there is one.
    Wrote(Option<u64>),
    /// Whether the record is watched.
    Armed(bool),
    /// What chance decided.
    Rolled(bool),
    /// The span that was drawn.
    Drawn(Duration),
    /// The action failed.
    Failed,
}

/// What a step has to tell whoever reads the trace.
#[derive(Debug, Clone, Copy, PartialEq, Eq, Structural)]
pub enum RoleNote {
    /// A claim came back after the lease it asked for had run out.
    ClaimOutlived {
        /// The term it won.
        ballot: u64,
    },
    /// A claim was superseded.
    Superseded,
    /// A reply was thrown away.
    ReplyDropped {
        /// The term it won.
        ballot: u64,
    },
    /// A leader stops responding.
    SoftCrash {
        /// Its term.
        ballot: u64,
    },
    /// The sleeper never won a term.
    SleeperNeverLed,
    /// The sleeper pauses.
    SleeperPausing {
        /// Its term.
        ballot: u64,
    },
    /// Nobody took the sleeper's place.
    SleeperBarrierUnmet {
        /// Its term.
        ballot: u64,
    },
    /// The sleeper tried its stale term.
    SleeperWokeUp {
        /// Its term.
        ballot: u64,
        /// Whether the stale write committed.
        committed: bool,
        /// Whether the stale renewal applied.
        renewed: bool,
    },
    /// An action failed, and the client stops.
    Failed,
}

/// Where a client is in its script: what it is waiting for.
#[derive(Debug, Clone, Copy, PartialEq, Eq, Structural)]
pub enum RolePlace {
    HoldingBack,
    Claiming,
    RollingDrop,
    DrawingDelay,
    LoggingUnknown,
    Believing,
    Renewing,
    BelievingOn,
    EndingLost,
    RollingCrash,
    Outlasting,
    RollingResign,
    EndingTerm { last: bool },
    Resigning { last: bool },
    Fencing,
    Sighting,
    DrawingPace,
    Pacing,
    SleepDrawing,
    SleepPacing,
    Pausing,
    SuccessorSighting,
    SuccessorReading,
    SuccessorDrawing,
    SuccessorPacing,
    LoggingWoke,
    StaleWriting,
    StaleRenewing,
    Arming,
    Watching,
    WatchDrawing,
    WatchPacing,
    Done,
}

/// A client's script: what it has done, what it holds, and where it is.
#[derive(Debug, Clone, Copy)]
pub struct RoleScript {
    /// Its role.
    pub role: Role,
    /// What the run lets it do.
    pub config: RoleConfig,
    /// When the run started.
    pub start: Duration,
    /// When the run ends.
    pub deadline: Duration,
    /// What it has counted.
    pub counters: Counters,
    /// The number of its last fresh attempt.
    pub attempt_id: u64,
    /// Whether the claim under way resumes an earlier attempt.
    pub resumed: bool,
    /// When a thrown-away reply is resolved.
    pub resume_at: Option<Duration>,
    /// Whether it has thrown a reply away.
    pub injected_once: bool,
    /// How many steps it has contended for.
    pub steps: u64,
    /// The term it holds.
    pub term: Option<Term>,
    /// The term its last claim won.
    pub ballot: u64,
    /// The anchor of that term.
    pub acquired_at: Duration,
    /// How long the reply it throws away stays unresolved.
    pub delay: Duration,
    /// The term it last sighted.
    pub sighted: Option<u64>,
    /// What came of its stale write.
    pub stale: Work,
    /// Whether it campaigns as a sleeper.
    pub asleep: bool,
    /// Where it is.
    pub place: RolePlace,
    /// What its last step had to tell.
    pub note: Option<RoleNote>,
}

/// What a [`Term`] says.
pub struct TermView {
    pub ballot: u64,
    pub horizon: nat,
    pub renew_due: nat,
    pub sequence: u32,
}

/// What a [`RoleScript`] says.
pub struct RoleView {
    pub role: Role,
    pub config: RoleConfig,
    pub start: nat,
    pub deadline: nat,
    pub counters: Counters,
    pub attempt_id: u64,
    pub resumed: bool,
    pub resume_at: Option<nat>,
    pub injected_once: bool,
    pub steps: u64,
    pub term: Option<TermView>,
    pub ballot: u64,
    pub acquired_at: nat,
    pub delay: nat,
    pub sighted: Option<u64>,
    pub stale: Work,
    pub asleep: bool,
    pub place: RolePlace,
    pub note: Option<RoleNote>,
}

/// What a term says.
pub open spec fn term_view(term: Term) -> TermView {
    TermView {
        ballot: term.ballot,
        horizon: term.horizon@,
        renew_due: term.renew_due@,
        sequence: term.sequence,
    }
}

/// What an optional term says.
pub open spec fn held_view(term: Option<Term>) -> Option<TermView> {
    match term {
        Some(term) => Some(term_view(term)),
        None => None,
    }
}

impl View for RoleScript {
    type V = RoleView;

    open spec fn view(&self) -> RoleView {
        RoleView {
            role: self.role,
            config: self.config,
            start: self.start@,
            deadline: self.deadline@,
            counters: self.counters,
            attempt_id: self.attempt_id,
            resumed: self.resumed,
            resume_at: span_of(self.resume_at),
            injected_once: self.injected_once,
            steps: self.steps,
            term: held_view(self.term),
            ballot: self.ballot,
            acquired_at: self.acquired_at@,
            delay: self.delay@,
            sighted: self.sighted,
            stale: self.stale,
            asleep: self.asleep,
            place: self.place,
            note: self.note,
        }
    }
}

/// A client after a step, and what it does next.
pub struct RoleTurn {
    pub script: RoleView,
    pub action: RoleActionView,
}

// ---------------------------------------------------------------------------
// The script
// ---------------------------------------------------------------------------

/// A client that has come to a place and does something there.
pub open spec fn doing(v: RoleView, place: RolePlace, action: RoleActionView) -> RoleTurn {
    RoleTurn { script: RoleView { place, ..v }, action }
}

/// A client that is done.
pub open spec fn finishing(v: RoleView) -> RoleTurn {
    doing(v, RolePlace::Done, RoleActionView::Finish)
}

/// A client whose action failed stops.
pub open spec fn failing(v: RoleView) -> RoleTurn {
    finishing(
        RoleView {
            counters: Counters { errors: roles::one_more(v.counters.errors), ..v.counters },
            note: Some(RoleNote::Failed),
            ..v
        },
    )
}

/// A client with something to tell.
pub open spec fn telling(v: RoleView, note: RoleNote) -> RoleView {
    RoleView { note: Some(note), ..v }
}

/// A client that holds no term.
pub open spec fn bare(v: RoleView) -> RoleView {
    RoleView { term: None, ..v }
}

/// A contender ends a step: it counts it, and draws how long to wait.
pub open spec fn pacing(v: RoleView) -> RoleTurn {
    doing(
        RoleView { steps: roles::one_more(v.steps), ..v },
        RolePlace::DrawingPace,
        RoleActionView::Jitter,
    )
}

/// A contender has campaigned or served: in every other step it sights the leader.
#[verifier::opaque]
pub open spec fn turned(v: RoleView) -> RoleTurn {
    if v.steps % 2 == 0 {
        doing(v, RolePlace::Sighting, RoleActionView::Sight)
    } else {
        pacing(v)
    }
}

/// A campaign is over. A sleeper that won pauses and one that did not tries again; a
/// contender goes on.
#[verifier::opaque]
pub open spec fn campaigned(v: RoleView) -> RoleTurn {
    if v.asleep {
        match v.term {
            Some(term) => doing(
                telling(v, RoleNote::SleeperPausing { ballot: term.ballot }),
                RolePlace::Pausing,
                RoleActionView::Pause,
            ),
            None => doing(v, RolePlace::SleepDrawing, RoleActionView::Jitter),
        }
    } else {
        turned(v)
    }
}

/// A campaign: nothing while a thrown-away reply is unresolved, then that attempt
/// again; otherwise a fresh attempt.
#[verifier::opaque]
pub open spec fn campaigning(v: RoleView, local: nat) -> RoleTurn {
    match v.resume_at {
        Some(due) => if local < due {
            campaigned(bare(v))
        } else {
            doing(
                RoleView { resumed: true, resume_at: None, ..v },
                RolePlace::Claiming,
                RoleActionView::Claim { resumed: true, attempt_id: v.attempt_id },
            )
        },
        None => doing(
            RoleView { resumed: false, attempt_id: roles::one_more(v.attempt_id), ..v },
            RolePlace::Claiming,
            RoleActionView::Claim { resumed: false, attempt_id: roles::one_more(v.attempt_id) },
        ),
    }
}

/// A client that won logs its belief before it does anything under it.
#[verifier::opaque]
pub open spec fn believing(v: RoleView) -> RoleTurn {
    doing(
        v,
        RolePlace::Believing,
        RoleActionView::BeginBelief {
            ballot: v.ballot,
            horizon: v.config.timing.horizon(v.acquired_at),
        },
    )
}

/// A claim came back.
#[verifier::opaque]
pub open spec fn claimed(v: RoleView, reply: ClaimReply, local: nat) -> RoleTurn {
    let (counters, verdict) = roles::after_claim(
        v.counters,
        v.config.timing,
        reply,
        v.resumed,
        local,
    );
    let counted = RoleView { counters, ..bare(v) };
    match reply {
        ClaimReply::Denied => campaigned(counted),
        ClaimReply::Superseded => campaigned(telling(counted, RoleNote::Superseded)),
        ClaimReply::Won { ballot, acquired_at } => {
            let won = RoleView { ballot, acquired_at: acquired_at@, ..counted };
            if verdict == Verdict::Outlived {
                campaigned(telling(won, RoleNote::ClaimOutlived { ballot }))
            } else if !v.resumed && v.config.forced_recovery && v.role == Role::Contender {
                doing(
                    won,
                    RolePlace::RollingDrop,
                    RoleActionView::Roll { fault: Fault::DropReply },
                )
            } else {
                believing(won)
            }
        },
    }
}

/// The reply is thrown away: what is left is to log that.
pub open spec fn dropping(v: RoleView, delay: nat) -> RoleTurn {
    doing(
        RoleView {
            delay,
            counters: Counters {
                injected_unknowns: roles::one_more(v.counters.injected_unknowns),
                ..v.counters
            },
            ..v
        },
        RolePlace::LoggingUnknown,
        RoleActionView::LogUnknown { attempt_id: v.attempt_id, ballot: v.ballot },
    )
}

/// Chance has decided on the reply. The first one thrown away is resolved soon, later
/// ones after a while.
#[verifier::opaque]
pub open spec fn drop_rolled(v: RoleView, roll: bool, sim: nat) -> RoleTurn {
    let drops = (!v.injected_once || roll) && lease_oracle::span_sum(
        lease_oracle::elapsed(v.start, sim),
        v.config.longest_recovery@,
    ) < v.config.timing.test_duration@;
    if !drops {
        believing(v)
    } else {
        let dropped = RoleView { injected_once: true, ..v };
        let (longest, step) = (v.config.longest_wait@, v.config.timing.step@);
        if v.counters.injected_unknowns == 0 {
            doing(dropped, RolePlace::DrawingDelay, RoleActionView::Jitter)
        } else if longest > step {
            doing(
                dropped,
                RolePlace::DrawingDelay,
                RoleActionView::DrawDelay { spread: (longest - step) as nat },
            )
        } else {
            dropping(dropped, step)
        }
    }
}

/// The throwing away is logged: the attempt is resolved after its delay.
#[verifier::opaque]
pub open spec fn dropped(v: RoleView, local: nat) -> RoleTurn {
    campaigned(
        RoleView {
            resume_at: Some(lease_oracle::span_sum(local, v.delay)),
            ..telling(bare(v), RoleNote::ReplyDropped { ballot: v.ballot })
        },
    )
}

/// The belief is logged: the client holds the term.
#[verifier::opaque]
pub open spec fn believed(v: RoleView) -> RoleTurn {
    campaigned(
        RoleView {
            term: Some(
                TermView {
                    ballot: v.ballot,
                    horizon: v.config.timing.horizon(v.acquired_at),
                    renew_due: v.config.timing.renewal(v.acquired_at),
                    sequence: 0,
                },
            ),
            ..v
        },
    )
}

/// A holder serves its term: it stops at the horizon, renews when that is due, and
/// otherwise lets chance decide what becomes of it.
#[verifier::opaque]
pub open spec fn serving(v: RoleView, term: TermView, local: nat) -> RoleTurn {
    if local >= term.horizon {
        turned(
            bare(
                RoleView {
                    counters: Counters {
                        horizon_stops: roles::one_more(v.counters.horizon_stops),
                        ..v.counters
                    },
                    ..v
                },
            ),
        )
    } else if local >= term.renew_due {
        doing(v, RolePlace::Renewing, RoleActionView::Renew)
    } else {
        doing(v, RolePlace::RollingCrash, RoleActionView::Roll { fault: Fault::Crash })
    }
}

/// A renewal came back. A term that somebody else has is closed where that can still
/// be written down.
#[verifier::opaque]
pub open spec fn renewed(v: RoleView, term: TermView, reply: RenewalReply, local: nat) -> RoleTurn {
    match reply {
        RenewalReply::Lost => {
            let lost = RoleView {
                counters: Counters { lost: roles::one_more(v.counters.lost), ..v.counters },
                ..v
            };
            if local < term.horizon {
                doing(lost, RolePlace::EndingLost, RoleActionView::EndBelief)
            } else {
                turned(bare(lost))
            }
        },
        RenewalReply::Refreshed { acquired_at } => {
            let counted = Counters {
                renewals: roles::one_more(v.counters.renewals),
                ..v.counters
            };
            let horizon = v.config.timing.horizon(acquired_at@);
            if local >= horizon {
                turned(
                    bare(
                        RoleView {
                            counters: Counters {
                                horizon_stops: roles::one_more(v.counters.horizon_stops),
                                ..counted
                            },
                            ..v
                        },
                    ),
                )
            } else {
                doing(
                    RoleView {
                        counters: counted,
                        term: Some(
                            TermView {
                                horizon,
                                renew_due: v.config.timing.renewal(acquired_at@),
                                ..term
                            },
                        ),
                        ..v
                    },
                    RolePlace::BelievingOn,
                    RoleActionView::BeginBelief { ballot: term.ballot, horizon },
                )
            }
        },
    }
}

/// A term is handed back: its belief is closed first, where that can still be written
/// down.
#[verifier::opaque]
pub open spec fn stepping_down(v: RoleView, term: TermView, last: bool, local: nat) -> RoleTurn {
    if local < term.horizon {
        doing(v, RolePlace::EndingTerm { last }, RoleActionView::EndBelief)
    } else {
        doing(v, RolePlace::Resigning { last }, RoleActionView::Resign)
    }
}

/// The term was handed back.
#[verifier::opaque]
pub open spec fn resigned(v: RoleView, last: bool, held: bool) -> RoleTurn {
    let counted = bare(
        RoleView {
            counters: if held {
                Counters { resigns: roles::one_more(v.counters.resigns), ..v.counters }
            } else {
                Counters { lost: roles::one_more(v.counters.lost), ..v.counters }
            },
            ..v
        },
    );
    if last {
        finishing(counted)
    } else {
        turned(counted)
    }
}

/// Chance has decided whether the leader stops responding.
pub open spec fn crash_rolled(v: RoleView, term: TermView, roll: bool) -> RoleTurn {
    if roll {
        doing(
            telling(
                RoleView {
                    counters: Counters {
                        crashes: roles::one_more(v.counters.crashes),
                        ..v.counters
                    },
                    ..v
                },
                RoleNote::SoftCrash { ballot: term.ballot },
            ),
            RolePlace::Outlasting,
            RoleActionView::Outlast,
        )
    } else {
        doing(v, RolePlace::RollingResign, RoleActionView::Roll { fault: Fault::Resign })
    }
}

/// Chance has decided whether the leader resigns; where it does not, it works for as
/// long as it believes.
#[verifier::opaque]
pub open spec fn resign_rolled(v: RoleView, term: TermView, roll: bool, local: nat) -> RoleTurn {
    if roll {
        stepping_down(v, term, false, local)
    } else if local >= term.horizon {
        turned(v)
    } else {
        let sequence = (term.sequence + 1) as u32;
        doing(
            RoleView { term: Some(TermView { sequence, ..term }), ..v },
            RolePlace::Fencing,
            RoleActionView::FencedWrite {
                ballot: term.ballot,
                sequence,
                within: Some((term.horizon - local) as nat),
            },
        )
    }
}

/// What a client has counted once a fenced write came back.
pub open spec fn fenced(counters: Counters, work: Work) -> Counters {
    match work {
        Work::Committed => Counters {
            fenced_applied: roles::one_more(counters.fenced_applied),
            ..counters
        },
        Work::Refused => Counters {
            fenced_rejected: roles::one_more(counters.fenced_rejected),
            ..counters
        },
        Work::Abandoned => Counters {
            work_abandoned: roles::one_more(counters.work_abandoned),
            ..counters
        },
    }
}

/// A contender at the top of its loop: it campaigns without a term and serves one it
/// holds, until the run is over.
#[verifier::opaque]
pub open spec fn contending(v: RoleView, sim: nat, local: nat) -> RoleTurn {
    if sim < v.deadline {
        match v.term {
            None => campaigning(v, local),
            Some(term) => serving(v, term, local),
        }
    } else {
        match v.term {
            None => finishing(v),
            Some(term) => stepping_down(v, term, true, local),
        }
    }
}

/// A client that starts to contend.
#[verifier::opaque]
pub open spec fn joining(v: RoleView, sim: nat, local: nat) -> RoleTurn {
    contending(RoleView { asleep: false, steps: 0, ..bare(v) }, sim, local)
}

/// A span to wait was drawn: a holder waits no longer than until its renewal.
#[verifier::opaque]
pub open spec fn pace_drawn(v: RoleView, span: nat, sim: nat, local: nat) -> RoleTurn {
    match v.term {
        None => doing(v, RolePlace::Pacing, RoleActionView::Wait { span }),
        Some(term) => {
            let left = lease_oracle::elapsed(local, term.renew_due);
            let wait = if left < span {
                left
            } else {
                span
            };
            if wait == 0 {
                contending(v, sim, local)
            } else {
                doing(v, RolePlace::Pacing, RoleActionView::Wait { span: wait })
            }
        },
    }
}

/// A sleeper at the top of its loop.
#[verifier::opaque]
pub open spec fn dozing(v: RoleView, sim: nat, local: nat) -> RoleTurn {
    if sim >= v.deadline {
        finishing(telling(v, RoleNote::SleeperNeverLed))
    } else {
        campaigning(RoleView { asleep: true, ..v }, local)
    }
}

/// A sleeper waits for somebody to take its place, until the run is over.
#[verifier::opaque]
pub open spec fn awaiting_successor(v: RoleView, sim: nat, local: nat) -> RoleTurn {
    if sim < v.deadline {
        doing(v, RolePlace::SuccessorSighting, RoleActionView::Sight)
    } else {
        match v.term {
            Some(term) => joining(
                telling(v, RoleNote::SleeperBarrierUnmet { ballot: term.ballot }),
                sim,
                local,
            ),
            None => failing(v),
        }
    }
}

/// A client that has sighted the leader.
pub open spec fn sighting(v: RoleView, sighted: Option<u64>) -> RoleView {
    RoleView {
        sighted,
        counters: Counters { sightings: roles::one_more(v.counters.sightings), ..v.counters },
        ..v
    }
}

/// Once a successor has both taken the term and written under it, a sleeper logs that
/// its stale operations are owed.
pub open spec fn successor_read(v: RoleView, term: TermView, writer: Option<u64>) -> RoleTurn {
    if (v.sighted matches Some(held) && held > term.ballot) && (writer matches Some(wrote) && wrote
        > term.ballot) {
        doing(v, RolePlace::LoggingWoke, RoleActionView::LogWoke { ballot: term.ballot })
    } else {
        doing(v, RolePlace::SuccessorDrawing, RoleActionView::Jitter)
    }
}

/// A sleeper that has logged that tries a write under its stale term.
pub open spec fn owing(v: RoleView, term: TermView) -> RoleTurn {
    doing(
        v,
        RolePlace::StaleWriting,
        RoleActionView::FencedWrite {
            ballot: term.ballot,
            sequence: (term.sequence + 1) as u32,
            within: None,
        },
    )
}

/// A sleeper has tried its stale term, and contends from here on.
#[verifier::opaque]
pub open spec fn woken(v: RoleView, term: TermView, reply: RenewalReply, sim: nat, local: nat) -> RoleTurn {
    let tried = fenced(v.counters, v.stale);
    let renewed = reply is Refreshed;
    joining(
        RoleView {
            counters: if renewed {
                Counters { renewals: roles::one_more(tried.renewals), ..tried }
            } else {
                tried
            },
            ..telling(
                v,
                RoleNote::SleeperWokeUp {
                    ballot: term.ballot,
                    committed: v.stale == Work::Committed,
                    renewed,
                },
            )
        },
        sim,
        local,
    )
}

/// A watcher at the top of its loop.
pub open spec fn watching(v: RoleView, sim: nat) -> RoleTurn {
    if sim < v.deadline {
        doing(v, RolePlace::Arming, RoleActionView::Watch)
    } else {
        finishing(v)
    }
}

/// The first thing a client of a role does.
#[verifier::opaque]
pub open spec fn beginning(v: RoleView, sim: nat, local: nat) -> RoleTurn {
    match v.role {
        Role::Watcher => watching(v, sim),
        Role::Sleeper => dozing(v, sim, local),
        Role::Contender => contending(v, sim, local),
    }
}

/// Where the campaigning part goes.
pub open spec fn after_campaign(v: RoleView, event: RoleEvent, sim: nat, local: nat) -> RoleTurn {
    match (v.place, event) {
        (RolePlace::Claiming, RoleEvent::Claimed(reply)) => claimed(v, reply, local),
        (RolePlace::RollingDrop, RoleEvent::Rolled(roll)) => drop_rolled(v, roll, sim),
        (RolePlace::DrawingDelay, RoleEvent::Drawn(span)) => dropping(v, span@),
        (RolePlace::LoggingUnknown, RoleEvent::Elapsed) => dropped(v, local),
        (RolePlace::Believing, RoleEvent::Elapsed) => believed(v),
        _ => failing(v),
    }
}

/// Where the serving part goes.
pub open spec fn after_service(v: RoleView, term: TermView, event: RoleEvent, local: nat) -> RoleTurn {
    match (v.place, event) {
        (RolePlace::Renewing, RoleEvent::Renewed(reply)) => renewed(v, term, reply, local),
        (RolePlace::BelievingOn, RoleEvent::Elapsed) => turned(v),
        (RolePlace::EndingLost, RoleEvent::Elapsed) => turned(bare(v)),
        (RolePlace::RollingCrash, RoleEvent::Rolled(roll)) => crash_rolled(v, term, roll),
        (RolePlace::Outlasting, _) => turned(bare(v)),
        (RolePlace::RollingResign, RoleEvent::Rolled(roll)) => resign_rolled(v, term, roll, local),
        (RolePlace::EndingTerm { last }, RoleEvent::Elapsed) => doing(
            v,
            RolePlace::Resigning { last },
            RoleActionView::Resign,
        ),
        (RolePlace::Resigning { last }, RoleEvent::Resigned(held)) => resigned(v, last, held),
        (RolePlace::Fencing, RoleEvent::Worked(work)) => turned(
            RoleView { counters: fenced(v.counters, work), ..v },
        ),
        _ => failing(v),
    }
}

/// Where the sleeping part goes.
pub open spec fn after_sleep(v: RoleView, event: RoleEvent, sim: nat, local: nat) -> RoleTurn {
    match (v.place, event, v.term) {
        (RolePlace::SleepDrawing, RoleEvent::Drawn(span), _) => doing(
            v,
            RolePlace::SleepPacing,
            RoleActionView::Wait { span: span@ },
        ),
        (RolePlace::SleepPacing, _, _) => dozing(v, sim, local),
        (RolePlace::Pausing, _, _) => awaiting_successor(v, sim, local),
        (RolePlace::SuccessorSighting, RoleEvent::Sighted(sighted), _) => doing(
            sighting(v, sighted),
            RolePlace::SuccessorReading,
            RoleActionView::ReadRegister,
        ),
        (RolePlace::SuccessorReading, RoleEvent::Wrote(writer), Some(term)) => successor_read(
            v,
            term,
            writer,
        ),
        (RolePlace::SuccessorDrawing, RoleEvent::Drawn(span), _) => doing(
            v,
            RolePlace::SuccessorPacing,
            RoleActionView::Wait { span: span@ },
        ),
        (RolePlace::SuccessorPacing, _, _) => awaiting_successor(v, sim, local),
        (RolePlace::LoggingWoke, RoleEvent::Elapsed, Some(term)) => owing(v, term),
        (RolePlace::StaleWriting, RoleEvent::Worked(work), _) => doing(
            RoleView { stale: work, ..v },
            RolePlace::StaleRenewing,
            RoleActionView::Renew,
        ),
        (RolePlace::StaleRenewing, RoleEvent::Renewed(reply), Some(term)) => woken(
            v,
            term,
            reply,
            sim,
            local,
        ),
        _ => failing(v),
    }
}

/// Where the rest goes: pacing, watching, and the end.
pub open spec fn after_rest(v: RoleView, event: RoleEvent, sim: nat, local: nat) -> RoleTurn {
    match (v.place, event) {
        (RolePlace::HoldingBack, _) => beginning(v, sim, local),
        (RolePlace::Sighting, RoleEvent::Sighted(sighted)) => pacing(sighting(v, sighted)),
        (RolePlace::DrawingPace, RoleEvent::Drawn(span)) => pace_drawn(v, span@, sim, local),
        (RolePlace::Pacing, _) => contending(v, sim, local),
        (RolePlace::Arming, RoleEvent::Armed(armed)) => {
            let counted = sighting(v, v.sighted);
            if armed {
                doing(counted, RolePlace::Watching, RoleActionView::AwaitChange)
            } else {
                doing(counted, RolePlace::WatchDrawing, RoleActionView::Jitter)
            }
        },
        (RolePlace::Watching, _) => watching(v, sim),
        (RolePlace::WatchDrawing, RoleEvent::Drawn(span)) => doing(
            v,
            RolePlace::WatchPacing,
            RoleActionView::Wait { span: span@ },
        ),
        (RolePlace::WatchPacing, _) => watching(v, sim),
        (RolePlace::Done, _) => finishing(v),
        _ => failing(v),
    }
}

/// What a client does, given what came of its last action: the whole script. An
/// answer of the wrong kind counts as a failure of the action.
pub open spec fn scripted(before: RoleView, event: RoleEvent, sim: nat, local: nat) -> RoleTurn {
    let v = RoleView { note: None, ..before };
    match v.place {
        RolePlace::Claiming
        | RolePlace::RollingDrop
        | RolePlace::DrawingDelay
        | RolePlace::LoggingUnknown
        | RolePlace::Believing => after_campaign(v, event, sim, local),
        RolePlace::Renewing
        | RolePlace::BelievingOn
        | RolePlace::EndingLost
        | RolePlace::RollingCrash
        | RolePlace::Outlasting
        | RolePlace::RollingResign
        | RolePlace::EndingTerm { .. }
        | RolePlace::Resigning { .. }
        | RolePlace::Fencing => match v.term {
            Some(term) => after_service(v, term, event, local),
            None => failing(v),
        },
        RolePlace::SleepDrawing
        | RolePlace::SleepPacing
        | RolePlace::Pausing
        | RolePlace::SuccessorSighting
        | RolePlace::SuccessorReading
        | RolePlace::SuccessorDrawing
        | RolePlace::SuccessorPacing
        | RolePlace::LoggingWoke
        | RolePlace::StaleWriting
        | RolePlace::StaleRenewing => after_sleep(v, event, sim, local),
        _ => after_rest(v, event, sim, local),
    }
}

/// Whether the script can take another step: the term it holds has not run out of
/// fencing sequences.
pub open spec fn in_hand(v: RoleView) -> bool {
    v.term matches Some(term) ==> term.sequence < u32::MAX
}

/// A client before its first action.
pub open spec fn fresh(role: Role, config: RoleConfig, sim: nat) -> RoleView {
    RoleView {
        role,
        config,
        start: sim,
        deadline: lease_oracle::span_sum(sim, config.timing.test_duration@),
        counters: roles::nothing_counted(),
        attempt_id: 0,
        resumed: false,
        resume_at: None,
        injected_once: false,
        steps: 0,
        term: None,
        ballot: 0,
        acquired_at: 0,
        delay: 0,
        sighted: None,
        stale: Work::Abandoned,
        asleep: false,
        place: RolePlace::HoldingBack,
        note: None,
    }
}

/// A client at the start of a run: everybody but the sleeper holds back, where the run
/// has them hold back.
pub open spec fn begun(role: Role, config: RoleConfig, sim: nat, local: nat) -> RoleTurn {
    let v = fresh(role, config, sim);
    if role != Role::Sleeper && config.head_start@ > 0 {
        doing(v, RolePlace::HoldingBack, RoleActionView::Wait { span: config.head_start@ })
    } else {
        beginning(v, sim, local)
    }
}

impl RoleScript {
    /// Whether the script can take another step.
    pub fn can_step(&self) -> (r: bool)
        ensures
            r == in_hand(self@),
    {
        match self.term {
            Some(term) => term.sequence < u32::MAX,
            None => true,
        }
    }

    fn go(&mut self, place: RolePlace, action: RoleAction) -> (r: RoleAction)
        ensures
            (RoleTurn { script: final(self)@, action: r@ }) == doing(old(self)@, place, action@),
    {
        self.place = place;
        action
    }

    fn tell(&mut self, note: RoleNote)
        ensures
            final(self)@ == telling(old(self)@, note),
    {
        self.note = Some(note);
    }

    fn finish(&mut self) -> (r: RoleAction)
        ensures
            (RoleTurn { script: final(self)@, action: r@ }) == finishing(old(self)@),
    {
        self.go(RolePlace::Done, RoleAction::Finish)
    }

    fn fail(&mut self) -> (r: RoleAction)
        ensures
            (RoleTurn { script: final(self)@, action: r@ }) == failing(old(self)@),
    {
        self.counters.errors = count_one(self.counters.errors);
        self.note = Some(RoleNote::Failed);
        self.finish()
    }

    fn pace(&mut self) -> (r: RoleAction)
        ensures
            (RoleTurn { script: final(self)@, action: r@ }) == pacing(old(self)@),
    {
        self.steps = count_one(self.steps);
        self.go(RolePlace::DrawingPace, RoleAction::Jitter)
    }

    fn turn(&mut self) -> (r: RoleAction)
        ensures
            (RoleTurn { script: final(self)@, action: r@ }) == turned(old(self)@),
    {
        proof {
            reveal(turned);
        }
        if sights(self.steps) {
            self.go(RolePlace::Sighting, RoleAction::Sight)
        } else {
            self.pace()
        }
    }

    fn end_campaign(&mut self) -> (r: RoleAction)
        ensures
            (RoleTurn { script: final(self)@, action: r@ }) == campaigned(old(self)@),
    {
        proof {
            reveal(campaigned);
        }
        if self.asleep {
            match self.term {
                Some(term) => {
                    self.tell(RoleNote::SleeperPausing { ballot: term.ballot });
                    self.go(RolePlace::Pausing, RoleAction::Pause)
                },
                None => self.go(RolePlace::SleepDrawing, RoleAction::Jitter),
            }
        } else {
            self.turn()
        }
    }

    fn campaign(&mut self, local: Duration) -> (r: RoleAction)
        ensures
            (RoleTurn { script: final(self)@, action: r@ }) == campaigning(old(self)@, local@),
    {
        proof {
            reveal(campaigning);
        }
        match begin_campaign(self.resume_at, local) {
            Campaign::Hold => {
                self.term = None;
                self.end_campaign()
            },
            Campaign::Resume => {
                self.resumed = true;
                self.resume_at = None;
                let attempt_id: u64 = self.attempt_id;
                self.go(RolePlace::Claiming, RoleAction::Claim { resumed: true, attempt_id })
            },
            Campaign::Fresh => {
                self.resumed = false;
                let attempt_id: u64 = count_one(self.attempt_id);
                self.attempt_id = attempt_id;
                self.go(RolePlace::Claiming, RoleAction::Claim { resumed: false, attempt_id })
            },
        }
    }

    fn believe(&mut self) -> (r: RoleAction)
        ensures
            (RoleTurn { script: final(self)@, action: r@ }) == believing(old(self)@),
    {
        proof {
            reveal(believing);
        }
        let ballot: u64 = self.ballot;
        let horizon = self.config.timing.horizon_of(self.acquired_at);
        self.go(RolePlace::Believing, RoleAction::BeginBelief { ballot, horizon })
    }

    fn after_claim(&mut self, reply: ClaimReply, local: Duration) -> (r: RoleAction)
        ensures
            (RoleTurn { script: final(self)@, action: r@ }) == claimed(old(self)@, reply, local@),
    {
        proof {
            reveal(claimed);
        }
        let timing = self.config.timing;
        let (counters, verdict) = judge_claim(
            self.counters,
            &timing,
            reply,
            self.resumed,
            local,
        );
        self.counters = counters;
        self.term = None;
        match reply {
            ClaimReply::Denied => self.end_campaign(),
            ClaimReply::Superseded => {
                self.tell(RoleNote::Superseded);
                self.end_campaign()
            },
            ClaimReply::Won { ballot, acquired_at } => {
                self.ballot = ballot;
                self.acquired_at = acquired_at;
                let outlived = match verdict {
                    Verdict::Outlived => true,
                    _ => false,
                };
                if outlived {
                    self.tell(RoleNote::ClaimOutlived { ballot });
                    self.end_campaign()
                } else if !self.resumed && may_drop_replies(
                    self.config.forced_recovery,
                    self.role,
                ) {
                    self.go(RolePlace::RollingDrop, RoleAction::Roll { fault: Fault::DropReply })
                } else {
                    self.believe()
                }
            },
        }
    }

    fn drop_reply(&mut self, delay: Duration) -> (r: RoleAction)
        ensures
            (RoleTurn { script: final(self)@, action: r@ }) == dropping(old(self)@, delay@),
    {
        self.delay = delay;
        self.counters.injected_unknowns = count_one(self.counters.injected_unknowns);
        let attempt_id: u64 = self.attempt_id;
        let ballot: u64 = self.ballot;
        self.go(RolePlace::LoggingUnknown, RoleAction::LogUnknown { attempt_id, ballot })
    }

    fn after_drop_roll(&mut self, roll: bool, sim: Duration) -> (r: RoleAction)
        ensures
            (RoleTurn { script: final(self)@, action: r@ }) == drop_rolled(old(self)@, roll, sim@),
    {
        proof {
            reveal(drop_rolled);
        }
        let drops = drops_reply(
            self.injected_once,
            roll,
            sim.saturating_sub(self.start),
            self.config.longest_recovery,
            self.config.timing.test_duration,
        );
        if !drops {
            return self.believe();
        }
        self.injected_once = true;
        if self.counters.injected_unknowns == 0 {
            return self.go(RolePlace::DrawingDelay, RoleAction::Jitter);
        }
        let step = self.config.timing.step;
        match resume_spread(self.config.longest_wait, step) {
            Some(spread) => self.go(RolePlace::DrawingDelay, RoleAction::DrawDelay { spread }),
            None => self.drop_reply(step),
        }
    }

    fn after_drop(&mut self, local: Duration) -> (r: RoleAction)
        ensures
            (RoleTurn { script: final(self)@, action: r@ }) == dropped(old(self)@, local@),
    {
        proof {
            reveal(dropped);
        }
        self.term = None;
        self.resume_at = Some(local.saturating_add(self.delay));
        let ballot: u64 = self.ballot;
        self.tell(RoleNote::ReplyDropped { ballot });
        self.end_campaign()
    }

    fn hold(&mut self) -> (r: RoleAction)
        ensures
            (RoleTurn { script: final(self)@, action: r@ }) == believed(old(self)@),
    {
        proof {
            reveal(believed);
        }
        let timing = self.config.timing;
        self.term = Some(take_up(&timing, self.ballot, self.acquired_at));
        self.end_campaign()
    }

    fn serve(&mut self, term: Term, local: Duration) -> (r: RoleAction)
        ensures
            (RoleTurn { script: final(self)@, action: r@ }) == serving(
                old(self)@,
                term_view(term),
                local@,
            ),
    {
        proof {
            reveal(serving);
        }
        match duty(&term, local) {
            Duty::Stop => {
                self.counters = stop_at_horizon(self.counters);
                self.term = None;
                self.turn()
            },
            Duty::Renew => self.go(RolePlace::Renewing, RoleAction::Renew),
            Duty::Carry => self.go(
                RolePlace::RollingCrash,
                RoleAction::Roll { fault: Fault::Crash },
            ),
        }
    }

    fn after_renew(&mut self, term: Term, reply: RenewalReply, local: Duration) -> (r: RoleAction)
        ensures
            (RoleTurn { script: final(self)@, action: r@ }) == renewed(
                old(self)@,
                term_view(term),
                reply,
                local@,
            ),
    {
        proof {
            reveal(renewed);
        }
        let timing = self.config.timing;
        let (counters, next) = after_renewal(self.counters, &timing, term, reply, local);
        self.counters = counters;
        match next {
            Some(next) => {
                self.term = Some(next);
                self.go(
                    RolePlace::BelievingOn,
                    RoleAction::BeginBelief { ballot: next.ballot, horizon: next.horizon },
                )
            },
            None => {
                let lost = match reply {
                    RenewalReply::Lost => true,
                    _ => false,
                };
                if lost && may_log_end(local, term.horizon) {
                    self.go(RolePlace::EndingLost, RoleAction::EndBelief)
                } else {
                    self.term = None;
                    self.turn()
                }
            },
        }
    }

    fn step_down(&mut self, term: Term, last: bool, local: Duration) -> (r: RoleAction)
        ensures
            (RoleTurn { script: final(self)@, action: r@ }) == stepping_down(
                old(self)@,
                term_view(term),
                last,
                local@,
            ),
    {
        proof {
            reveal(stepping_down);
        }
        if may_log_end(local, term.horizon) {
            self.go(RolePlace::EndingTerm { last }, RoleAction::EndBelief)
        } else {
            self.go(RolePlace::Resigning { last }, RoleAction::Resign)
        }
    }

    fn after_resignation(&mut self, last: bool, held: bool) -> (r: RoleAction)
        ensures
            (RoleTurn { script: final(self)@, action: r@ }) == resigned(old(self)@, last, held),
    {
        proof {
            reveal(resigned);
        }
        self.counters = after_resign(self.counters, held);
        self.term = None;
        if last {
            self.finish()
        } else {
            self.turn()
        }
    }

    fn after_crash_roll(&mut self, term: Term, roll: bool) -> (r: RoleAction)
        ensures
            (RoleTurn { script: final(self)@, action: r@ }) == crash_rolled(
                old(self)@,
                term_view(term),
                roll,
            ),
    {
        if roll {
            self.counters.crashes = count_one(self.counters.crashes);
            self.tell(RoleNote::SoftCrash { ballot: term.ballot });
            self.go(RolePlace::Outlasting, RoleAction::Outlast)
        } else {
            self.go(RolePlace::RollingResign, RoleAction::Roll { fault: Fault::Resign })
        }
    }

    fn after_resign_roll(&mut self, term: Term, roll: bool, local: Duration) -> (r: RoleAction)
        requires
            term.sequence < u32::MAX,
        ensures
            (RoleTurn { script: final(self)@, action: r@ }) == resign_rolled(
                old(self)@,
                term_view(term),
                roll,
                local@,
            ),
    {
        proof {
            reveal(resign_rolled);
        }
        if roll {
            return self.step_down(term, false, local);
        }
        match begin_work(&term, local) {
            Some((remaining, sequence)) => {
                self.term = Some(Term { sequence, ..term });
                self.go(
                    RolePlace::Fencing,
                    RoleAction::FencedWrite {
                        ballot: term.ballot,
                        sequence,
                        within: Some(remaining),
                    },
                )
            },
            None => self.turn(),
        }
    }

    fn contend(&mut self, sim: Duration, local: Duration) -> (r: RoleAction)
        ensures
            (RoleTurn { script: final(self)@, action: r@ }) == contending(
                old(self)@,
                sim@,
                local@,
            ),
    {
        proof {
            reveal(contending);
        }
        if sim.shorter_than(&self.deadline) {
            match self.term {
                None => self.campaign(local),
                Some(term) => self.serve(term, local),
            }
        } else {
            match self.term {
                None => self.finish(),
                Some(term) => self.step_down(term, true, local),
            }
        }
    }

    fn join(&mut self, sim: Duration, local: Duration) -> (r: RoleAction)
        ensures
            (RoleTurn { script: final(self)@, action: r@ }) == joining(old(self)@, sim@, local@),
    {
        proof {
            reveal(joining);
        }
        self.asleep = false;
        self.steps = 0;
        self.term = None;
        self.contend(sim, local)
    }

    fn after_pace_draw(&mut self, span: Duration, sim: Duration, local: Duration) -> (r: RoleAction)
        ensures
            (RoleTurn { script: final(self)@, action: r@ }) == pace_drawn(
                old(self)@,
                span@,
                sim@,
                local@,
            ),
    {
        proof {
            reveal(pace_drawn);
        }
        match self.term {
            None => self.go(RolePlace::Pacing, RoleAction::Wait { span }),
            Some(term) => {
                let wait = pace_until(term.renew_due, local, span);
                if wait.is_zero() {
                    self.contend(sim, local)
                } else {
                    self.go(RolePlace::Pacing, RoleAction::Wait { span: wait })
                }
            },
        }
    }

    fn doze(&mut self, sim: Duration, local: Duration) -> (r: RoleAction)
        ensures
            (RoleTurn { script: final(self)@, action: r@ }) == dozing(old(self)@, sim@, local@),
    {
        proof {
            reveal(dozing);
        }
        if !sim.shorter_than(&self.deadline) {
            self.tell(RoleNote::SleeperNeverLed);
            self.finish()
        } else {
            self.asleep = true;
            self.campaign(local)
        }
    }

    fn await_successor(&mut self, sim: Duration, local: Duration) -> (r: RoleAction)
        ensures
            (RoleTurn { script: final(self)@, action: r@ }) == awaiting_successor(
                old(self)@,
                sim@,
                local@,
            ),
    {
        proof {
            reveal(awaiting_successor);
        }
        if sim.shorter_than(&self.deadline) {
            self.go(RolePlace::SuccessorSighting, RoleAction::Sight)
        } else {
            match self.term {
                Some(term) => {
                    self.tell(RoleNote::SleeperBarrierUnmet { ballot: term.ballot });
                    self.join(sim, local)
                },
                None => self.fail(),
            }
        }
    }

    fn sight(&mut self, sighted: Option<u64>)
        ensures
            final(self)@ == sighting(old(self)@, sighted),
    {
        self.sighted = sighted;
        self.counters.sightings = count_one(self.counters.sightings);
    }

    fn after_register(&mut self, term: Term, writer: Option<u64>) -> (r: RoleAction)
        ensures
            (RoleTurn { script: final(self)@, action: r@ }) == successor_read(
                old(self)@,
                term_view(term),
                writer,
            ),
    {
        if has_successor(self.sighted, writer, term.ballot) {
            self.go(RolePlace::LoggingWoke, RoleAction::LogWoke { ballot: term.ballot })
        } else {
            self.go(RolePlace::SuccessorDrawing, RoleAction::Jitter)
        }
    }

    fn wake(&mut self, term: Term, reply: RenewalReply, sim: Duration, local: Duration) -> (r:
        RoleAction)
        ensures
            (RoleTurn { script: final(self)@, action: r@ }) == woken(
                old(self)@,
                term_view(term),
                reply,
                sim@,
                local@,
            ),
    {
        proof {
            reveal(woken);
        }
        self.counters = count_fenced(self.counters, self.stale);
        let renewed = match reply {
            RenewalReply::Refreshed { .. } => true,
            _ => false,
        };
        let committed = match self.stale {
            Work::Committed => true,
            _ => false,
        };
        if renewed {
            self.counters.renewals = count_one(self.counters.renewals);
        }
        self.tell(RoleNote::SleeperWokeUp { ballot: term.ballot, committed, renewed });
        self.join(sim, local)
    }

    fn watch(&mut self, sim: Duration) -> (r: RoleAction)
        ensures
            (RoleTurn { script: final(self)@, action: r@ }) == watching(old(self)@, sim@),
    {
        if sim.shorter_than(&self.deadline) {
            self.go(RolePlace::Arming, RoleAction::Watch)
        } else {
            self.finish()
        }
    }

    fn begin_role(&mut self, sim: Duration, local: Duration) -> (r: RoleAction)
        ensures
            (RoleTurn { script: final(self)@, action: r@ }) == beginning(
                old(self)@,
                sim@,
                local@,
            ),
    {
        proof {
            reveal(beginning);
        }
        match self.role {
            Role::Watcher => self.watch(sim),
            Role::Sleeper => self.doze(sim, local),
            Role::Contender => self.contend(sim, local),
        }
    }

    fn step_campaign(&mut self, event: RoleEvent, sim: Duration, local: Duration) -> (r: RoleAction)
        ensures
            (RoleTurn { script: final(self)@, action: r@ }) == after_campaign(
                old(self)@,
                event,
                sim@,
                local@,
            ),
    {
        match (self.place, event) {
            (RolePlace::Claiming, RoleEvent::Claimed(reply)) => self.after_claim(reply, local),
            (RolePlace::RollingDrop, RoleEvent::Rolled(roll)) => self.after_drop_roll(roll, sim),
            (RolePlace::DrawingDelay, RoleEvent::Drawn(span)) => self.drop_reply(span),
            (RolePlace::LoggingUnknown, RoleEvent::Elapsed) => self.after_drop(local),
            (RolePlace::Believing, RoleEvent::Elapsed) => self.hold(),
            _ => self.fail(),
        }
    }

    fn step_service(&mut self, term: Term, event: RoleEvent, local: Duration) -> (r: RoleAction)
        requires
            term.sequence < u32::MAX,
        ensures
            (RoleTurn { script: final(self)@, action: r@ }) == after_service(
                old(self)@,
                term_view(term),
                event,
                local@,
            ),
    {
        match (self.place, event) {
            (RolePlace::Renewing, RoleEvent::Renewed(reply)) => self.after_renew(
                term,
                reply,
                local,
            ),
            (RolePlace::BelievingOn, RoleEvent::Elapsed) => self.turn(),
            (RolePlace::EndingLost, RoleEvent::Elapsed) => {
                self.term = None;
                self.turn()
            },
            (RolePlace::RollingCrash, RoleEvent::Rolled(roll)) => self.after_crash_roll(term, roll),
            (RolePlace::Outlasting, _) => {
                self.term = None;
                self.turn()
            },
            (RolePlace::RollingResign, RoleEvent::Rolled(roll)) => self.after_resign_roll(
                term,
                roll,
                local,
            ),
            (RolePlace::EndingTerm { last }, RoleEvent::Elapsed) => self.go(
                RolePlace::Resigning { last },
                RoleAction::Resign,
            ),
            (RolePlace::Resigning { last }, RoleEvent::Resigned(held)) => self.after_resignation(
                last,
                held,
            ),
            (RolePlace::Fencing, RoleEvent::Worked(work)) => {
                self.counters = count_fenced(self.counters, work);
                self.turn()
            },
            _ => self.fail(),
        }
    }

    fn step_sleep(&mut self, event: RoleEvent, sim: Duration, local: Duration) -> (r: RoleAction)
        requires
            in_hand(old(self)@),
        ensures
            (RoleTurn { script: final(self)@, action: r@ }) == after_sleep(
                old(self)@,
                event,
                sim@,
                local@,
            ),
    {
        match (self.place, event, self.term) {
            (RolePlace::SleepDrawing, RoleEvent::Drawn(span), _) => self.go(
                RolePlace::SleepPacing,
                RoleAction::Wait { span },
            ),
            (RolePlace::SleepPacing, _, _) => self.doze(sim, local),
            (RolePlace::Pausing, _, _) => self.await_successor(sim, local),
            (RolePlace::SuccessorSighting, RoleEvent::Sighted(sighted), _) => {
                self.sight(sighted);
                self.go(RolePlace::SuccessorReading, RoleAction::ReadRegister)
            },
            (RolePlace::SuccessorReading, RoleEvent::Wrote(writer), Some(term)) =>
            self.after_register(term, writer),
            (RolePlace::SuccessorDrawing, RoleEvent::Drawn(span), _) => self.go(
                RolePlace::SuccessorPacing,
                RoleAction::Wait { span },
            ),
            (RolePlace::SuccessorPacing, _, _) => self.await_successor(sim, local),
            (RolePlace::LoggingWoke, RoleEvent::Elapsed, Some(term)) => self.go(
                RolePlace::StaleWriting,
                RoleAction::FencedWrite {
                    ballot: term.ballot,
                    sequence: term.sequence + 1,
                    within: None,
                },
            ),
            (RolePlace::StaleWriting, RoleEvent::Worked(work), _) => {
                self.stale = work;
                self.go(RolePlace::StaleRenewing, RoleAction::Renew)
            },
            (RolePlace::StaleRenewing, RoleEvent::Renewed(reply), Some(term)) => self.wake(
                term,
                reply,
                sim,
                local,
            ),
            _ => self.fail(),
        }
    }

    fn step_rest(&mut self, event: RoleEvent, sim: Duration, local: Duration) -> (r: RoleAction)
        ensures
            (RoleTurn { script: final(self)@, action: r@ }) == after_rest(
                old(self)@,
                event,
                sim@,
                local@,
            ),
    {
        match (self.place, event) {
            (RolePlace::HoldingBack, _) => self.begin_role(sim, local),
            (RolePlace::Sighting, RoleEvent::Sighted(sighted)) => {
                self.sight(sighted);
                self.pace()
            },
            (RolePlace::DrawingPace, RoleEvent::Drawn(span)) => self.after_pace_draw(
                span,
                sim,
                local,
            ),
            (RolePlace::Pacing, _) => self.contend(sim, local),
            (RolePlace::Arming, RoleEvent::Armed(armed)) => {
                let sighted = self.sighted;
                self.sight(sighted);
                if armed {
                    self.go(RolePlace::Watching, RoleAction::AwaitChange)
                } else {
                    self.go(RolePlace::WatchDrawing, RoleAction::Jitter)
                }
            },
            (RolePlace::Watching, _) => self.watch(sim),
            (RolePlace::WatchDrawing, RoleEvent::Drawn(span)) => self.go(
                RolePlace::WatchPacing,
                RoleAction::Wait { span },
            ),
            (RolePlace::WatchPacing, _) => self.watch(sim),
            (RolePlace::Done, _) => self.finish(),
            _ => self.fail(),
        }
    }

    /// A client of a role at the start of a run, and what it does first: everybody but
    /// the sleeper holds back, where the run has them hold back.
    pub fn begin(role: Role, config: RoleConfig, sim: Duration, local: Duration) -> (r: (
        RoleScript,
        RoleAction,
    ))
        ensures
            (RoleTurn { script: r.0@, action: r.1@ }) == begun(role, config, sim@, local@),
    {
        let mut script = RoleScript {
            role,
            config,
            start: sim,
            deadline: sim.saturating_add(config.timing.test_duration),
            counters: Counters::default(),
            attempt_id: 0,
            resumed: false,
            resume_at: None,
            injected_once: false,
            steps: 0,
            term: None,
            ballot: 0,
            acquired_at: Duration::zero(),
            delay: Duration::zero(),
            sighted: None,
            stale: Work::Abandoned,
            asleep: false,
            place: RolePlace::HoldingBack,
            note: None,
        };
        let sleeps = match role {
            Role::Sleeper => true,
            _ => false,
        };
        let action = if !sleeps && !config.head_start.is_zero() {
            RoleAction::Wait { span: config.head_start }
        } else {
            script.begin_role(sim, local)
        };
        (script, action)
    }

    /// Tells the client what came of its last action, and what time it is by the
    /// simulator's clock and by its own; it answers with what it does next.
    pub fn step(&mut self, event: RoleEvent, sim: Duration, local: Duration) -> (r: RoleAction)
        requires
            in_hand(old(self)@),
        ensures
            (RoleTurn { script: final(self)@, action: r@ }) == scripted(
                old(self)@,
                event,
                sim@,
                local@,
            ),
    {
        self.note = None;
        match self.place {
            RolePlace::Claiming
            | RolePlace::RollingDrop
            | RolePlace::DrawingDelay
            | RolePlace::LoggingUnknown
            | RolePlace::Believing => self.step_campaign(event, sim, local),
            RolePlace::Renewing
            | RolePlace::BelievingOn
            | RolePlace::EndingLost
            | RolePlace::RollingCrash
            | RolePlace::Outlasting
            | RolePlace::RollingResign
            | RolePlace::EndingTerm { .. }
            | RolePlace::Resigning { .. }
            | RolePlace::Fencing => match self.term {
                Some(term) => self.step_service(term, event, local),
                None => self.fail(),
            },
            RolePlace::SleepDrawing
            | RolePlace::SleepPacing
            | RolePlace::Pausing
            | RolePlace::SuccessorSighting
            | RolePlace::SuccessorReading
            | RolePlace::SuccessorDrawing
            | RolePlace::SuccessorPacing
            | RolePlace::LoggingWoke
            | RolePlace::StaleWriting
            | RolePlace::StaleRenewing => self.step_sleep(event, sim, local),
            _ => self.step_rest(event, sim, local),
        }
    }
}

// ---------------------------------------------------------------------------
// What holds of every step
// ---------------------------------------------------------------------------

proof fn about_turned()
    ensures
        forall|v: RoleView|
            (#[trigger] turned(v)).script.term == v.term && (turned(v).action is Sight
                || turned(v).action is Jitter),
{
    reveal(turned);
}

/// Whether a step ends a campaign or goes on contending: it reads, waits or claims.
pub open spec fn harmless(action: RoleActionView) -> bool {
    action is Sight || action is Jitter || action is Pause || action is Claim
}

proof fn about_campaigned()
    ensures
        forall|v: RoleView|
            (#[trigger] campaigned(v)).script.term == v.term && harmless(campaigned(v).action)
                && !(campaigned(v).action is Claim),
{
    about_turned();
    reveal(campaigned);
}

proof fn about_campaigning()
    ensures
        forall|v: RoleView, local: nat|
            harmless((#[trigger] campaigning(v, local)).action) && (campaigning(
                v,
                local,
            ).script.term is Some ==> v.term is Some) && claims_in_turn(
                v,
                campaigning(v, local).action,
                local,
            ),
{
    about_campaigned();
    reveal(campaigning);
}

proof fn about_claims()
    ensures
        forall|v: RoleView, reply: ClaimReply, local: nat|
            {
                let turn = #[trigger] claimed(v, reply, local);
                &&& turn.script.term is None
                &&& harmless(turn.action) && !(turn.action is Claim) || turn.action is BeginBelief
                    || turn.action is Roll
                &&& turn.action is Roll ==> v.role == Role::Contender && v.config.forced_recovery
                    && !v.resumed
                &&& turn.action matches RoleActionView::BeginBelief { horizon, .. } ==> local
                    < horizon
            },
        forall|v: RoleView, roll: bool, sim: nat|
            {
                let turn = #[trigger] drop_rolled(v, roll, sim);
                &&& turn.script.term == v.term
                &&& turn.action is BeginBelief || turn.action is Jitter || turn.action is DrawDelay
                    || turn.action is LogUnknown
            },
        forall|v: RoleView, local: nat|
            {
                let turn = #[trigger] dropped(v, local);
                turn.script.term is None && harmless(turn.action) && !(turn.action is Claim)
            },
        forall|v: RoleView|
            harmless((#[trigger] believed(v)).action) && !(believed(v).action is Claim),
{
    about_campaigned();
    assert forall|v: RoleView, reply: ClaimReply, local: nat|
        {
            let turn = #[trigger] claimed(v, reply, local);
            &&& turn.script.term is None
            &&& harmless(turn.action) && !(turn.action is Claim) || turn.action is BeginBelief
                || turn.action is Roll
            &&& turn.action is Roll ==> v.role == Role::Contender && v.config.forced_recovery
                && !v.resumed
            &&& turn.action matches RoleActionView::BeginBelief { horizon, .. } ==> local < horizon
        } by {
        reveal(claimed);
        reveal(believing);
    }
    assert forall|v: RoleView, roll: bool, sim: nat|
        {
            let turn = #[trigger] drop_rolled(v, roll, sim);
            &&& turn.script.term == v.term
            &&& turn.action is BeginBelief || turn.action is Jitter || turn.action is DrawDelay
                || turn.action is LogUnknown
        } by {
        reveal(drop_rolled);
        reveal(believing);
    }
    assert forall|v: RoleView, local: nat|
        {
            let turn = #[trigger] dropped(v, local);
            turn.script.term is None && harmless(turn.action) && !(turn.action is Claim)
        } by {
        reveal(dropped);
    }
    assert forall|v: RoleView|
        harmless((#[trigger] believed(v)).action) && !(believed(v).action is Claim) by {
        reveal(believed);
    }
}

/// Whether an action, if it is a claim, is one that a client may make: it resumes the
/// attempt whose reply was thrown away, once that is due, and takes up a fresh one only
/// where none is unresolved.
pub open spec fn claims_in_turn(v: RoleView, action: RoleActionView, local: nat) -> bool {
    action matches RoleActionView::Claim { resumed, attempt_id } ==> match v.resume_at {
        Some(due) => resumed && attempt_id == v.attempt_id && due <= local,
        None => !resumed && attempt_id == roles::one_more(v.attempt_id),
    }
}

/// What holds of a step that a client takes at the top of its loop.
pub open spec fn loops_soundly(v: RoleView, turn: RoleTurn, sim: nat, local: nat) -> bool {
    &&& harmless(turn.action) || turn.action is Renew || turn.action is EndBelief
        || turn.action is Resign || turn.action is Finish || turn.action is Wait || turn.action
        == (RoleActionView::Roll { fault: Fault::Crash })
    &&& turn.action is Claim ==> sim < v.deadline
    &&& claims_in_turn(v, turn.action, local)
    &&& turn.action is EndBelief ==> turn.script.term == v.term && (v.term matches Some(term)
        && local < term.horizon)
    &&& turn.action is Resign ==> (v.term matches Some(term) && local >= term.horizon)
    &&& turn.script.term is Some ==> v.term is Some
}

proof fn about_contending()
    ensures
        forall|v: RoleView, sim: nat, local: nat|
            loops_soundly(v, #[trigger] contending(v, sim, local), sim, local),
        forall|v: RoleView, sim: nat, local: nat|
            loops_soundly(v, #[trigger] joining(v, sim, local), sim, local),
        forall|v: RoleView, sim: nat, local: nat|
            loops_soundly(v, #[trigger] dozing(v, sim, local), sim, local),
        forall|v: RoleView, sim: nat, local: nat|
            loops_soundly(v, #[trigger] awaiting_successor(v, sim, local), sim, local),
        forall|v: RoleView, span: nat, sim: nat, local: nat|
            loops_soundly(v, #[trigger] pace_drawn(v, span, sim, local), sim, local),
        forall|v: RoleView, term: TermView, reply: RenewalReply, sim: nat, local: nat|
            loops_soundly(v, #[trigger] woken(v, term, reply, sim, local), sim, local),
{
    about_turned();
    about_campaigning();
    assert forall|v: RoleView, sim: nat, local: nat|
        loops_soundly(v, #[trigger] contending(v, sim, local), sim, local) by {
        reveal(contending);
        reveal(serving);
        reveal(stepping_down);
    }
    assert forall|v: RoleView, sim: nat, local: nat|
        loops_soundly(v, #[trigger] joining(v, sim, local), sim, local) by {
        reveal(joining);
        let bared = RoleView { asleep: false, steps: 0, ..bare(v) };
        assert(loops_soundly(bared, contending(bared, sim, local), sim, local));
    }
    assert forall|v: RoleView, sim: nat, local: nat|
        loops_soundly(v, #[trigger] dozing(v, sim, local), sim, local) by {
        reveal(dozing);
    }
    assert forall|v: RoleView, sim: nat, local: nat|
        loops_soundly(v, #[trigger] awaiting_successor(v, sim, local), sim, local) by {
        reveal(awaiting_successor);
        if v.term is Some {
            let told = telling(v, RoleNote::SleeperBarrierUnmet { ballot: v.term->Some_0.ballot });
            assert(loops_soundly(told, joining(told, sim, local), sim, local));
        }
    }
    assert forall|v: RoleView, span: nat, sim: nat, local: nat|
        loops_soundly(v, #[trigger] pace_drawn(v, span, sim, local), sim, local) by {
        reveal(pace_drawn);
        assert(loops_soundly(v, contending(v, sim, local), sim, local));
    }
    assert forall|v: RoleView, term: TermView, reply: RenewalReply, sim: nat, local: nat|
        loops_soundly(v, #[trigger] woken(v, term, reply, sim, local), sim, local) by {
        reveal(woken);
        joining_forgets(v, term, reply, sim, local);
    }
}

proof fn joining_forgets(v: RoleView, term: TermView, reply: RenewalReply, sim: nat, local: nat)
    ensures
        loops_soundly(v, woken(v, term, reply, sim, local), sim, local),
{
    about_turned();
    about_campaigning();
    reveal(woken);
    reveal(joining);
    reveal(contending);
}

/// What holds of every step.
pub open spec fn sound(v: RoleView, event: RoleEvent, turn: RoleTurn, sim: nat, local: nat) -> bool {
    &&& turn.action matches RoleActionView::FencedWrite { ballot, within: Some(left), .. } ==> (
    v.term matches Some(term) && ballot == term.ballot && local < term.horizon && local + left
        == term.horizon)
    &&& turn.action is EndBelief ==> (turn.script.term matches Some(term) && local < term.horizon)
    &&& turn.action is Resign ==> v.place is EndingTerm || (v.term matches Some(term) && local
        >= term.horizon)
    &&& v.term is None && turn.script.term is Some ==> v.place == RolePlace::Believing
        && event is Elapsed
    &&& turn.action is Claim ==> sim < v.deadline
    &&& claims_in_turn(v, turn.action, local)
    &&& turn.action == (RoleActionView::Roll { fault: Fault::DropReply }) ==> v.role
        == Role::Contender && v.config.forced_recovery && !v.resumed
    &&& (v.place == RolePlace::Claiming || v.place == RolePlace::Renewing) ==> (
    turn.action matches RoleActionView::BeginBelief { horizon, .. } ==> local < horizon)
    &&& turn.action matches RoleActionView::LogWoke { ballot } ==> {
        &&& v.place == RolePlace::SuccessorReading
        &&& v.sighted matches Some(held)
        &&& held > ballot
        &&& event matches RoleEvent::Wrote(Some(wrote))
        &&& wrote > ballot
    }
    &&& turn.action matches RoleActionView::FencedWrite { within: None, .. } ==> v.place
        == RolePlace::LoggingWoke && event is Elapsed
}

proof fn sound_campaign(v: RoleView, event: RoleEvent, sim: nat, local: nat)
    requires
        v.place != RolePlace::Renewing,
    ensures
        sound(v, event, after_campaign(v, event, sim, local), sim, local),
{
    about_claims();
}

proof fn sound_service(v: RoleView, term: TermView, event: RoleEvent, sim: nat, local: nat)
    requires
        v.term == Some(term),
        v.place != RolePlace::Claiming,
    ensures
        sound(v, event, after_service(v, term, event, local), sim, local),
{
    about_turned();
    reveal(renewed);
    reveal(resign_rolled);
    reveal(stepping_down);
    reveal(resigned);
}

proof fn sound_sleep(v: RoleView, event: RoleEvent, sim: nat, local: nat)
    requires
        v.place != RolePlace::Claiming,
        v.place != RolePlace::Renewing,
    ensures
        sound(v, event, after_sleep(v, event, sim, local), sim, local),
{
    about_contending();
}

proof fn sound_rest(v: RoleView, event: RoleEvent, sim: nat, local: nat)
    requires
        v.place != RolePlace::Claiming,
        v.place != RolePlace::Renewing,
    ensures
        sound(v, event, after_rest(v, event, sim, local), sim, local),
{
    about_contending();
    reveal(beginning);
}

proof fn sound_step(v: RoleView, event: RoleEvent, sim: nat, local: nat)
    ensures
        sound(v, event, scripted(v, event, sim, local), sim, local),
{
    let quiet = RoleView { note: None, ..v };
    match v.place {
        RolePlace::Claiming
        | RolePlace::RollingDrop
        | RolePlace::DrawingDelay
        | RolePlace::LoggingUnknown
        | RolePlace::Believing => sound_campaign(quiet, event, sim, local),
        RolePlace::Renewing
        | RolePlace::BelievingOn
        | RolePlace::EndingLost
        | RolePlace::RollingCrash
        | RolePlace::Outlasting
        | RolePlace::RollingResign
        | RolePlace::EndingTerm { .. }
        | RolePlace::Resigning { .. }
        | RolePlace::Fencing => {
            if v.term is Some {
                sound_service(quiet, v.term->Some_0, event, sim, local);
            }
        },
        RolePlace::SleepDrawing
        | RolePlace::SleepPacing
        | RolePlace::Pausing
        | RolePlace::SuccessorSighting
        | RolePlace::SuccessorReading
        | RolePlace::SuccessorDrawing
        | RolePlace::SuccessorPacing
        | RolePlace::LoggingWoke
        | RolePlace::StaleWriting
        | RolePlace::StaleRenewing => sound_sleep(quiet, event, sim, local),
        _ => sound_rest(quiet, event, sim, local),
    }
}

/// A client works under a term only while it believes, and gives the work no more time
/// than the belief has left.
pub proof fn work_ends_with_the_belief(v: RoleView, event: RoleEvent, sim: nat, local: nat)
    ensures
        scripted(v, event, sim, local).action matches RoleActionView::FencedWrite {
            ballot,
            sequence,
            within: Some(left),
        } ==> {
            &&& v.term matches Some(term)
            &&& ballot == term.ballot
            &&& local < term.horizon
            &&& local + left == term.horizon
        },
{
    sound_step(v, event, sim, local);
}

/// The end of a belief is written down only while the belief lasts.
pub proof fn a_belief_is_closed_while_it_lasts(v: RoleView, event: RoleEvent, sim: nat, local: nat)
    ensures
        scripted(v, event, sim, local).action is EndBelief ==> {
            &&& scripted(v, event, sim, local).script.term matches Some(term)
            &&& local < term.horizon
        },
{
    sound_step(v, event, sim, local);
}

/// A belief that is written down has not run out.
pub proof fn a_belief_begins_before_its_horizon(v: RoleView, event: RoleEvent, sim: nat, local: nat)
    requires
        v.place == RolePlace::Claiming || v.place == RolePlace::Renewing,
    ensures
        scripted(v, event, sim, local).action matches RoleActionView::BeginBelief { horizon, .. }
            ==> local < horizon,
{
    sound_step(v, event, sim, local);
}

/// A term is handed back only once its belief was closed or has run out.
pub proof fn a_term_is_handed_back_closed(v: RoleView, event: RoleEvent, sim: nat, local: nat)
    ensures
        scripted(v, event, sim, local).action is Resign ==> v.place is EndingTerm || (
        v.term matches Some(term) && local >= term.horizon),
{
    sound_step(v, event, sim, local);
}

/// A client comes to hold a term only by having written its belief down.
pub proof fn a_term_is_held_by_belief(v: RoleView, event: RoleEvent, sim: nat, local: nat)
    ensures
        v.term is None && scripted(v, event, sim, local).script.term is Some ==> v.place
            == RolePlace::Believing && event is Elapsed,
{
    sound_step(v, event, sim, local);
}

/// Nobody claims once the run is over.
pub proof fn nobody_claims_after_the_run(v: RoleView, event: RoleEvent, sim: nat, local: nat)
    ensures
        scripted(v, event, sim, local).action is Claim ==> sim < v.deadline,
{
    sound_step(v, event, sim, local);
}

/// While a thrown-away reply is unresolved nobody takes up a fresh attempt: the next
/// claim resumes the one that was left, under its own number, and not before it is due.
pub proof fn an_unresolved_attempt_is_resumed(
    v: RoleView,
    event: RoleEvent,
    sim: nat,
    local: nat,
    due: nat,
)
    requires
        v.resume_at == Some(due),
    ensures
        scripted(v, event, sim, local).action matches RoleActionView::Claim { resumed, attempt_id }
            ==> resumed && attempt_id == v.attempt_id && due <= local,
{
    sound_step(v, event, sim, local);
}

/// Every attempt that is not resumed has a number of its own, the next one.
pub proof fn a_fresh_attempt_has_the_next_number(
    v: RoleView,
    event: RoleEvent,
    sim: nat,
    local: nat,
)
    requires
        v.attempt_id < u64::MAX,
    ensures
        scripted(v, event, sim, local).action matches RoleActionView::Claim { resumed, attempt_id }
            ==> !resumed ==> attempt_id == v.attempt_id + 1,
{
    sound_step(v, event, sim, local);
}

/// Only a contender of a run that asks for it throws a reply away, and only the reply
/// to a fresh attempt.
pub proof fn only_contenders_drop_replies(v: RoleView, event: RoleEvent, sim: nat, local: nat)
    ensures
        scripted(v, event, sim, local).action == (RoleActionView::Roll { fault: Fault::DropReply })
            ==> v.role == Role::Contender && v.config.forced_recovery && !v.resumed,
{
    sound_step(v, event, sim, local);
}

/// A paused client says that its stale operations are owed only once a successor has
/// both taken the term and written under it.
pub proof fn the_marker_waits_for_a_successor(v: RoleView, event: RoleEvent, sim: nat, local: nat)
    ensures
        scripted(v, event, sim, local).action matches RoleActionView::LogWoke { ballot } ==> {
            &&& v.place == RolePlace::SuccessorReading
            &&& v.sighted matches Some(held)
            &&& held > ballot
            &&& event matches RoleEvent::Wrote(Some(wrote))
            &&& wrote > ballot
        },
{
    sound_step(v, event, sim, local);
}

/// Nothing is written under a term that is over but what was announced first.
pub proof fn a_stale_write_is_announced(v: RoleView, event: RoleEvent, sim: nat, local: nat)
    ensures
        scripted(v, event, sim, local).action matches RoleActionView::FencedWrite {
            within: None,
            ..
        } ==> v.place == RolePlace::LoggingWoke && event is Elapsed,
{
    sound_step(v, event, sim, local);
}

/// Whoever has announced its stale operations tries both, at the ballot it announced:
/// the write as soon as the announcement is logged, the renewal as soon as the write
/// came back.
pub proof fn both_stale_operations_are_tried(
    v: RoleView,
    term: TermView,
    work: Work,
    sim: nat,
    local: nat,
    sim_later: nat,
    local_later: nat,
)
    requires
        v.place == RolePlace::LoggingWoke,
        v.term == Some(term),
    ensures
        ({
            let write = scripted(v, RoleEvent::Elapsed, sim, local);
            let renewal = scripted(write.script, RoleEvent::Worked(work), sim_later, local_later);
            &&& write.action == (RoleActionView::FencedWrite {
                ballot: term.ballot,
                sequence: (term.sequence + 1) as u32,
                within: None,
            })
            &&& renewal.action is Renew
            &&& renewal.script.term == Some(term)
        }),
{
}

/// A client that is done stays done.
pub proof fn done_is_done(v: RoleView, event: RoleEvent, sim: nat, local: nat)
    requires
        v.place == RolePlace::Done,
    ensures
        scripted(v, event, sim, local).action is Finish,
        scripted(v, event, sim, local).script.place == RolePlace::Done,
{
}

} // verus!
