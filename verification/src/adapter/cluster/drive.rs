//! The order in which a cluster is driven: rounds of delayed dispatches, peer envelopes and managed
//! passes, until nothing moves or the budget is used up.

use vstd::prelude::*;

verus! {

/// How a run ended.
#[derive(Clone, Copy, Debug, Eq, PartialEq, Structural)]
pub enum DriveEnd {
    /// Nothing moves any more.
    Idle,
    /// The budget is used up.
    Exhausted {
        /// The budget.
        rounds: usize,
    },
    /// A step failed.
    Failed,
}

impl DriveEnd {
    /// Returns whether a single round that ended so stands: whatever it left, but for a failed
    /// step.
    pub fn completes_round(self) -> (r: bool)
        ensures
            r == !(self is Failed),
    {
        match self {
            DriveEnd::Idle | DriveEnd::Exhausted { .. } => true,
            DriveEnd::Failed => false,
        }
    }
}

/// What a run does next.
#[derive(Clone, Copy, Debug, Eq, PartialEq, Structural)]
pub enum DrivePhase {
    /// Poisoned groups are made available to the managed host, and held dispatches move a round
    /// closer.
    Restore,
    /// A dispatch whose delay ended is executed.
    Execute {
        /// Dispatches that are left, this one included.
        left: usize,
    },
    /// The envelopes that wait are counted.
    Measure,
    /// The oldest envelope is routed.
    Route {
        /// Envelopes that are left in this round, this one included.
        left: usize,
    },
    /// A pass is armed.
    Arm,
    /// The next dispatch of the pass begins.
    Dispatch,
    /// The round is over: what is left is looked at.
    Settle,
    /// The run is over.
    Ended {
        /// How.
        end: DriveEnd,
    },
}

/// What a step of a run gave.
#[derive(Clone, Copy, Debug, Eq, PartialEq, Structural)]
pub enum DriveEvent {
    /// Held dispatches moved: whether there were any, and how many came due.
    Progressed {
        /// There were held dispatches.
        held: bool,
        /// How many came due.
        due: usize,
    },
    /// A dispatch was executed.
    Executed,
    /// So many envelopes wait.
    Measured {
        /// How many.
        envelopes: usize,
    },
    /// An envelope was delivered, or its traffic refused.
    Routed,
    /// The managed host refused an envelope, which waits again.
    Returned,
    /// A pass is armed.
    Armed,
    /// There is nothing to do.
    Nothing,
    /// A turn was executed or held, or a group skipped.
    Turned,
    /// The pass is over, or every worker is occupied.
    PassEnded,
    /// What is left after the round: `quiet` where no envelope waits, no dispatch is held and no
    /// work is queued.
    Settled {
        /// Nothing is left.
        quiet: bool,
    },
    /// The step failed.
    Failed,
}

/// A run of a cluster.
#[derive(Clone, Copy, Debug, Eq, PartialEq, Structural)]
pub struct Drive {
    /// Rounds that it may take.
    pub budget: usize,
    /// Rounds that are left, this one included.
    pub left: usize,
    /// What it does next.
    pub phase: DrivePhase,
    /// Dispatches were held at the start of the round.
    pub delayed: bool,
}

impl Drive {
    /// The event answers the phase.
    pub open spec fn fits(self, event: DriveEvent) -> bool {
        match self.phase {
            DrivePhase::Restore => event is Progressed,
            DrivePhase::Execute { .. } => event is Executed || event is Failed,
            DrivePhase::Measure => event is Measured,
            DrivePhase::Route { .. } => event is Routed || event is Returned || event is Failed,
            DrivePhase::Arm => event is Armed || event is Nothing || event is Failed,
            DrivePhase::Dispatch => event is Turned || event is PassEnded || event is Nothing
                || event is Failed,
            DrivePhase::Settle => event is Settled,
            DrivePhase::Ended { .. } => false,
        }
    }

    /// Something is left to do of what the phase counts, and of the budget.
    pub open spec fn valid(self) -> bool {
        &&& self.left <= self.budget
        &&& !(self.phase is Ended) ==> self.left > 0
        &&& match self.phase {
            DrivePhase::Execute { left } => left > 0,
            DrivePhase::Route { left } => left > 0,
            DrivePhase::Ended { end: DriveEnd::Exhausted { rounds } } => rounds == self.budget,
            _ => true,
        }
    }

    /// A phase of the same round.
    pub open spec fn at(self, phase: DrivePhase) -> Self {
        Drive { phase, ..self }
    }

    /// Phase in which `left` due dispatches are left.
    pub open spec fn executing(left: int) -> DrivePhase {
        if left > 0 {
            DrivePhase::Execute { left: left as usize }
        } else {
            DrivePhase::Measure
        }
    }

    /// Phase in which `left` envelopes are left.
    pub open spec fn routing(left: int) -> DrivePhase {
        if left > 0 {
            DrivePhase::Route { left: left as usize }
        } else {
            DrivePhase::Arm
        }
    }

    /// The run after a round: it ends once a round in which dispatches were not held and no pass
    /// ran leaves nothing.
    pub open spec fn after_round(self, quiet: bool) -> Self {
        if quiet && !self.delayed {
            self.at(DrivePhase::Ended { end: DriveEnd::Idle })
        } else if self.left == 1 {
            self.at(DrivePhase::Ended { end: DriveEnd::Exhausted { rounds: self.budget } })
        } else {
            Drive { left: (self.left - 1) as usize, phase: DrivePhase::Restore, ..self }
        }
    }

    /// The run after an event.
    pub open spec fn after(self, event: DriveEvent) -> Self {
        match (self.phase, event) {
            (_, DriveEvent::Failed) => self.at(DrivePhase::Ended { end: DriveEnd::Failed }),
            (_, DriveEvent::Progressed { held, due }) => Drive {
                delayed: held,
                phase: Self::executing(due as int),
                ..self
            },
            (DrivePhase::Execute { left }, DriveEvent::Executed) => self.at(
                Self::executing(left - 1),
            ),
            (_, DriveEvent::Measured { envelopes }) => self.at(Self::routing(envelopes as int)),
            (DrivePhase::Route { left }, DriveEvent::Routed) => self.at(Self::routing(left - 1)),
            (_, DriveEvent::Returned) => self.at(DrivePhase::Arm),
            (_, DriveEvent::Armed) => self.at(DrivePhase::Dispatch),
            (_, DriveEvent::Turned) => self.at(DrivePhase::Dispatch),
            // A pass that ran is progress, so the round is not quiet whatever it leaves.
            (_, DriveEvent::PassEnded) => self.after_round(false),
            (_, DriveEvent::Nothing) => self.at(DrivePhase::Settle),
            (_, DriveEvent::Settled { quiet }) => self.after_round(quiet),
            _ => self,
        }
    }

    /// Starts a run that may take `budget` rounds.
    pub fn new(budget: usize) -> (r: Self)
        ensures
            r.valid(),
            r.budget == budget,
            r.left == budget,
            !r.delayed,
            r.phase == if budget == 0 {
                DrivePhase::Ended { end: DriveEnd::Exhausted { rounds: 0 } }
            } else {
                DrivePhase::Restore
            },
    {
        Self {
            budget,
            left: budget,
            phase: if budget == 0 {
                DrivePhase::Ended { end: DriveEnd::Exhausted { rounds: 0 } }
            } else {
                DrivePhase::Restore
            },
            delayed: false,
        }
    }

    fn end_round(self, quiet: bool) -> (r: Self)
        requires
            self.left > 0,
        ensures
            r == self.after_round(quiet),
    {
        if quiet && !self.delayed {
            Drive { phase: DrivePhase::Ended { end: DriveEnd::Idle }, ..self }
        } else if self.left == 1 {
            Drive {
                phase: DrivePhase::Ended { end: DriveEnd::Exhausted { rounds: self.budget } },
                ..self
            }
        } else {
            Drive { left: self.left - 1, phase: DrivePhase::Restore, ..self }
        }
    }

    /// Decides what a run does after an event.
    pub fn advance(self, event: DriveEvent) -> (r: Self)
        requires
            self.valid(),
            self.fits(event),
        ensures
            r == self.after(event),
            r.valid(),
    {
        match event {
            DriveEvent::Failed => Drive {
                phase: DrivePhase::Ended { end: DriveEnd::Failed },
                ..self
            },
            DriveEvent::Progressed { held, due } => Drive {
                delayed: held,
                phase: if due > 0 {
                    DrivePhase::Execute { left: due }
                } else {
                    DrivePhase::Measure
                },
                ..self
            },
            DriveEvent::Executed => {
                let left: usize = match self.phase {
                    DrivePhase::Execute { left } => left - 1,
                    _ => 0,
                };
                Drive {
                    phase: if left > 0 {
                        DrivePhase::Execute { left }
                    } else {
                        DrivePhase::Measure
                    },
                    ..self
                }
            },
            DriveEvent::Measured { envelopes } => Drive {
                phase: if envelopes > 0 {
                    DrivePhase::Route { left: envelopes }
                } else {
                    DrivePhase::Arm
                },
                ..self
            },
            DriveEvent::Routed => {
                let left: usize = match self.phase {
                    DrivePhase::Route { left } => left - 1,
                    _ => 0,
                };
                Drive {
                    phase: if left > 0 {
                        DrivePhase::Route { left }
                    } else {
                        DrivePhase::Arm
                    },
                    ..self
                }
            },
            DriveEvent::Returned => Drive { phase: DrivePhase::Arm, ..self },
            DriveEvent::Armed | DriveEvent::Turned => Drive {
                phase: DrivePhase::Dispatch,
                ..self
            },
            DriveEvent::PassEnded => self.end_round(false),
            DriveEvent::Nothing => Drive { phase: DrivePhase::Settle, ..self },
            DriveEvent::Settled { quiet } => self.end_round(quiet),
        }
    }
}

// ---------------------------------------------------------------------- laws

/// A run ends idle only after a round in which no dispatch was held, no pass ran and nothing was
/// left.
pub proof fn law_idle_run_left_nothing(drive: Drive, event: DriveEvent)
    requires
        drive.valid(),
        drive.fits(event),
        drive.after(event).phase == (DrivePhase::Ended { end: DriveEnd::Idle }),
    ensures
        event == (DriveEvent::Settled { quiet: true }),
        drive.phase is Settle,
        !drive.delayed,
{
}

/// A run takes no more rounds than its budget: every round that starts leaves one less, and the
/// budget is reported once none is left.
pub proof fn law_rounds_are_bounded(drive: Drive, event: DriveEvent)
    requires
        drive.valid(),
        drive.fits(event),
    ensures
        drive.after(event).budget == drive.budget,
        drive.after(event).left == drive.left || (drive.after(event).phase is Restore
            && drive.after(event).left == drive.left - 1),
        drive.after(event).phase is Restore ==> drive.after(event).left == drive.left - 1,
        drive.after(event).phase matches DrivePhase::Ended { end: DriveEnd::Exhausted { rounds } }
            ==> rounds == drive.budget && drive.left == 1,
{
}

/// A run with one round left never starts another: where the round is over the run is, and only a
/// failed step ends it before.
pub proof fn law_last_round_ends_the_run(drive: Drive, event: DriveEvent)
    requires
        drive.valid(),
        drive.fits(event),
        drive.left == 1,
    ensures
        !(drive.after(event).phase is Restore),
        event is PassEnded || event is Settled || event is Failed <==> drive.after(
            event,
        ).phase is Ended,
        drive.after(event).phase matches DrivePhase::Ended { end } ==> (end is Failed
            <==> event is Failed),
{
}

/// Within a round only envelopes that waited at its start are routed, each once: an envelope that
/// routing itself produces waits for the next round.
pub proof fn law_routing_takes_what_waited(drive: Drive, event: DriveEvent)
    requires
        drive.valid(),
        drive.fits(event),
        drive.after(event).phase is Route,
    ensures
        match drive.phase {
            DrivePhase::Measure => event == (DriveEvent::Measured {
                envelopes: drive.after(event).phase->Route_left,
            }),
            DrivePhase::Route { left } => event is Routed && drive.after(event).phase->Route_left
                == left - 1,
            _ => true,
        },
        drive.phase is Measure || drive.phase is Route,
{
}

} // verus!
