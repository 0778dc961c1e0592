//! The order in which the process works: recovery, requests, peer frames, ticks, deadlines and
//! dispatches, each bounded, until a client asks it to stop.

use vstd::prelude::*;

verus! {

/// Most requests of a cycle.
pub const MAX_JOBS_PER_LOOP: usize = 64;

/// Most peer frames of a cycle.
pub const MAX_PEERS_PER_LOOP: usize = 512;

/// Most dispatches of a cycle.
pub const MAX_DISPATCHES_PER_LOOP: usize = 512;

/// What the process does next.
#[derive(Clone, Copy, Debug, Eq, PartialEq, Structural)]
pub enum CyclePhase {
    /// Recorded operations that nobody carries are taken up.
    Recover,
    /// A request is taken.
    Receive {
        /// Requests that are left in this cycle, this one included.
        left: usize,
    },
    /// Peer frames are taken.
    Peers,
    /// The clock is read.
    Clock,
    /// Groups tick.
    Ticks,
    /// Deadlines are looked at.
    Expire,
    /// Delayed dispatches that are due are executed.
    Release,
    /// A pass is armed, unless one is.
    Arm,
    /// The next dispatch of the pass begins.
    Dispatch {
        /// Dispatches that are left in this cycle, this one included.
        left: usize,
    },
    /// It is looked whether every group is ready.
    Announce,
    /// The process finishes: waiting clients are answered.
    Finish,
    /// The process ends with a failure.
    Failed,
}

/// What a step gave.
#[derive(Clone, Copy, Debug, Eq, PartialEq, Structural)]
pub enum CycleEvent {
    /// It is done.
    Done,
    /// A request was handled.
    Handled {
        /// It asked the process to stop.
        stopping: bool,
    },
    /// No request waits.
    Empty,
    /// The time, in milliseconds.
    Time {
        /// Now.
        now: u64,
    },
    /// A dispatch was executed or held, or a group skipped.
    Turned,
    /// The pass is over, none is armed, or every worker is occupied.
    PassEnded,
    /// What was seen at the end of the cycle.
    Looked {
        /// Every active group is ready.
        ready: bool,
        /// Recovery is not paused.
        recovering: bool,
    },
    /// The step failed.
    Failed,
}

/// The process's loop.
#[derive(Clone, Copy, Debug, Eq, PartialEq, Structural)]
pub struct Cycle {
    /// Milliseconds between ticks.
    pub interval: u64,
    /// When groups tick next.
    pub next_tick: u64,
    /// The readiness was announced.
    pub announced: bool,
    /// What the process does next.
    pub phase: CyclePhase,
}

impl Cycle {
    /// Counts are not used up.
    pub open spec fn valid(self) -> bool {
        match self.phase {
            CyclePhase::Receive { left } => 0 < left <= MAX_JOBS_PER_LOOP,
            CyclePhase::Dispatch { left } => 0 < left <= MAX_DISPATCHES_PER_LOOP,
            _ => true,
        }
    }

    /// The event answers the phase.
    pub open spec fn fits(self, event: CycleEvent) -> bool {
        match self.phase {
            CyclePhase::Finish | CyclePhase::Failed => false,
            CyclePhase::Receive { .. } => event is Handled || event is Empty || event is Failed,
            CyclePhase::Clock => event matches CycleEvent::Time { now } && now + self.interval
                <= u64::MAX,
            CyclePhase::Dispatch { .. } => event is Turned || event is PassEnded || event is Failed,
            CyclePhase::Announce => event is Looked,
            _ => event is Done || event is Failed,
        }
    }

    /// Another phase.
    pub open spec fn at(self, phase: CyclePhase) -> Self {
        Cycle { phase, ..self }
    }

    /// The phase after one that gives nothing.
    pub open spec fn following(self) -> CyclePhase {
        match self.phase {
            CyclePhase::Recover => CyclePhase::Receive { left: MAX_JOBS_PER_LOOP },
            CyclePhase::Peers => CyclePhase::Clock,
            CyclePhase::Ticks => CyclePhase::Expire,
            CyclePhase::Expire => CyclePhase::Release,
            CyclePhase::Release => CyclePhase::Arm,
            CyclePhase::Arm => CyclePhase::Dispatch { left: MAX_DISPATCHES_PER_LOOP },
            other => other,
        }
    }

    /// The loop after an event.
    pub open spec fn after(self, event: CycleEvent) -> Self {
        match (self.phase, event) {
            (_, CycleEvent::Failed) => self.at(CyclePhase::Failed),
            (_, CycleEvent::Done) => self.at(self.following()),
            (CyclePhase::Receive { left }, CycleEvent::Handled { stopping }) => self.at(
                if stopping {
                    CyclePhase::Finish
                } else if left == 1 {
                    CyclePhase::Peers
                } else {
                    CyclePhase::Receive { left: (left - 1) as usize }
                },
            ),
            (_, CycleEvent::Empty) => self.at(CyclePhase::Peers),
            (_, CycleEvent::Time { now }) => if now >= self.next_tick {
                Cycle {
                    next_tick: (now + self.interval) as u64,
                    phase: CyclePhase::Ticks,
                    ..self
                }
            } else {
                self.at(CyclePhase::Expire)
            },
            (CyclePhase::Dispatch { left }, CycleEvent::Turned) => self.at(
                if left == 1 {
                    CyclePhase::Announce
                } else {
                    CyclePhase::Dispatch { left: (left - 1) as usize }
                },
            ),
            (_, CycleEvent::PassEnded) => self.at(CyclePhase::Announce),
            (_, CycleEvent::Looked { ready, recovering }) => Cycle {
                announced: self.announced || ready,
                phase: if recovering {
                    CyclePhase::Recover
                } else {
                    CyclePhase::Receive { left: MAX_JOBS_PER_LOOP }
                },
                ..self
            },
            _ => self,
        }
    }

    /// Starts the loop: recovery comes first, and groups tick as soon as the clock is read.
    pub fn new(interval: u64, now: u64) -> (r: Self)
        ensures
            r.valid(),
            r == (Cycle {
                interval,
                next_tick: now,
                announced: false,
                phase: CyclePhase::Recover,
            }),
    {
        Self { interval, next_tick: now, announced: false, phase: CyclePhase::Recover }
    }

    /// Returns whether the clock can be read at this time.
    pub fn takes_time(self, now: u64) -> (r: bool)
        ensures
            r == (now + self.interval <= u64::MAX),
    {
        now <= u64::MAX - self.interval
    }

    fn follow(self) -> (r: CyclePhase)
        ensures
            r == self.following(),
    {
        match self.phase {
            CyclePhase::Recover => CyclePhase::Receive { left: MAX_JOBS_PER_LOOP },
            CyclePhase::Peers => CyclePhase::Clock,
            CyclePhase::Ticks => CyclePhase::Expire,
            CyclePhase::Expire => CyclePhase::Release,
            CyclePhase::Release => CyclePhase::Arm,
            CyclePhase::Arm => CyclePhase::Dispatch { left: MAX_DISPATCHES_PER_LOOP },
            other => other,
        }
    }

    /// Decides what the process does after an event.
    pub fn advance(self, event: CycleEvent) -> (r: Self)
        requires
            self.valid(),
            self.fits(event),
        ensures
            r == self.after(event),
            r.valid(),
    {
        match event {
            CycleEvent::Failed => Cycle { phase: CyclePhase::Failed, ..self },
            CycleEvent::Done => Cycle { phase: self.follow(), ..self },
            CycleEvent::Handled { stopping } => {
                let left: usize = match self.phase {
                    CyclePhase::Receive { left } => left,
                    _ => 1,
                };
                Cycle {
                    phase: if stopping {
                        CyclePhase::Finish
                    } else if left == 1 {
                        CyclePhase::Peers
                    } else {
                        CyclePhase::Receive { left: left - 1 }
                    },
                    ..self
                }
            },
            CycleEvent::Empty => Cycle { phase: CyclePhase::Peers, ..self },
            CycleEvent::Time { now } => if now >= self.next_tick {
                Cycle { next_tick: now + self.interval, phase: CyclePhase::Ticks, ..self }
            } else {
                Cycle { phase: CyclePhase::Expire, ..self }
            },
            CycleEvent::Turned => {
                let left: usize = match self.phase {
                    CyclePhase::Dispatch { left } => left,
                    _ => 1,
                };
                Cycle {
                    phase: if left == 1 {
                        CyclePhase::Announce
                    } else {
                        CyclePhase::Dispatch { left: left - 1 }
                    },
                    ..self
                }
            },
            CycleEvent::PassEnded => Cycle { phase: CyclePhase::Announce, ..self },
            CycleEvent::Looked { ready, recovering } => Cycle {
                announced: self.announced || ready,
                phase: if recovering {
                    CyclePhase::Recover
                } else {
                    CyclePhase::Receive { left: MAX_JOBS_PER_LOOP }
                },
                ..self
            },
        }
    }
}

// ---------------------------------------------------------------------- laws

/// The process finishes exactly when a client asked it to stop.
pub proof fn law_process_finishes_on_request(cycle: Cycle, event: CycleEvent)
    requires
        cycle.valid(),
        cycle.fits(event),
    ensures
        cycle.after(event).phase is Finish <==> event == (CycleEvent::Handled { stopping: true }),
{
}

/// The readiness is announced once: it never turns back.
pub proof fn law_readiness_is_announced_once(cycle: Cycle, event: CycleEvent)
    requires
        cycle.valid(),
        cycle.fits(event),
    ensures
        cycle.announced ==> cycle.after(event).announced,
        cycle.after(event).announced && !cycle.announced ==> event is Looked
            && event->Looked_ready,
{
}

/// Groups tick no more often than once in an interval: the next tick is an interval after this one.
pub proof fn law_ticks_keep_their_interval(cycle: Cycle, event: CycleEvent)
    requires
        cycle.valid(),
        cycle.fits(event),
        cycle.after(event).phase is Ticks,
    ensures
        event matches CycleEvent::Time { now } && now >= cycle.next_tick && cycle.after(
            event,
        ).next_tick == now + cycle.interval,
{
}

} // verus!
