//! What a recorder of the scheduler writes down, call by call.

use vstd::prelude::*;

use crate::history::{HistoryEvent, Operation};
use crate::model::run::{can_call, Call};
use crate::model::state::{ReportState, SchedulerState};
use crate::oracle::fold::FoldState;
use crate::types::{
    GroupAvailability, GroupId, Offer, OfferOutcome, PassIndex, PassProgress, ReadinessSignal,
    SchedulerConfig, ServiceRecord, TickIndex, WorkId,
};

verus! {

/// What one event of a history states.
#[verifier::ext_equal]
pub enum Decision {
    /// An operation was invoked.
    Invoked {
        /// The operation.
        operation: Operation,
    },
    /// A group's availability was reported.
    Reported {
        /// At this tick.
        tick: TickIndex,
        /// The group.
        group: GroupId,
        /// Its availability.
        availability: GroupAvailability,
    },
    /// A group's worker came free.
    Released {
        /// At this tick.
        tick: TickIndex,
        /// The group.
        group: GroupId,
    },
    /// A plan was armed.
    Armed {
        /// Its pass.
        pass: PassIndex,
        /// At this tick.
        tick: TickIndex,
        /// Groups owed a turn.
        plan: Seq<GroupId>,
    },
    /// A turn was offered.
    Offered {
        /// The pass.
        pass: PassIndex,
        /// At this tick.
        tick: TickIndex,
        /// The group.
        group: GroupId,
        /// What the group did with it.
        outcome: OfferOutcome,
    },
    /// An item was serviced.
    Serviced {
        /// The pass.
        pass: PassIndex,
        /// The group.
        group: GroupId,
        /// The item.
        work: WorkId,
    },
    /// A plan was retired.
    Retired {
        /// Its pass.
        pass: PassIndex,
        /// At this tick.
        tick: TickIndex,
    },
    /// A caller concluded something.
    Observed,
}

/// What an event states.
pub open spec fn stated(event: HistoryEvent) -> Decision {
    match event {
        HistoryEvent::Invoked { operation, .. } => Decision::Invoked { operation },
        HistoryEvent::AvailabilityReported { tick, group, availability } => Decision::Reported {
            tick,
            group,
            availability,
        },
        HistoryEvent::WorkerReleased { tick, group } => Decision::Released { tick, group },
        HistoryEvent::PassArmed { pass, tick, plan } => Decision::Armed { pass, tick, plan: plan@ },
        HistoryEvent::GroupOffered { pass, tick, group, outcome } => Decision::Offered {
            pass,
            tick,
            group,
            outcome,
        },
        HistoryEvent::WorkServiced { pass, group, work } => Decision::Serviced { pass, group, work },
        HistoryEvent::PassCompleted { pass, tick } => Decision::Retired { pass, tick },
        HistoryEvent::Completed { .. } => Decision::Observed,
        HistoryEvent::Unknown { .. } => Decision::Observed,
        HistoryEvent::NotAdmitted { .. } => Decision::Observed,
    }
}

/// What a history states, without what callers concluded.
pub open spec fn statements(log: Seq<HistoryEvent>) -> Seq<Decision>
    decreases log.len(),
{
    if log.len() == 0 {
        Seq::empty()
    } else {
        let rest = statements(log.drop_last());
        if stated(log.last()) is Observed {
            rest
        } else {
            rest.push(stated(log.last()))
        }
    }
}

/// The fold once it has taken in what an event states.
pub open(crate) spec fn taken(f: FoldState, decision: Decision) -> FoldState {
    let s = f.settled();
    match decision {
        Decision::Invoked { operation } => s.invoked(operation),
        Decision::Reported { tick, group, availability } => s.reached(tick).availability(
            group,
            availability,
        ),
        Decision::Released { tick, group } => s.released(tick, group),
        Decision::Armed { pass, tick, plan } => s.reached(tick).armed(pass, tick, plan),
        Decision::Offered { pass, tick, group, outcome } => s.reached(tick).offered(
            pass,
            tick,
            group,
            outcome,
        ),
        Decision::Serviced { pass, group, work } => if f.recording is Some
            && f.recording->0.group == group {
            f.service(pass, group, work)
        } else {
            s.service(pass, group, work)
        },
        Decision::Retired { pass, tick } => s.reached(tick).completed(pass, tick),
        Decision::Observed => f,
    }
}

/// The fold once it has taken in all of these, in order.
pub open(crate) spec fn all_taken(f: FoldState, decisions: Seq<Decision>) -> FoldState
    decreases decisions.len(),
{
    if decisions.len() == 0 {
        f
    } else {
        taken(all_taken(f, decisions.drop_last()), decisions.last())
    }
}

/// Taking in two lists one after the other is taking in both.
pub proof fn lemma_all_taken(f: FoldState, a: Seq<Decision>, b: Seq<Decision>)
    ensures
        all_taken(f, a + b) == all_taken(all_taken(f, a), b),
    decreases b.len(),
{
    if b.len() == 0 {
        assert(a + b =~= a);
    } else {
        assert((a + b).drop_last() =~= a + b.drop_last());
        assert((a + b).last() == b.last());
        lemma_all_taken(f, a, b.drop_last());
    }
}

/// A history folds to what its statements fold to.
pub proof fn lemma_folded(config: SchedulerConfig, log: Seq<HistoryEvent>)
    ensures
        FoldState::folded(config, log) == all_taken(FoldState::initial(config), statements(log)),
    decreases log.len(),
{
    if log.len() > 0 {
        let rest = log.drop_last();
        lemma_folded(config, rest);
        let f = FoldState::folded(config, rest);
        let event = log.last();
        assert(f.absorbed(event) == taken(f, stated(event)));
        if !(stated(event) is Observed) {
            assert(statements(log).drop_last() =~= statements(rest));
        }
    }
}

// ------------------------------------------------------------------ recording

/// What is recorded of these services.
pub open spec fn services_recorded(pass: PassIndex, records: Seq<ServiceRecord>) -> Seq<Decision> {
    Seq::new(
        records.len(),
        |i: int| Decision::Serviced { pass, group: records[i].group, work: records[i].work },
    )
}

/// Number of items a turn states it serviced.
pub open spec fn turn_size(outcome: OfferOutcome) -> int {
    match outcome {
        OfferOutcome::Dispatched { serviced, .. } => serviced as int,
        OfferOutcome::Skipped(_) => 0,
    }
}

/// What is recorded of these turns: each, followed by what it serviced.
pub open spec fn turns_recorded(
    pass: PassIndex,
    tick: TickIndex,
    offers: Seq<Offer>,
    serviced: Seq<ServiceRecord>,
) -> Seq<Decision>
    decreases offers.len(),
{
    if offers.len() == 0 {
        Seq::empty()
    } else {
        let last = offers.last();
        let cut = serviced.len() - turn_size(last.outcome);
        turns_recorded(pass, tick, offers.drop_last(), serviced.take(cut)) + seq![
            Decision::Offered { pass, tick, group: last.group, outcome: last.outcome },
        ] + services_recorded(pass, serviced.skip(cut))
    }
}

/// What is recorded of these readiness reports.
pub open(crate) spec fn signals_recorded(tick: TickIndex, signals: Seq<ReadinessSignal>) -> Seq<Decision> {
    Seq::new(
        signals.len(),
        |i: int|
            Decision::Reported {
                tick,
                group: signals[i].group,
                availability: signals[i].availability,
            },
    )
}

/// What is recorded of these releases.
pub open spec fn releases_recorded(tick: TickIndex, released: Seq<GroupId>) -> Seq<Decision> {
    Seq::new(released.len(), |i: int| Decision::Released { tick, group: released[i] })
}

/// What is recorded of an armed plan, when there is one.
pub open spec fn arming_recorded(pass: PassIndex, tick: TickIndex, armed: Option<Seq<GroupId>>) -> Seq<
    Decision,
> {
    match armed {
        Some(plan) => seq![Decision::Armed { pass, tick, plan }],
        None => Seq::empty(),
    }
}

/// What is recorded of a plan's end, when it came.
pub open spec fn retirement_recorded(
    pass: PassIndex,
    tick: TickIndex,
    progress: PassProgress,
) -> Seq<Decision> {
    if progress is Completed {
        seq![Decision::Retired { pass, tick }]
    } else {
        Seq::empty()
    }
}

/// What is recorded of a tick: its readiness reports, the workers that came free, the plan that was
/// armed, the turns with what they serviced, and the end of the pass.
pub open(crate) spec fn step_recorded(signals: Seq<ReadinessSignal>, report: ReportState) -> Seq<
    Decision,
> {
    let tick = TickIndex(report.tick);
    let pass = report.pass->0;
    signals_recorded(tick, signals) + releases_recorded(tick, report.released) + arming_recorded(
        pass,
        tick,
        report.armed,
    ) + turns_recorded(pass, tick, report.offers, report.serviced) + retirement_recorded(
        pass,
        tick,
        report.progress,
    )
}

/// What is recorded of a call.
pub open(crate) spec fn recorded(s: SchedulerState, call: Call) -> Seq<Decision> {
    match call {
        Call::Invoke { operation } => seq![Decision::Invoked { operation }],
        Call::Step { signals } => step_recorded(signals, s.stepped(signals).1),
    }
}

/// Tick the scheduler stands at.
pub open(crate) spec fn clock(s: SchedulerState) -> TickIndex {
    TickIndex(s.tick)
}

/// The call can be made, and leaves one tick of the clock in reserve, so that a worker's cost is paid
/// after the tick of its turn.
pub open(crate) spec fn can_record(s: SchedulerState, call: Call) -> bool {
    &&& can_call(s, call)
    &&& call is Step ==> s.tick < u64::MAX - 1
}

} // verus!
