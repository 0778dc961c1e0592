//! What an event of a history is about.

use vstd::prelude::*;

use crate::history::{HistoryEvent, OperationId};
use crate::types::{PassIndex, TickIndex};

verus! {

/// An operation's events name it, the invocation first and one of three ends after it, and no other
/// event does.
pub proof fn law_operations_are_named_by_their_events(
    event: HistoryEvent,
    named: Option<OperationId>,
    asks: bool,
    ends: bool,
)
    requires
        call_ensures(HistoryEvent::operation_id, (&event,), named),
        call_ensures(HistoryEvent::is_request, (&event,), asks),
        call_ensures(HistoryEvent::is_observation, (&event,), ends),
    ensures
        named is Some <==> asks || ends,
        !(asks && ends),
        event matches HistoryEvent::Invoked { operation_id, .. } ==> asks && named == Some(
            operation_id,
        ),
        event matches HistoryEvent::Completed { operation_id, .. } ==> ends && named == Some(
            operation_id,
        ),
        event matches HistoryEvent::Unknown { operation_id } ==> ends && named == Some(operation_id),
        event matches HistoryEvent::NotAdmitted { operation_id } ==> ends && named == Some(
            operation_id,
        ),
{
}

/// What happens in a pass names the pass. What the scheduler does at a time names the time, but a
/// service, which is part of the turn's time.
pub proof fn law_passes_and_times_are_named(
    event: HistoryEvent,
    pass: Option<PassIndex>,
    tick: Option<TickIndex>,
)
    requires
        call_ensures(HistoryEvent::pass, (&event,), pass),
        call_ensures(HistoryEvent::tick, (&event,), tick),
    ensures
        event matches HistoryEvent::PassArmed { pass: p, tick: t, .. } ==> pass == Some(p) && tick
            == Some(t),
        event matches HistoryEvent::GroupOffered { pass: p, tick: t, .. } ==> pass == Some(p) && tick
            == Some(t),
        event matches HistoryEvent::PassCompleted { pass: p, tick: t } ==> pass == Some(p) && tick
            == Some(t),
        event matches HistoryEvent::WorkServiced { pass: p, .. } ==> pass == Some(p) && tick is None,
        event matches HistoryEvent::AvailabilityReported { tick: t, .. } ==> pass is None && tick
            == Some(t),
        event matches HistoryEvent::WorkerReleased { tick: t, .. } ==> pass is None && tick == Some(t),
        event is Invoked || event is Completed || event is Unknown || event is NotAdmitted ==> pass
            is None && tick is None,
{
}

} // verus!
