//! Recorded histories: what was asked for, what the scheduler decided, and what callers observed.

pub mod laws;

use vstd::prelude::*;

use crate::types::{
    AdmissionOutcome, ClientId, CounterResult, GroupAvailability, GroupId, GroupIncarnation,
    LifecycleOutcome, LifecycleRequest, OfferOutcome, PassIndex, RequestIdentity, SessionEpoch,
    SessionOutcome, TickIndex, Work, WorkFailure, WorkId,
};

verus! {

/// Stable identifier for one client- or operator-visible operation.
#[derive(Clone, Copy, Debug, Eq, Ord, PartialEq, PartialOrd, Structural)]
pub struct OperationId(pub(crate) u64);

impl OperationId {
    /// The number this identifier stands for.
    pub open(crate) spec fn view(self) -> u64 {
        self.0
    }

    /// Creates an operation identifier.
    pub fn new(value: u64) -> (r: Self)
        ensures
            r@ == value,
    {
        Self(value)
    }

    /// Returns the numeric identifier.
    pub fn get(self) -> (r: u64)
        ensures
            r == self@,
    {
        self.0
    }
}

/// One operation a client or operator asked for.
#[derive(Clone, Copy, Debug, Eq, PartialEq, Structural)]
pub enum Operation {
    /// Opening or advancing a client session inside a group.
    OpenSession {
        /// Group the session belongs to.
        group: GroupId,
        /// Incarnation the caller addressed.
        incarnation: GroupIncarnation,
        /// Client slot.
        client_id: ClientId,
        /// Generation the caller asked for.
        session_epoch: SessionEpoch,
    },
    /// Submitting one unit of work.
    Submit {
        /// Group the work is for.
        group: GroupId,
        /// Incarnation the caller addressed.
        incarnation: GroupIncarnation,
        /// Exact work submitted.
        work: Work,
    },
    /// Requesting an administrative lifecycle transition.
    Lifecycle {
        /// Group the request concerns.
        group: GroupId,
        /// Transition requested.
        request: LifecycleRequest,
    },
}

impl Operation {
    /// Returns the group the operation addressed.
    #[verifier::allow_in_spec]
    pub fn group(self) -> GroupId
        returns
            (match self {
                Operation::OpenSession { group, .. } => group,
                Operation::Submit { group, .. } => group,
                Operation::Lifecycle { group, .. } => group,
            }),
    {
        match self {
            Operation::OpenSession { group, .. } => group,
            Operation::Submit { group, .. } => group,
            Operation::Lifecycle { group, .. } => group,
        }
    }

    /// Returns the request identity a counter submission carried. Retries share one.
    #[verifier::allow_in_spec]
    pub fn request_identity(self) -> Option<RequestIdentity>
        returns
            (match self {
                Operation::Submit { work, .. } => work.request_identity(),
                Operation::OpenSession { .. } => None,
                Operation::Lifecycle { .. } => None,
            }),
    {
        match self {
            Operation::Submit { work, .. } => work.request_identity(),
            Operation::OpenSession { .. } => None,
            Operation::Lifecycle { .. } => None,
        }
    }
}

/// What an operation was observed to produce.
#[derive(Clone, Copy, Debug, Eq, PartialEq, Structural)]
pub enum OperationOutcome {
    /// A session request was answered.
    Session(SessionOutcome),
    /// A lifecycle request was answered.
    Lifecycle(LifecycleOutcome),
    /// A submission was answered at the admission gate.
    Admission(AdmissionOutcome),
    /// Queued work was serviced. Only command-class work carries a result.
    Serviced(Option<CounterResult>),
    /// Queued work was retired without service.
    Failed(WorkFailure),
}

/// A recorded event. Position in a history is the real-time order.
///
/// An observer that folds the requests and the decisions can recompute every answer for itself;
/// one that folded the observations would copy the conclusions it is supposed to check.
#[derive(Clone, Debug, Eq, PartialEq)]
pub enum HistoryEvent {
    /// A caller invoked an operation.
    Invoked {
        /// Operation identity unique within the history.
        operation_id: OperationId,
        /// Exact operation the caller issued.
        operation: Operation,
    },
    /// A caller observed a terminal outcome, deterministic refusals among them.
    Completed {
        /// Operation identity from the matching invocation.
        operation_id: OperationId,
        /// Outcome the caller observed.
        outcome: OperationOutcome,
    },
    /// The caller could not tell what the operation did.
    Unknown {
        /// Operation identity from the matching invocation.
        operation_id: OperationId,
    },
    /// The submission provably never took a queue slot.
    NotAdmitted {
        /// Operation identity from the matching invocation.
        operation_id: OperationId,
    },
    /// The host reported a group's external availability.
    AvailabilityReported {
        /// Tick the report was applied at.
        tick: TickIndex,
        /// Group the report concerns.
        group: GroupId,
        /// Availability the host observed.
        availability: GroupAvailability,
    },
    /// A worker's occupancy ended and its group may be dispatched again.
    WorkerReleased {
        /// Tick the worker came free at.
        tick: TickIndex,
        /// Group whose dispatch ended.
        group: GroupId,
    },
    /// A pass plan was armed from the ready set.
    PassArmed {
        /// Pass the plan belongs to.
        pass: PassIndex,
        /// Tick the plan was armed at.
        tick: TickIndex,
        /// Groups owed a turn, in offer order.
        plan: Vec<GroupId>,
    },
    /// A group in the armed plan took its turn.
    GroupOffered {
        /// Pass the turn belonged to.
        pass: PassIndex,
        /// Tick the turn was taken at.
        tick: TickIndex,
        /// Group whose turn it was.
        group: GroupId,
        /// What the group did with it.
        outcome: OfferOutcome,
    },
    /// One queued item was serviced within a group's turn.
    WorkServiced {
        /// Pass the turn belonged to.
        pass: PassIndex,
        /// Group that serviced it.
        group: GroupId,
        /// Item that was serviced.
        work: WorkId,
    },
    /// Every group in the plan took its turn and the plan retired.
    PassCompleted {
        /// Pass that retired.
        pass: PassIndex,
        /// Tick it retired at.
        tick: TickIndex,
    },
}

impl HistoryEvent {
    /// Returns the operation identity an operation event belongs to.
    pub fn operation_id(&self) -> (r: Option<OperationId>)
        ensures
            r == (match *self {
                HistoryEvent::Invoked { operation_id, .. } => Some(operation_id),
                HistoryEvent::Completed { operation_id, .. } => Some(operation_id),
                HistoryEvent::Unknown { operation_id } => Some(operation_id),
                HistoryEvent::NotAdmitted { operation_id } => Some(operation_id),
                _ => None,
            }),
    {
        match self {
            HistoryEvent::Invoked { operation_id, .. } => Some(*operation_id),
            HistoryEvent::Completed { operation_id, .. } => Some(*operation_id),
            HistoryEvent::Unknown { operation_id } => Some(*operation_id),
            HistoryEvent::NotAdmitted { operation_id } => Some(*operation_id),
            HistoryEvent::AvailabilityReported { .. }
            | HistoryEvent::WorkerReleased { .. }
            | HistoryEvent::PassArmed { .. }
            | HistoryEvent::GroupOffered { .. }
            | HistoryEvent::WorkServiced { .. }
            | HistoryEvent::PassCompleted { .. } => None,
        }
    }

    /// Returns whether the event records a caller's request.
    pub fn is_request(&self) -> (r: bool)
        ensures
            r == (*self is Invoked),
    {
        matches!(self, HistoryEvent::Invoked { .. })
    }

    /// Returns whether the event records a terminal outcome a caller observed.
    pub fn is_observation(&self) -> (r: bool)
        ensures
            r == observes(*self),
    {
        matches!(
            self,
            HistoryEvent::Completed { .. }
            | HistoryEvent::Unknown { .. }
            | HistoryEvent::NotAdmitted { .. }
        )
    }

    /// Returns the pass a scheduling event belongs to.
    pub fn pass(&self) -> (r: Option<PassIndex>)
        ensures
            r == (match *self {
                HistoryEvent::PassArmed { pass, .. } => Some(pass),
                HistoryEvent::GroupOffered { pass, .. } => Some(pass),
                HistoryEvent::WorkServiced { pass, .. } => Some(pass),
                HistoryEvent::PassCompleted { pass, .. } => Some(pass),
                _ => None,
            }),
    {
        match self {
            HistoryEvent::PassArmed { pass, .. } => Some(*pass),
            HistoryEvent::GroupOffered { pass, .. } => Some(*pass),
            HistoryEvent::WorkServiced { pass, .. } => Some(*pass),
            HistoryEvent::PassCompleted { pass, .. } => Some(*pass),
            HistoryEvent::Invoked { .. }
            | HistoryEvent::Completed { .. }
            | HistoryEvent::Unknown { .. }
            | HistoryEvent::NotAdmitted { .. }
            | HistoryEvent::AvailabilityReported { .. }
            | HistoryEvent::WorkerReleased { .. } => None,
        }
    }

    /// Returns the tick a scheduling decision was recorded at.
    pub fn tick(&self) -> (r: Option<TickIndex>)
        ensures
            r == (match *self {
                HistoryEvent::AvailabilityReported { tick, .. } => Some(tick),
                HistoryEvent::WorkerReleased { tick, .. } => Some(tick),
                HistoryEvent::PassArmed { tick, .. } => Some(tick),
                HistoryEvent::GroupOffered { tick, .. } => Some(tick),
                HistoryEvent::PassCompleted { tick, .. } => Some(tick),
                _ => None,
            }),
    {
        match self {
            HistoryEvent::AvailabilityReported { tick, .. } => Some(*tick),
            HistoryEvent::WorkerReleased { tick, .. } => Some(*tick),
            HistoryEvent::PassArmed { tick, .. } => Some(*tick),
            HistoryEvent::GroupOffered { tick, .. } => Some(*tick),
            HistoryEvent::PassCompleted { tick, .. } => Some(*tick),
            HistoryEvent::Invoked { .. }
            | HistoryEvent::Completed { .. }
            | HistoryEvent::Unknown { .. }
            | HistoryEvent::NotAdmitted { .. }
            | HistoryEvent::WorkServiced { .. } => None,
        }
    }
}

/// Number of submissions among these answers that took a queue slot.
pub open spec fn queued_answers(answers: Seq<OperationOutcome>) -> nat
    decreases answers.len(),
{
    if answers.len() == 0 {
        0
    } else {
        queued_answers(answers.drop_last()) + if is_queued(answers.last()) {
            1nat
        } else {
            0nat
        }
    }
}

/// The answer of a submission that took a queue slot.
pub open spec fn is_queued(answer: OperationOutcome) -> bool {
    answer matches OperationOutcome::Admission(outcome) && outcome is Queued
}

/// The event records a terminal outcome a caller observed.
pub open spec fn observes(event: HistoryEvent) -> bool {
    event is Completed || event is Unknown || event is NotAdmitted
}

} // verus!
