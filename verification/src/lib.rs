//! Sharded counter service: the contracts that a managed many-group scheduler has to meet, and the
//! decisions of the processes that run it.
//!
//! [`model::ManagedScheduler`] keeps live books and no history. [`oracle::ReferenceScheduler`] keeps
//! a history and no books, and judges what the history states. The two share the vocabulary of
//! [`types`] and [`history`] and nothing else. [`agreement`] proves that the judge, given a recorded
//! run of the scheduler, derives what the scheduler answered.
//!
//! Fairness is a safety property over pass plans: a group that stays ready is offered a turn in
//! every pass, and whether it was can be decided exactly.
//!
//! [`adapter`] is the replicated counter: its codecs, its state machine, and the decisions around a
//! managed group host. [`node`] is the durable process around it, [`profile`] the replayable load.
//! Input and output, the Raft groups and the managed host itself belong to the programs.

pub mod adapter;
pub mod agreement;
pub mod bytes;
pub mod checksum;
pub mod history;
pub mod layout;
pub mod message;
pub mod model;
pub mod node;
pub mod oracle;
pub mod profile;
pub mod starts;
pub mod table;
pub mod text;
pub mod types;

pub use history::{HistoryEvent, Operation, OperationId, OperationOutcome};
pub use model::ManagedScheduler;
pub use oracle::site::{FaultSite, SchedulingViolation};
pub use oracle::{FairnessReport, ReferenceScheduler, Replay};
pub use types::{
    AdmissionOutcome, AdmissionRejection, ClientId, CounterCommand, CounterRejection,
    CounterResult, Delta, FailureRecord, GroupAvailability, GroupId, GroupIncarnation,
    GroupLifecycle, GroupView, LifecycleOutcome, LifecycleRejection, LifecycleRequest,
    LifecycleTransition, Offer, OfferOutcome, PassIndex, PassProgress, PassSuspension,
    ReadinessSignal, RequestFingerprint, RequestIdentity, SchedulerConfig, SchedulerConfigError,
    SchedulerSummary, SchedulerView, Sequence, ServiceCost, ServiceRecord, SessionEpoch,
    SessionOutcome, SkipReason, SystemClass, TickIndex, TickReport, Work, WorkClass, WorkFailure,
    WorkId, WorkQuota, WORK_CLASS_ORDER,
};
