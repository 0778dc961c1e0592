//! Replicated adoption of the counter contract: command and snapshot codecs, the replicated state
//! machine, and the consumer-owned decisions around a managed group host.

pub mod audit;
pub mod cluster;
pub mod codec;
pub mod laws;
pub mod payloads;
pub mod replica;
pub mod runs;
pub mod state_machine;

pub use audit::{
    audit_acceptance, AcceptanceAuditReport, AcceptanceExpectation, AcceptanceViolation,
    ExpectedWork,
};
pub use cluster::checkpoint::{
    CheckpointError, CheckpointOutstanding, CheckpointSession, CounterGroupCheckpoint,
    RestoredCounterGroup,
};
pub use cluster::{
    AdapterError, CounterAdmissionRejected, CounterAdmissionRejection, CounterSubmitOutcome,
    DriveReport, DriveTurn, DrivenDisposition, DrivenItem, ManagedCounterCluster, NetworkConfig,
    PeerTrafficRefusal, ProposalFailure, ProposalReceipt, RoutedPeerEnvelope, SessionSubmitOutcome,
};
pub use codec::{MAX_COMMAND_BYTES, MAX_SNAPSHOT_BYTES};
pub use state_machine::{
    CounterApplyRejection, CounterApplyResult, CounterCompletedView, CounterSessionView,
    CounterStateMachine, CounterStateMachineError, CounterStateView, ReplicatedCounterCommand,
    SessionApplyResult,
};
