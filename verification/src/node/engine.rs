//! Decisions of the process loop that composes durable groups through the managed host.

use vstd::prelude::*;
use vstd::string::StringExecFns;

use crate::adapter::audit::ManagedMetrics;
use crate::adapter::state_machine::ReplicatedCounterCommand;
use crate::node::engine::audit::Audit;
use crate::node::engine::board::{Board, BoardState, MAX_SLOW_DELAY_MS};
use crate::node::engine::desk::state::{AcceptedOperation, DeskState, RecordAction};
use crate::node::engine::desk::{
    rejected_record, rejected_text, render_rejected, render_unknown, taken_views, takes_client,
    ClosedRead, Desk, TakenClient,
};
use crate::node::engine::lifecycle::{
    admit_peer_frame, admit_tick, drain, drain_step, peer_frame_step, reopen, reopen_step,
    serving_driver, serving_refusal, tick_step, tombstone, tombstone_refusal, DrainStep, GroupFacts,
    ProtocolStep, ReopenStep,
};
use crate::node::engine::report::{ConsumerReportEvent, ProposalOutcome, ReadOutcome};
use crate::node::peer_link::LinkCounters;
use crate::node::protocol::{PressureClass, Request};
use crate::node::render::{
    apply_result_text, audit_text, joined, numbered, render_apply_result, render_audit,
    render_status, status_text, AuditReport, Refusal, StatusReport,
};
use crate::text::{append_number, append_signed, decimal, signed_decimal};
use crate::types::{
    fingerprint_of, GroupId, GroupIncarnation, GroupLifecycle, RequestFingerprint, RequestIdentity,
    WorkClass,
};

pub mod audit;
pub mod board;
pub mod cycle;
pub mod desk;
pub mod gates;
pub mod lifecycle;
pub mod report;
pub mod service;

verus! {

/// Answer to a request that the process takes itself.
#[derive(Clone, Copy, Debug, Eq, PartialEq, Structural)]
pub enum JobAnswer {
    /// The group refuses it.
    Refused {
        /// Why.
        refusal: Refusal,
    },
    /// Peer frames are no longer read.
    PeersPaused,
    /// Peer frames are read again.
    PeersResumed,
    /// Accepted work is no longer recovered.
    RecoveryPaused,
    /// Accepted work is recovered again.
    RecoveryResumed,
    /// More pressure than a group's queue can hold.
    PressureLimit {
        /// Bound of the queue.
        limit: usize,
    },
    /// More delay than a group can be given.
    SlowLimit,
    /// The group is slow now.
    Slow {
        /// The group.
        group_id: GroupId,
        /// Delay of its turns.
        milliseconds: u64,
    },
    /// The node stops.
    Shutdown {
        /// The node.
        node_id: u64,
    },
    /// The local counter.
    Value {
        /// The group.
        group_id: GroupId,
        /// Its incarnation.
        incarnation: GroupIncarnation,
        /// Its value.
        value: i64,
        /// Last applied index.
        applied: u64,
    },
    /// The leadership was handed over.
    Transferred {
        /// The next leader.
        target: u64,
    },
    /// Pressure was put on the queue.
    Pressured {
        /// Items that were accepted.
        accepted: usize,
        /// Items that were refused.
        refused: usize,
    },
    /// The group drains.
    Drained {
        /// The group.
        group_id: GroupId,
    },
    /// The group is removed.
    Removed {
        /// The group.
        group_id: GroupId,
    },
    /// The group serves its next incarnation.
    Reopened {
        /// The group.
        group_id: GroupId,
        /// Its incarnation.
        incarnation: GroupIncarnation,
    },
    /// The group is gone for good.
    Tombstoned {
        /// The group.
        group_id: GroupId,
    },
    /// A snapshot was built.
    Snapshotted {
        /// Index that it covers.
        applied: u64,
    },
}

impl JobAnswer {
    /// Text of the answer.
    pub open(crate) spec fn text(self) -> Seq<char> {
        match self {
            JobAnswer::Refused { refusal } => refusal.text(),
            JobAnswer::PeersPaused => "OK PEERS paused"@,
            JobAnswer::PeersResumed => "OK PEERS resumed"@,
            JobAnswer::RecoveryPaused => "OK RECOVERY paused"@,
            JobAnswer::RecoveryResumed => "OK RECOVERY resumed"@,
            JobAnswer::PressureLimit { limit } => "ERR PRESSURE_LIMIT "@ + decimal(limit as nat),
            JobAnswer::SlowLimit => "ERR SLOW_LIMIT "@ + decimal(MAX_SLOW_DELAY_MS as nat),
            JobAnswer::Slow { group_id, milliseconds } => "OK SLOW group="@ + decimal(
                group_id@ as nat,
            ) + " milliseconds="@ + decimal(milliseconds as nat),
            JobAnswer::Shutdown { node_id } => "OK SHUTDOWN "@ + decimal(node_id as nat),
            JobAnswer::Value { group_id, incarnation, value, applied } => "OK VALUE group="@
                + decimal(group_id@ as nat) + " incarnation="@ + decimal(incarnation@ as nat)
                + " value="@ + signed_decimal(value as int) + " applied="@ + decimal(
                applied as nat,
            ),
            JobAnswer::Transferred { target } => "OK TRANSFER target="@ + decimal(target as nat),
            JobAnswer::Pressured { accepted, refused } => "OK PRESSURE accepted="@ + decimal(
                accepted as nat,
            ) + " refused="@ + decimal(refused as nat),
            JobAnswer::Drained { group_id } => "OK DRAIN group="@ + decimal(group_id@ as nat),
            JobAnswer::Removed { group_id } => "OK REMOVE group="@ + decimal(group_id@ as nat),
            JobAnswer::Reopened { group_id, incarnation } => "OK REOPEN group="@ + decimal(
                group_id@ as nat,
            ) + " incarnation="@ + decimal(incarnation@ as nat),
            JobAnswer::Tombstoned { group_id } => "OK TOMBSTONE group="@ + decimal(
                group_id@ as nat,
            ),
            JobAnswer::Snapshotted { applied } => "OK SNAPSHOT applied="@ + decimal(applied as nat),
        }
    }

    /// Renders the answer.
    pub fn render(self) -> (r: String)
        ensures
            r@ == self.text(),
    {
        match self {
            JobAnswer::Refused { refusal } => refusal.render(),
            JobAnswer::PeersPaused => "OK PEERS paused".to_owned(),
            JobAnswer::PeersResumed => "OK PEERS resumed".to_owned(),
            JobAnswer::RecoveryPaused => "OK RECOVERY paused".to_owned(),
            JobAnswer::RecoveryResumed => "OK RECOVERY resumed".to_owned(),
            JobAnswer::PressureLimit { limit } => numbered("ERR PRESSURE_LIMIT ", limit as u64),
            JobAnswer::SlowLimit => numbered("ERR SLOW_LIMIT ", MAX_SLOW_DELAY_MS),
            JobAnswer::Slow { group_id, milliseconds } => {
                let mut text = numbered("OK SLOW group=", group_id.get() as u64);
                text.append(" milliseconds=");
                append_number(&mut text, milliseconds);
                text
            },
            JobAnswer::Shutdown { node_id } => numbered("OK SHUTDOWN ", node_id),
            JobAnswer::Value { group_id, incarnation, value, applied } => {
                let mut text = numbered("OK VALUE group=", group_id.get() as u64);
                text.append(" incarnation=");
                append_number(&mut text, incarnation.get() as u64);
                text.append(" value=");
                append_signed(&mut text, value);
                text.append(" applied=");
                append_number(&mut text, applied);
                text
            },
            JobAnswer::Transferred { target } => numbered("OK TRANSFER target=", target),
            JobAnswer::Pressured { accepted, refused } => {
                let mut text = numbered("OK PRESSURE accepted=", accepted as u64);
                text.append(" refused=");
                append_number(&mut text, refused as u64);
                text
            },
            JobAnswer::Drained { group_id } => numbered("OK DRAIN group=", group_id.get() as u64),
            JobAnswer::Removed { group_id } => numbered("OK REMOVE group=", group_id.get() as u64),
            JobAnswer::Reopened { group_id, incarnation } => {
                let mut text = numbered("OK REOPEN group=", group_id.get() as u64);
                text.append(" incarnation=");
                append_number(&mut text, incarnation.get() as u64);
                text
            },
            JobAnswer::Tombstoned { group_id } => numbered(
                "OK TOMBSTONE group=",
                group_id.get() as u64,
            ),
            JobAnswer::Snapshotted { applied } => numbered("OK SNAPSHOT applied=", applied),
        }
    }
}

/// Failure that is answered with the failing part's own words.
#[derive(Clone, Copy, Debug, Eq, PartialEq, Structural)]
pub enum DetailedFailure {
    /// The leadership was not handed over.
    Transfer,
    /// The managed host has no room.
    Backpressure,
    /// No snapshot was built.
    Snapshot,
    /// The managed host still holds the group.
    Busy,
    /// The record refused the reservation.
    Reservation,
}

impl DetailedFailure {
    /// Text before the words.
    pub open spec fn label(self) -> Seq<char> {
        match self {
            DetailedFailure::Transfer => "ERR TRANSFER "@,
            DetailedFailure::Backpressure => "ERR BACKPRESSURE "@,
            DetailedFailure::Snapshot => "ERR SNAPSHOT "@,
            DetailedFailure::Busy => "ERR BUSY "@,
            DetailedFailure::Reservation => "ERR ADMISSION "@,
        }
    }

    /// Renders the failure.
    pub fn render(self, detail: &str) -> (r: String)
        ensures
            r@ == self.label() + detail@,
    {
        match self {
            DetailedFailure::Transfer => joined("ERR TRANSFER ", detail),
            DetailedFailure::Backpressure => joined("ERR BACKPRESSURE ", detail),
            DetailedFailure::Snapshot => joined("ERR SNAPSHOT ", detail),
            DetailedFailure::Busy => joined("ERR BUSY ", detail),
            DetailedFailure::Reservation => joined("ERR ADMISSION ", detail),
        }
    }
}

/// What the process does about a request.
#[derive(Clone, Copy, Debug, Eq, PartialEq, Structural)]
pub enum JobStep {
    /// It is answered.
    Answer {
        /// The answer.
        answer: JobAnswer,
    },
    /// It is answered, and the process stops once the answer is out.
    Stop {
        /// The answer.
        answer: JobAnswer,
    },
    /// The status line is due.
    Status,
    /// The audit line is due.
    Audit,
    /// A client operation goes to the desk.
    Operate {
        /// The group.
        group_id: GroupId,
        /// Its incarnation.
        incarnation: GroupIncarnation,
        /// The operation.
        operation: AcceptedOperation,
    },
    /// The local counter is read.
    ReadValue {
        /// The group.
        group_id: GroupId,
        /// Its incarnation.
        incarnation: GroupIncarnation,
    },
    /// A fault is proposed.
    Propose {
        /// The group.
        group_id: GroupId,
        /// The command.
        command: ReplicatedCounterCommand,
    },
    /// The leadership is handed over.
    Transfer {
        /// The group.
        group_id: GroupId,
        /// The next leader.
        target: u64,
    },
    /// A probe is sent.
    Probe {
        /// The group.
        group_id: GroupId,
        /// Its incarnation.
        incarnation: GroupIncarnation,
        /// The peer.
        target: u64,
    },
    /// Ticks are queued.
    Pressure {
        /// The group.
        group_id: GroupId,
        /// Class of the ticks.
        class: WorkClass,
        /// How many.
        count: usize,
    },
    /// A snapshot is queued.
    Snapshot {
        /// The group.
        group_id: GroupId,
    },
    /// The group drains.
    Drain {
        /// The group.
        group_id: GroupId,
        /// How.
        step: DrainStep,
    },
    /// The group is removed, if the managed host lets it go.
    Remove {
        /// The group.
        group_id: GroupId,
        /// Its incarnation.
        incarnation: GroupIncarnation,
    },
    /// The group reopens.
    Reopen {
        /// The group.
        group_id: GroupId,
        /// How.
        step: ReopenStep,
    },
    /// The group is retired for good.
    Tombstone {
        /// The group.
        group_id: GroupId,
    },
}

/// Everything that the process decides from.
#[verifier::ext_equal]
pub struct EngineState {
    /// This node.
    pub node_id: u64,
    /// Bound of a group's queue.
    pub max_group_queue: usize,
    /// Client operations.
    pub desk: DeskState,
    /// Work on hand.
    pub board: BoardState,
    /// Peer frames are not read.
    pub peers_paused: bool,
    /// Accepted work is not recovered.
    pub recovery_paused: bool,
    /// The process stops.
    pub stopping: bool,
    /// Peer frames refused.
    pub refused_peer: u64,
}

/// Identity under which a client's command is accepted.
pub open(crate) spec fn identified(
    client_id: crate::types::ClientId,
    epoch: crate::types::SessionEpoch,
    sequence: crate::types::Sequence,
    command: crate::types::CounterCommand,
) -> AcceptedOperation {
    AcceptedOperation::Counter {
        request: RequestIdentity {
            client_id,
            session_epoch: epoch,
            sequence,
            fingerprint: RequestFingerprint(fingerprint_of(command)),
        },
        command,
    }
}

/// The step, unless the group's gate refuses the request.
pub open(crate) spec fn gated(
    facts: Option<GroupFacts>,
    incarnation: GroupIncarnation,
    step: JobStep,
) -> JobStep {
    match serving_refusal(facts, incarnation) {
        Some(refusal) => JobStep::Answer { answer: JobAnswer::Refused { refusal } },
        None => step,
    }
}

impl EngineState {
    /// The process before it has decided anything.
    pub open spec fn initial(
        node_id: u64,
        max_group_queue: usize,
        timeout: u64,
        max_sessions: usize,
    ) -> Self {
        EngineState {
            node_id,
            max_group_queue,
            desk: DeskState::initial(timeout, max_sessions),
            board: BoardState::empty(),
            peers_paused: false,
            recovery_paused: false,
            stopping: false,
            refused_peer: 0,
        }
    }

    /// What the process does about a request, and the state after it.
    pub open(crate) spec fn handle(self, now: u64, request: Request, facts: Option<GroupFacts>) -> (
        EngineState,
        JobStep,
    ) {
        match request {
            Request::Status => (self, JobStep::Status),
            Request::Audit => (self, JobStep::Audit),
            Request::OpenSession { group_id, incarnation, client_id, epoch } => (
                self,
                JobStep::Operate {
                    group_id,
                    incarnation,
                    operation: AcceptedOperation::OpenSession { client_id, epoch },
                },
            ),
            Request::Counter { group_id, incarnation, client_id, epoch, sequence, command } => (
                self,
                JobStep::Operate {
                    group_id,
                    incarnation,
                    operation: identified(client_id, epoch, sequence, command),
                },
            ),
            Request::Value { group_id, incarnation } => (
                self,
                gated(facts, incarnation, JobStep::ReadValue { group_id, incarnation }),
            ),
            Request::Fault { group_id, incarnation } => (
                self,
                gated(
                    facts,
                    incarnation,
                    JobStep::Propose { group_id, command: ReplicatedCounterCommand::Faulty },
                ),
            ),
            Request::CapacityFault { group_id, incarnation } => (
                self,
                gated(
                    facts,
                    incarnation,
                    JobStep::Propose { group_id, command: ReplicatedCounterCommand::CapacityFault },
                ),
            ),
            Request::PausePeers => (
                EngineState { peers_paused: true, ..self },
                JobStep::Answer { answer: JobAnswer::PeersPaused },
            ),
            Request::ResumePeers => (
                EngineState { peers_paused: false, ..self },
                JobStep::Answer { answer: JobAnswer::PeersResumed },
            ),
            Request::PeerProbe { group_id, incarnation, target } => (
                self,
                gated(facts, incarnation, JobStep::Probe { group_id, incarnation, target }),
            ),
            Request::PauseRecovery => (
                EngineState { recovery_paused: true, ..self },
                JobStep::Answer { answer: JobAnswer::RecoveryPaused },
            ),
            Request::ResumeRecovery => (
                EngineState { recovery_paused: false, desk: self.desk.resume(now), ..self },
                JobStep::Answer { answer: JobAnswer::RecoveryResumed },
            ),
            Request::TransferLeadership { group_id, incarnation, target } => (
                self,
                gated(facts, incarnation, JobStep::Transfer { group_id, target }),
            ),
            Request::Pressure { group_id, incarnation, class, count } => (
                self,
                if count > self.max_group_queue {
                    JobStep::Answer {
                        answer: JobAnswer::PressureLimit { limit: self.max_group_queue },
                    }
                } else {
                    gated(
                        facts,
                        incarnation,
                        JobStep::Pressure {
                            group_id,
                            class: match class {
                                PressureClass::Snapshot => WorkClass::Snapshot,
                                PressureClass::Bulk => WorkClass::Bulk,
                            },
                            count,
                        },
                    )
                },
            ),
            Request::Snapshot { group_id, incarnation } => (
                self,
                gated(facts, incarnation, JobStep::Snapshot { group_id }),
            ),
            Request::Slow { group_id, milliseconds } => if milliseconds > MAX_SLOW_DELAY_MS {
                (self, JobStep::Answer { answer: JobAnswer::SlowLimit })
            } else if facts is None {
                (
                    self,
                    JobStep::Answer {
                        answer: JobAnswer::Refused { refusal: Refusal::GroupUnknown },
                    },
                )
            } else {
                (
                    EngineState {
                        board: self.board.set_slow(group_id@ as u64, milliseconds),
                        ..self
                    },
                    JobStep::Answer { answer: JobAnswer::Slow { group_id, milliseconds } },
                )
            },
            Request::Drain { group_id, incarnation } => (
                self,
                JobStep::Drain { group_id, step: drain_step(facts, incarnation) },
            ),
            Request::Remove { group_id, incarnation } => (
                self,
                JobStep::Remove { group_id, incarnation },
            ),
            Request::Reopen { group_id, incarnation, quota } => (
                self,
                JobStep::Reopen {
                    group_id,
                    step: reopen_step(facts, group_id, incarnation, quota),
                },
            ),
            Request::Tombstone { group_id, incarnation } => (
                self,
                match tombstone_refusal(facts, incarnation) {
                    Some(refusal) => JobStep::Answer { answer: JobAnswer::Refused { refusal } },
                    None => JobStep::Tombstone { group_id },
                },
            ),
            Request::Shutdown => (
                EngineState { stopping: true, ..self },
                JobStep::Stop { answer: JobAnswer::Shutdown { node_id: self.node_id } },
            ),
        }
    }

    /// An operation of the group is in progress.
    pub open spec fn operating(self, group_id: GroupId) -> bool {
        exists|id: u64| #[trigger]
            self.desk.pending.contains_key(id) && self.desk.pending[id].group_id == group_id
    }

    /// An admission barrier of the group is in progress.
    pub open spec fn reading(self, group_id: GroupId) -> bool {
        exists|read: u64| #[trigger]
            self.desk.admissions.contains_key(read) && self.desk.admissions[read].group_id
                == group_id
    }

    /// Where a peer frame goes, and the state after it.
    pub open(crate) spec fn route_peer_frame(
        self,
        facts: Option<GroupFacts>,
        group_id: GroupId,
        incarnation: GroupIncarnation,
    ) -> (EngineState, ProtocolStep) {
        let step = peer_frame_step(
            facts,
            incarnation,
            self.operating(group_id),
            self.reading(group_id),
        );
        if step == ProtocolStep::Refuse {
            (EngineState { refused_peer: (self.refused_peer + 1) as u64, ..self }, step)
        } else {
            (self, step)
        }
    }
}

/// The process's decisions.
#[derive(Debug)]
pub struct Engine {
    node_id: u64,
    max_group_queue: usize,
    desk: Desk,
    board: Board,
    peers_paused: bool,
    recovery_paused: bool,
    stopping: bool,
    refused_peer: u64,
}

impl Engine {
    /// Everything that the process decides from.
    pub closed spec fn state(self) -> EngineState {
        EngineState {
            node_id: self.node_id,
            max_group_queue: self.max_group_queue,
            desk: self.desk.state(),
            board: self.board.state(),
            peers_paused: self.peers_paused,
            recovery_paused: self.recovery_paused,
            stopping: self.stopping,
            refused_peer: self.refused_peer,
        }
    }

    /// The parts are in order.
    pub closed spec fn wf(self) -> bool {
        self.desk.wf() && self.board.wf()
    }

    /// Creates an engine that has decided nothing.
    pub fn new(node_id: u64, max_group_queue: usize, timeout: u64, max_sessions: usize) -> (r: Self)
        ensures
            r.wf(),
            r.state() == EngineState::initial(node_id, max_group_queue, timeout, max_sessions),
    {
        Self {
            node_id,
            max_group_queue,
            desk: Desk::new(timeout, max_sessions),
            board: Board::new(),
            peers_paused: false,
            recovery_paused: false,
            stopping: false,
            refused_peer: 0,
        }
    }

    /// Returns the desk.
    pub fn desk(&self) -> (r: &Desk)
        requires
            self.wf(),
        ensures
            r.wf(),
            r.state() == self.state().desk,
    {
        &self.desk
    }

    /// Returns the desk for an event of a client operation.
    pub fn desk_mut(&mut self) -> (r: &mut Desk)
        requires
            old(self).wf(),
        ensures
            r.wf(),
            r.state() == old(self).state().desk,
            final(r).wf() ==> final(self).wf(),
            final(self).state() == (EngineState {
                desk: final(r).state(),
                ..old(self).state()
            }),
    {
        &mut self.desk
    }

    /// Returns the board for an event of the managed host.
    pub fn board_mut(&mut self) -> (r: &mut Board)
        requires
            old(self).wf(),
        ensures
            r.wf(),
            r.state() == old(self).state().board,
            final(r).wf() ==> final(self).wf(),
            final(self).state() == (EngineState {
                board: final(r).state(),
                ..old(self).state()
            }),
    {
        &mut self.board
    }

    /// Returns the board.
    pub fn board(&self) -> (r: &Board)
        requires
            self.wf(),
        ensures
            r.wf(),
            r.state() == self.state().board,
    {
        &self.board
    }

    /// Returns whether peer frames are not read.
    pub fn peers_paused(&self) -> (r: bool)
        ensures
            r == self.state().peers_paused,
    {
        self.peers_paused
    }

    /// Returns whether accepted work is not recovered.
    pub fn recovery_paused(&self) -> (r: bool)
        ensures
            r == self.state().recovery_paused,
    {
        self.recovery_paused
    }

    /// Returns whether the process stops.
    pub fn is_stopping(&self) -> (r: bool)
        ensures
            r == self.state().stopping,
    {
        self.stopping
    }

    /// Returns whether another refused frame can be counted.
    pub fn counts_refusals(&self) -> (r: bool)
        ensures
            r == (self.state().refused_peer < u64::MAX),
    {
        self.refused_peer < u64::MAX
    }

    /// Counts a peer frame that the group or the host refused.
    pub fn count_refused_peer(&mut self)
        requires
            old(self).wf(),
            old(self).state().refused_peer < u64::MAX,
        ensures
            final(self).wf(),
            final(self).state() == (EngineState {
                refused_peer: (old(self).state().refused_peer + 1) as u64,
                ..old(self).state()
            }),
    {
        self.refused_peer = self.refused_peer + 1;
    }

    /// Decides what the process does about a request. `facts` is what it knows of the group that
    /// the request names.
    pub fn handle_job(&mut self, now: u64, request: Request, facts: Option<GroupFacts>) -> (r:
        JobStep)
        requires
            old(self).wf(),
        ensures
            final(self).wf(),
            (final(self).state(), r) == old(self).state().handle(now, request, facts),
    {
        let step = match request {
            Request::Status => JobStep::Status,
            Request::Audit => JobStep::Audit,
            Request::OpenSession { group_id, incarnation, client_id, epoch } => JobStep::Operate {
                group_id,
                incarnation,
                operation: AcceptedOperation::OpenSession { client_id, epoch },
            },
            Request::Counter { group_id, incarnation, client_id, epoch, sequence, command } => {
                let request = RequestIdentity {
                    client_id,
                    session_epoch: epoch,
                    sequence,
                    fingerprint: RequestFingerprint::of(&command),
                };
                let operation = AcceptedOperation::Counter { request, command };
                JobStep::Operate { group_id, incarnation, operation }
            },
            Request::Value { group_id, incarnation } => Self::gate(
                facts,
                incarnation,
                JobStep::ReadValue { group_id, incarnation },
            ),
            Request::Fault { group_id, incarnation } => Self::gate(
                facts,
                incarnation,
                JobStep::Propose { group_id, command: ReplicatedCounterCommand::Faulty },
            ),
            Request::CapacityFault { group_id, incarnation } => Self::gate(
                facts,
                incarnation,
                JobStep::Propose { group_id, command: ReplicatedCounterCommand::CapacityFault },
            ),
            Request::PausePeers => {
                self.peers_paused = true;
                JobStep::Answer { answer: JobAnswer::PeersPaused }
            },
            Request::ResumePeers => {
                self.peers_paused = false;
                JobStep::Answer { answer: JobAnswer::PeersResumed }
            },
            Request::PeerProbe { group_id, incarnation, target } => Self::gate(
                facts,
                incarnation,
                JobStep::Probe { group_id, incarnation, target },
            ),
            Request::PauseRecovery => {
                self.recovery_paused = true;
                JobStep::Answer { answer: JobAnswer::RecoveryPaused }
            },
            Request::ResumeRecovery => {
                self.recovery_paused = false;
                self.desk.resume_recovery(now);
                JobStep::Answer { answer: JobAnswer::RecoveryResumed }
            },
            Request::TransferLeadership { group_id, incarnation, target } => Self::gate(
                facts,
                incarnation,
                JobStep::Transfer { group_id, target },
            ),
            Request::Pressure { group_id, incarnation, class, count } => {
                if count > self.max_group_queue {
                    JobStep::Answer {
                        answer: JobAnswer::PressureLimit { limit: self.max_group_queue },
                    }
                } else {
                    let class = match class {
                        PressureClass::Snapshot => WorkClass::Snapshot,
                        PressureClass::Bulk => WorkClass::Bulk,
                    };
                    Self::gate(facts, incarnation, JobStep::Pressure { group_id, class, count })
                }
            },
            Request::Snapshot { group_id, incarnation } => Self::gate(
                facts,
                incarnation,
                JobStep::Snapshot { group_id },
            ),
            Request::Slow { group_id, milliseconds } => {
                if milliseconds > MAX_SLOW_DELAY_MS {
                    JobStep::Answer { answer: JobAnswer::SlowLimit }
                } else if facts.is_none() {
                    JobStep::Answer {
                        answer: JobAnswer::Refused { refusal: Refusal::GroupUnknown },
                    }
                } else {
                    self.board.set_slow(group_id, milliseconds);
                    JobStep::Answer { answer: JobAnswer::Slow { group_id, milliseconds } }
                }
            },
            Request::Drain { group_id, incarnation } => JobStep::Drain {
                group_id,
                step: drain(facts, incarnation),
            },
            Request::Remove { group_id, incarnation } => JobStep::Remove { group_id, incarnation },
            Request::Reopen { group_id, incarnation, quota } => JobStep::Reopen {
                group_id,
                step: reopen(facts, group_id, incarnation, quota),
            },
            Request::Tombstone { group_id, incarnation } => match tombstone(facts, incarnation) {
                Some(refusal) => JobStep::Answer { answer: JobAnswer::Refused { refusal } },
                None => JobStep::Tombstone { group_id },
            },
            Request::Shutdown => {
                self.stopping = true;
                JobStep::Stop { answer: JobAnswer::Shutdown { node_id: self.node_id } }
            },
        };
        assert(self.state() =~= old(self).state().handle(now, request, facts).0);
        step
    }

    fn gate(facts: Option<GroupFacts>, incarnation: GroupIncarnation, step: JobStep) -> (r: JobStep)
        ensures
            r == gated(facts, incarnation, step),
    {
        match serving_driver(facts, incarnation) {
            Some(refusal) => JobStep::Answer { answer: JobAnswer::Refused { refusal } },
            None => step,
        }
    }

    /// Decides where a peer frame goes, and counts it when it goes nowhere.
    pub fn admit_peer_frames(
        &mut self,
        facts: Option<GroupFacts>,
        group_id: GroupId,
        incarnation: GroupIncarnation,
    ) -> (r: ProtocolStep)
        requires
            old(self).wf(),
            old(self).state().refused_peer < u64::MAX,
        ensures
            final(self).wf(),
            (final(self).state(), r) == old(self).state().route_peer_frame(
                facts,
                group_id,
                incarnation,
            ),
    {
        let accepted = self.desk.has_pending(group_id);
        let reading = self.desk.has_admission(group_id);
        let step = admit_peer_frame(facts, incarnation, accepted, reading);
        if step == ProtocolStep::Refuse {
            self.refused_peer = self.refused_peer + 1;
        }
        step
    }

    /// Decides where a tick of a group goes.
    pub fn admit_ticks(&self, facts: GroupFacts, group_id: GroupId) -> (r: ProtocolStep)
        requires
            self.wf(),
        ensures
            r == tick_step(
                facts,
                self.state().operating(group_id),
                self.state().reading(group_id),
                self.state().board.ticking.contains(group_id@ as u64),
            ),
    {
        let accepted = self.desk.has_pending(group_id);
        let reading = self.desk.has_admission(group_id);
        let ticking = self.board.is_ticking(group_id);
        admit_tick(facts, accepted, reading, ticking)
    }
}

/// What the process does about one event of a report.
#[derive(Debug)]
pub enum ReportStep {
    /// Nothing.
    Nothing,
    /// An operation ended.
    Completed {
        /// The operation and its clients.
        taken: TakenClient,
        /// Their answer.
        text: String,
    },
    /// A barrier was granted: its operations are decided from the confirmed view.
    Granted {
        /// The barrier.
        read_id: u64,
    },
    /// A barrier ended without a grant.
    ReadFailed {
        /// The barrier and its operations.
        closed: ClosedRead,
        /// Why.
        detail: String,
    },
    /// The event is not supported: the process stops.
    Unsupported,
}

/// The step ends the operation of the proposal, if it is in progress, with this action on its
/// record and this answer.
pub open spec fn ends_operation(
    step: ReportStep,
    before: DeskState,
    id: u64,
    action: RecordAction,
    text: Seq<char>,
) -> bool {
    match step {
        ReportStep::Completed { taken, text: answer } => takes_client(
            Some(taken),
            before,
            id,
            action,
        ) && answer@ == text,
        ReportStep::Nothing => !before.pending.contains_key(id),
        _ => false,
    }
}

/// The step ends the barrier, if it is in progress.
pub open spec fn ends_read(step: ReportStep, before: DeskState, read: u64, text: Seq<char>) -> bool {
    match step {
        ReportStep::ReadFailed { closed, detail } => {
            &&& before.admissions.contains_key(read)
            &&& closed.read_id == read
            &&& closed.admission == before.admissions[read]
            &&& taken_views(closed.candidates@) == before.waiting(read)
            &&& detail@ == text
        },
        ReportStep::Nothing => !before.admissions.contains_key(read),
        _ => false,
    }
}

/// What the process does about one event of a report, and the desk after it.
pub open(crate) spec fn reports(
    before: DeskState,
    after: DeskState,
    now: u64,
    event: ConsumerReportEvent,
    step: ReportStep,
) -> bool {
    match event {
        ConsumerReportEvent::Proposal(ProposalOutcome::Applied { id, result, .. }) => after
            == before.take(id) && ends_operation(
            step,
            before,
            id,
            RecordAction::Nothing,
            apply_result_text(result),
        ),
        ConsumerReportEvent::Proposal(ProposalOutcome::Rejected { id, detail }) => after
            == before.take_open(now, id) && ends_operation(
            step,
            before,
            id,
            rejected_record(before.pending[id]),
            rejected_text(before.pending[id].recovered, detail@),
        ),
        ConsumerReportEvent::Proposal(ProposalOutcome::Unknown { id, detail }) => after
            == before.take_open(now, id) && ends_operation(
            step,
            before,
            id,
            RecordAction::Nothing,
            "ERR UNKNOWN "@ + detail@,
        ),
        ConsumerReportEvent::Proposal(ProposalOutcome::Other) => after == before
            && step is Nothing,
        ConsumerReportEvent::Applied(entry) => match entry.proposal {
            Some(id) => after == before.take(id) && ends_operation(
                step,
                before,
                id,
                RecordAction::Nothing,
                apply_result_text(entry.result),
            ),
            None => after == before && step is Nothing,
        },
        ConsumerReportEvent::Read(ReadOutcome::Granted { read_id }) => after == before && step
            == (ReportStep::Granted { read_id }),
        ConsumerReportEvent::Read(ReadOutcome::Rejected { read_id, detail }) => after
            == before.close(read_id) && ends_read(
            step,
            before,
            read_id,
            "read rejected: "@ + detail@,
        ),
        ConsumerReportEvent::Read(ReadOutcome::Canceled { read_id, detail }) => after
            == before.close(read_id) && ends_read(
            step,
            before,
            read_id,
            "read canceled: "@ + detail@,
        ),
        ConsumerReportEvent::Read(ReadOutcome::FreshnessUnavailable) => after == before
            && step is Nothing,
        ConsumerReportEvent::Read(ReadOutcome::Other) => after == before && step is Unsupported,
    }
}

impl Engine {
    /// Decides what the process does about one event of a report.
    pub fn collect_report(&mut self, now: u64, event: ConsumerReportEvent) -> (r: ReportStep)
        requires
            old(self).wf(),
            old(self).state().desk.takes(now),
        ensures
            final(self).wf(),
            final(self).state() == (EngineState {
                desk: final(self).state().desk,
                ..old(self).state()
            }),
            reports(old(self).state().desk, final(self).state().desk, now, event, r),
    {
        match event {
            ConsumerReportEvent::Proposal(ProposalOutcome::Applied { id, result, .. }) => {
                match self.desk.complete_applied(id) {
                    Some(taken) => ReportStep::Completed {
                        taken,
                        text: render_apply_result(result),
                    },
                    None => ReportStep::Nothing,
                }
            },
            ConsumerReportEvent::Proposal(ProposalOutcome::Rejected { id, detail }) => {
                match self.desk.complete_rejected(now, id) {
                    Some(taken) => {
                        let text = render_rejected(taken.pending.recovered, detail.as_str());
                        ReportStep::Completed { taken, text }
                    },
                    None => ReportStep::Nothing,
                }
            },
            ConsumerReportEvent::Proposal(ProposalOutcome::Unknown { id, detail }) => {
                match self.desk.complete_unknown(now, id) {
                    Some(taken) => ReportStep::Completed {
                        taken,
                        text: render_unknown(detail.as_str()),
                    },
                    None => ReportStep::Nothing,
                }
            },
            ConsumerReportEvent::Proposal(ProposalOutcome::Other) => ReportStep::Nothing,
            ConsumerReportEvent::Applied(entry) => match entry.proposal {
                Some(id) => match self.desk.complete_applied(id) {
                    Some(taken) => ReportStep::Completed {
                        taken,
                        text: render_apply_result(entry.result),
                    },
                    None => ReportStep::Nothing,
                },
                None => ReportStep::Nothing,
            },
            ConsumerReportEvent::Read(ReadOutcome::Granted { read_id }) => ReportStep::Granted {
                read_id,
            },
            ConsumerReportEvent::Read(ReadOutcome::Rejected { read_id, detail }) => {
                match self.desk.take_pending_admission(read_id) {
                    Some(closed) => ReportStep::ReadFailed {
                        closed,
                        detail: joined("read rejected: ", detail.as_str()),
                    },
                    None => ReportStep::Nothing,
                }
            },
            ConsumerReportEvent::Read(ReadOutcome::Canceled { read_id, detail }) => {
                match self.desk.take_pending_admission(read_id) {
                    Some(closed) => ReportStep::ReadFailed {
                        closed,
                        detail: joined("read canceled: ", detail.as_str()),
                    },
                    None => ReportStep::Nothing,
                }
            },
            ConsumerReportEvent::Read(ReadOutcome::FreshnessUnavailable) => ReportStep::Nothing,
            ConsumerReportEvent::Read(ReadOutcome::Other) => ReportStep::Unsupported,
        }
    }

    /// Returns the operations that enter the driver with a dispatch of this work, so that their
    /// records say so before it is executed.
    pub fn mark_dispatch_entered(&self, work: &Vec<u64>) -> (r: Vec<(GroupId, AcceptedOperation)>)
        requires
            self.wf(),
        ensures
            r@ == entered(self.state(), work@),
    {
        let mut operations: Vec<(GroupId, AcceptedOperation)> = Vec::new();
        let mut i: usize = 0;
        assert(work@.take(0) =~= Seq::empty());
        while i < work.len()
            invariant
                self.wf(),
                i <= work@.len(),
                operations@ == entered(self.state(), work@.take(i as int)),
            decreases work@.len() - i,
        {
            let ghost more = work@.take(i + 1);
            assert(more.drop_last() =~= work@.take(i as int));
            if let Some(id) = self.board.proposal_of(work[i]) {
                if let Some(operation) = self.desk.operation_of(id) {
                    operations.push(operation);
                }
            }
            i = i + 1;
        }
        assert(work@.take(i as int) =~= work@);
        operations
    }
}

/// Operation that an item of work is for, if it is for one.
pub open(crate) spec fn operation_of_work(state: EngineState, work: u64) -> Option<
    (GroupId, AcceptedOperation),
> {
    match state.board.kind(work) {
        Some(crate::node::engine::board::WorkKind::Proposal { id }) => {
            if state.desk.pending.contains_key(id) {
                match state.desk.pending[id].operation {
                    Some(operation) => Some((state.desk.pending[id].group_id, operation)),
                    None => None,
                }
            } else {
                None
            }
        },
        _ => None,
    }
}

/// Operations that enter the driver with a dispatch of this work, in order.
pub open(crate) spec fn entered(state: EngineState, work: Seq<u64>) -> Seq<
    (GroupId, AcceptedOperation),
>
    decreases work.len(),
{
    if work.len() == 0 {
        Seq::empty()
    } else {
        match operation_of_work(state, work.last()) {
            Some(operation) => entered(state, work.drop_last()).push(operation),
            None => entered(state, work.drop_last()),
        }
    }
}

// -------------------------------------------------------------------- status

/// What the process knows of an installed group.
#[derive(Clone, Copy, Debug, Eq, PartialEq, Structural)]
pub struct GroupSummary {
    /// The group.
    pub group_id: GroupId,
    /// What is known of it.
    pub facts: GroupFacts,
}

/// Role of this node in a group.
#[derive(Clone, Copy, Debug, Eq, PartialEq, Structural)]
pub struct GroupRole {
    /// The group.
    pub group_id: GroupId,
    /// This node leads it.
    pub leader: bool,
}

/// The group is not awaited: it is retired, poisoned or ready.
pub open spec fn is_settled(facts: GroupFacts) -> bool {
    facts.lifecycle == GroupLifecycle::Removed || facts.lifecycle == GroupLifecycle::Tombstoned
        || facts.poisoned || (facts.driver && facts.ready)
}

/// Active groups among the first ones.
pub open(crate) spec fn active_groups(state: EngineState, groups: Seq<GroupSummary>) -> nat
    decreases groups.len(),
{
    if groups.len() == 0 {
        0
    } else {
        let last = groups.last();
        active_groups(state, groups.drop_last()) + if last.facts.driver && !last.facts.poisoned
            && !state.board.poisoned.contains(last.group_id@ as u64) {
            1nat
        } else {
            0nat
        }
    }
}

/// Operations recorded as outstanding.
pub open spec fn recorded_operations(groups: Seq<GroupSummary>) -> nat
    decreases groups.len(),
{
    if groups.len() == 0 {
        0
    } else {
        recorded_operations(groups.drop_last()) + groups.last().facts.outstanding as nat
    }
}

/// Groups that this node leads and that are not poisoned, in order.
pub open(crate) spec fn led_groups(state: EngineState, roles: Seq<GroupRole>) -> Seq<GroupId>
    decreases roles.len(),
{
    if roles.len() == 0 {
        Seq::empty()
    } else {
        let last = roles.last();
        if last.leader && !state.board.poisoned.contains(last.group_id@ as u64) {
            led_groups(state, roles.drop_last()).push(last.group_id)
        } else {
            led_groups(state, roles.drop_last())
        }
    }
}

/// The report describes the process.
pub open(crate) spec fn describes(
    state: EngineState,
    groups: Seq<GroupSummary>,
    roles: Seq<GroupRole>,
    metrics: ManagedMetrics,
    passes: u64,
    link: LinkCounters,
    report: StatusReport,
) -> bool {
    &&& report.ready == (forall|i: int|
        0 <= i < groups.len() ==> is_settled((#[trigger] groups[i]).facts))
    &&& report.groups == active_groups(state, groups)
    &&& report.leader_groups@ == led_groups(state, roles)
    &&& report.leaders == led_groups(state, roles).len()
    &&& report.poisoned == state.board.poisoned.len()
    &&& report.queued == metrics.queued
    &&& report.in_flight == metrics.in_flight_work
    &&& report.workers == metrics.occupied_workers
    &&& report.admitted == metrics.admitted
    &&& report.client_admitted == state.desk.client_admitted
    &&& report.serviced == metrics.serviced
    &&& report.failed == metrics.failed
    &&& report.passes == passes
    &&& report.pending_proposals == state.desk.operations.dom().len()
    &&& report.admission_reads == state.desk.admissions.dom().len()
    &&& report.admission_candidates == state.desk.candidates.len()
    &&& report.admission_successors == if report.admission_candidates >= report.admission_reads {
        report.admission_candidates - report.admission_reads
    } else {
        0
    }
    &&& report.admission_barriers == state.desk.barriers_started
    &&& report.durable_outstanding == recorded_operations(groups)
    &&& report.recovery_deferred == state.desk.deferred.dom().len()
    &&& report.recovery_refused == state.desk.recovery_refused
    &&& report.refused_peer == state.refused_peer
    &&& report.link == link
}

impl Engine {
    /// Returns whether every active group is ready.
    pub fn all_active_ready(groups: &Vec<GroupSummary>) -> (r: bool)
        ensures
            r == forall|i: int|
                0 <= i < groups@.len() ==> is_settled((#[trigger] groups@[i]).facts),
    {
        let mut i: usize = 0;
        while i < groups.len()
            invariant
                i <= groups@.len(),
                forall|k: int| 0 <= k < i ==> is_settled((#[trigger] groups@[k]).facts),
            decreases groups@.len() - i,
        {
            let facts = groups[i].facts;
            let settled = matches!(
                facts.lifecycle,
                GroupLifecycle::Removed | GroupLifecycle::Tombstoned
            ) || facts.poisoned || (facts.driver && facts.ready);
            if !settled {
                assert(!is_settled(groups@[i as int].facts));
                return false;
            }
            i = i + 1;
        }
        true
    }

    /// Counts the active groups.
    pub fn active_group_count(&self, groups: &Vec<GroupSummary>) -> (r: usize)
        requires
            self.wf(),
        ensures
            r == active_groups(self.state(), groups@),
    {
        let mut count: usize = 0;
        let mut i: usize = 0;
        assert(groups@.take(0) =~= Seq::empty());
        while i < groups.len()
            invariant
                self.wf(),
                i <= groups@.len(),
                count <= i,
                count == active_groups(self.state(), groups@.take(i as int)),
            decreases groups@.len() - i,
        {
            let ghost more = groups@.take(i + 1);
            assert(more.drop_last() =~= groups@.take(i as int));
            let group = groups[i];
            if group.facts.driver && !group.facts.poisoned && !self.board.is_poisoned(
                group.group_id,
            ) {
                count = count + 1;
            }
            i = i + 1;
        }
        assert(groups@.take(i as int) =~= groups@);
        count
    }

    fn leading_groups(&self, roles: &Vec<GroupRole>) -> (r: Vec<GroupId>)
        requires
            self.wf(),
        ensures
            r@ == led_groups(self.state(), roles@),
    {
        let mut leading: Vec<GroupId> = Vec::new();
        let mut i: usize = 0;
        assert(roles@.take(0) =~= Seq::empty());
        while i < roles.len()
            invariant
                self.wf(),
                i <= roles@.len(),
                leading@ == led_groups(self.state(), roles@.take(i as int)),
            decreases roles@.len() - i,
        {
            let ghost more = roles@.take(i + 1);
            assert(more.drop_last() =~= roles@.take(i as int));
            if roles[i].leader && !self.board.is_poisoned(roles[i].group_id) {
                leading.push(roles[i].group_id);
            }
            i = i + 1;
        }
        assert(roles@.take(i as int) =~= roles@);
        leading
    }

    /// Renders the status line.
    pub fn status_line(
        &self,
        groups: &Vec<GroupSummary>,
        roles: &Vec<GroupRole>,
        metrics: ManagedMetrics,
        passes: u64,
        link: LinkCounters,
    ) -> (r: String)
        requires
            self.wf(),
            recorded_operations(groups@) <= usize::MAX,
        ensures
            exists|report: StatusReport| #[trigger]
                describes(self.state(), groups@, roles@, metrics, passes, link, report) && r@
                    == status_text(report),
    {
        let leader_groups = self.leading_groups(roles);
        let counts = self.desk.counts();
        let report = StatusReport {
            ready: Self::all_active_ready(groups),
            groups: self.active_group_count(groups),
            leaders: leader_groups.len(),
            leader_groups,
            poisoned: self.board.poisoned_count(),
            queued: metrics.queued,
            in_flight: metrics.in_flight_work,
            workers: metrics.occupied_workers,
            admitted: metrics.admitted,
            client_admitted: counts.client_admitted,
            serviced: metrics.serviced,
            failed: metrics.failed,
            passes,
            pending_proposals: counts.operations,
            admission_reads: counts.admissions,
            admission_candidates: counts.candidates,
            admission_successors: counts.successors,
            admission_barriers: counts.barriers_started,
            durable_outstanding: count_recorded(groups),
            recovery_deferred: counts.deferred,
            recovery_refused: counts.recovery_refused,
            refused_peer: self.refused_peer,
            link,
        };
        assert(describes(self.state(), groups@, roles@, metrics, passes, link, report));
        render_status(&report)
    }

    /// Renders the audit line.
    pub fn audit_line(audit: &Audit, metrics: ManagedMetrics) -> (r: String)
        requires
            audit.wf(),
        ensures
            exists|report: AuditReport| #[trigger]
                witnesses(audit.state(), metrics, report) && r@ == audit_text(report),
    {
        let (coverage, widest_gap) = audit.fairness();
        let report = AuditReport {
            plans: audit.plans(),
            passes_completed: audit.passes_completed(),
            certified_passes: audit.certified_passes(),
            opportunities: audit.opportunities(),
            coverage,
            widest_gap,
            invalid_plans: audit.invalid_plans(),
            invalid_turns: audit.invalid_turns(),
            plan_digest: audit.plan_digest(),
            turn_digest: audit.turn_digest(),
            admitted: metrics.admitted,
            serviced: metrics.serviced,
            failed: metrics.failed,
            queued: metrics.queued,
            in_flight: metrics.in_flight_work,
        };
        assert(witnesses(audit.state(), metrics, report));
        render_audit(report)
    }
}

/// The report states what the audit holds.
pub open spec fn witnesses(
    audit: crate::node::engine::audit::AuditState,
    metrics: ManagedMetrics,
    report: AuditReport,
) -> bool {
    &&& report.plans == audit.plans
    &&& report.passes_completed == audit.passes_completed
    &&& report.certified_passes == audit.certified_passes
    &&& report.opportunities == audit.opportunities
    &&& report.coverage == audit.covered().len()
    &&& audit.is_widest_gap(report.widest_gap)
    &&& report.invalid_plans == audit.invalid_plans
    &&& report.invalid_turns == audit.invalid_turns
    &&& report.plan_digest == audit.plan_digest
    &&& report.turn_digest == audit.turn_digest
    &&& report.admitted == metrics.admitted
    &&& report.serviced == metrics.serviced
    &&& report.failed == metrics.failed
    &&& report.queued == metrics.queued
    &&& report.in_flight == metrics.in_flight_work
}

/// Recorded operations of the first groups are no more than those of all.
proof fn lemma_recorded_prefix(groups: Seq<GroupSummary>, i: nat)
    requires
        i <= groups.len(),
    ensures
        recorded_operations(groups.take(i as int)) <= recorded_operations(groups),
    decreases groups.len() - i,
{
    if i < groups.len() {
        lemma_recorded_prefix(groups, i + 1);
        assert(groups.take((i + 1) as int).drop_last() =~= groups.take(i as int));
    } else {
        assert(groups.take(i as int) =~= groups);
    }
}

fn count_recorded(groups: &Vec<GroupSummary>) -> (r: usize)
    requires
        recorded_operations(groups@) <= usize::MAX,
    ensures
        r == recorded_operations(groups@),
{
    let mut count: usize = 0;
    let mut i: usize = 0;
    assert(groups@.take(0) =~= Seq::empty());
    while i < groups.len()
        invariant
            i <= groups@.len(),
            count == recorded_operations(groups@.take(i as int)),
            recorded_operations(groups@) <= usize::MAX,
        decreases groups@.len() - i,
    {
        proof {
            lemma_recorded_prefix(groups@, (i + 1) as nat);
            assert(groups@.take(i + 1).drop_last() =~= groups@.take(i as int));
        }
        count = count + groups[i].facts.outstanding;
        i = i + 1;
    }
    assert(groups@.take(i as int) =~= groups@);
    count
}

} // verus!
