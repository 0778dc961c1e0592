//! Three real replicas of every group, driven by the decisions of the library. The local replicas
//! take turns in the order of their groups.

use std::collections::{BTreeMap, VecDeque};
use std::error::Error;
use std::fmt;

use rafter::{LocalProposalId, LogIndex, NodeConfig, NodeId, Term};
use rafter_app::error::ErrorCause;
use rafter_app::group::{GroupFatalState, GroupInput, GroupStepReport, RaftGroup};
use rafter_app::proposal::{Proposal, ProposalEvent};
use rafter_app::state_machine::{
    ApplicationSnapshot, ApplicationSnapshotError, ApplyBatch, ApplyResult, ReadBarrier,
    ReplicatedStateMachine, SnapshotSupport,
};
use rafter_app::transport::PeerEnvelope;
use rafter_reference_sharded_counter::adapter::audit::{
    AcceptanceAuditReport, ManagedMetrics,
};
use rafter_reference_sharded_counter::adapter::cluster::drive::{
    Drive, DriveEnd, DriveEvent, DrivePhase,
};
use rafter_reference_sharded_counter::adapter::cluster::{
    self, AdmissionReceipt, CounterStep, DriverErrorKind, ExecutedTurn, FaultStep, LifecycleStep,
    ManagedAdmissionRejection, PhysicalOutcome, RecoveryOutcome, ReleaseOutcome, RouteStep,
    SessionStep, TurnItem,
};
use rafter_reference_sharded_counter::adapter::state_machine;
use rafter_reference_sharded_counter::adapter::{
    audit_acceptance, AcceptanceExpectation, AdapterError, CounterAdmissionRejected,
    CounterAdmissionRejection, CounterApplyResult, CounterStateMachine, CounterStateMachineError,
    CounterSubmitOutcome, DriveReport, ManagedCounterCluster, NetworkConfig, ProposalReceipt,
    ReplicatedCounterCommand, SessionSubmitOutcome,
};
use rafter_reference_sharded_counter::profile::mixed::{audit_mixed, MixedAudit};
use rafter_reference_sharded_counter::profile::plan::{plan_workload, PlannedAdd, Profile};
use rafter_reference_sharded_counter::profile::script::{
    judge_conservation, judge_lifecycle, judge_poison, run, run_bounds, RunAction,
    PROFILE_GROUP_QUEUE, PROFILE_QUOTA,
};
use rafter_reference_sharded_counter::profile::workload::{check_history, Workload};
use rafter_reference_sharded_counter::{
    ClientId, CounterCommand, GroupId, GroupIncarnation, GroupLifecycle, LifecycleRequest,
    LifecycleTransition, RequestIdentity, SessionEpoch, SystemClass, WorkClass, WorkQuota,
};
use rafter_runtime::DurableRaftNode;
use rafter_storage::InMemoryRaftHardStateStore;

/// One input of a counter group.
type Input = GroupInput<GroupId, ReplicatedCounterCommand>;

/// What a counter group reports of a step.
type Report = GroupStepReport<GroupId, CounterApplyResult>;

/// Failure of the state machine as the group layer reports it.
#[derive(Clone, Copy, Debug, Eq, PartialEq)]
struct MachineError(CounterStateMachineError);

impl fmt::Display for MachineError {
    fn fmt(&self, formatter: &mut fmt::Formatter<'_>) -> fmt::Result {
        formatter.write_str(self.0.message())
    }
}

impl Error for MachineError {}

/// In-memory replica.
#[derive(Debug)]
struct Machine {
    inner: CounterStateMachine,
}

impl Machine {
    /// Starts an empty replica. The caller has checked the session bound.
    fn new(max_sessions: usize) -> Self {
        Self {
            inner: CounterStateMachine::new(max_sessions),
        }
    }
}

impl ReplicatedStateMachine for Machine {
    type Command = ReplicatedCounterCommand;
    type CommandResult = CounterApplyResult;
    type Query = ();
    type QueryResult = i64;
    type Error = MachineError;

    const SNAPSHOT_SUPPORT: SnapshotSupport = SnapshotSupport::Supported;

    fn applied_index(&self) -> Result<LogIndex, Self::Error> {
        Ok(LogIndex(self.inner.applied_index()))
    }

    fn encode_command(&self, command: &Self::Command) -> Result<Vec<u8>, Self::Error> {
        self.inner.encode_command(command).map_err(MachineError)
    }

    fn decode_command(&self, payload: &[u8]) -> Result<Self::Command, Self::Error> {
        self.inner.decode_command(payload).map_err(MachineError)
    }

    fn apply_batch(
        &mut self,
        batch: ApplyBatch<Self::Command>,
    ) -> Result<Vec<ApplyResult<Self::CommandResult>>, Self::Error> {
        self.inner
            .apply_batch(entries(batch))
            .map(results)
            .map_err(MachineError)
    }

    fn read(&self, (): (), barrier: ReadBarrier) -> Result<Self::QueryResult, Self::Error> {
        self.inner
            .read(barrier.required_applied_index.0)
            .map_err(MachineError)
    }

    fn build_snapshot(
        &mut self,
        at: LogIndex,
    ) -> Result<ApplicationSnapshot, ApplicationSnapshotError<Self::Error>> {
        match self.inner.build_snapshot(at.0) {
            Ok(snapshot) => Ok(outside_snapshot(snapshot)),
            Err(error) => Err(MachineError(error).into()),
        }
    }

    fn install_snapshot(
        &mut self,
        snapshot: ApplicationSnapshot,
    ) -> Result<(), ApplicationSnapshotError<Self::Error>> {
        match self.inner.install_snapshot(library_snapshot(snapshot)) {
            Ok(()) => Ok(()),
            Err(error) => Err(MachineError(error).into()),
        }
    }
}

/// Entries of a batch.
fn entries(batch: ApplyBatch<ReplicatedCounterCommand>) -> Vec<state_machine::ApplyEntry> {
    batch
        .entries
        .into_iter()
        .map(|entry| state_machine::ApplyEntry {
            index: entry.index.0,
            term: entry.term.0,
            command: entry.command,
            local_proposal_id: entry.local_proposal_id.map(|id| id.0),
        })
        .collect()
}

/// Results of a batch.
fn results(results: Vec<state_machine::ApplyResult>) -> Vec<ApplyResult<CounterApplyResult>> {
    results
        .into_iter()
        .map(|applied| ApplyResult {
            index: LogIndex(applied.index),
            term: Term(applied.term),
            result: applied.result,
            local_proposal_id: applied.local_proposal_id.map(LocalProposalId),
        })
        .collect()
}

/// A snapshot that carries its payload.
fn outside_snapshot(snapshot: state_machine::ApplicationSnapshot) -> ApplicationSnapshot {
    ApplicationSnapshot {
        applied_index: LogIndex(snapshot.applied_index),
        payload: snapshot.payload,
        raft_snapshot: None,
    }
}

/// A snapshot that carries its payload, or the identity it was promoted under.
fn library_snapshot(snapshot: ApplicationSnapshot) -> state_machine::ApplicationSnapshot {
    state_machine::ApplicationSnapshot {
        applied_index: snapshot.applied_index.0,
        transfer_id: snapshot
            .raft_snapshot
            .as_ref()
            .map(|descriptor| descriptor.transfer_id().0),
        payload: snapshot.payload,
    }
}

/// Input that proposes a command.
fn proposal(proposal_id: u64, command: ReplicatedCounterCommand) -> Input {
    GroupInput::Proposal {
        proposal: Proposal {
            local_proposal_id: LocalProposalId(proposal_id),
            client_request_id: None,
            command,
        },
    }
}

/// Envelope as the library names it.
fn library_envelope(envelope: PeerEnvelope<GroupId>) -> cluster::PeerEnvelope {
    cluster::PeerEnvelope {
        group_id: envelope.group_id,
        from: envelope.from.0,
        to: envelope.to.0,
        message: envelope.message,
    }
}

/// Input that delivers an envelope.
fn peer_input(envelope: &cluster::PeerEnvelope) -> Input {
    GroupInput::PeerMessage {
        envelope: PeerEnvelope {
            group_id: envelope.group_id,
            from: NodeId(envelope.from),
            to: NodeId(envelope.to),
            message: envelope.message.clone(),
        },
    }
}

/// What the cluster policy reads of a group report.
fn group_report(report: Report) -> cluster::GroupReport {
    cluster::GroupReport {
        group_id: report.group_id,
        proposal_events: report
            .proposal_events
            .into_iter()
            .filter_map(|event| match event {
                ProposalEvent::Applied {
                    local_proposal_id,
                    result,
                    ..
                } => Some(cluster::ProposalEvent {
                    proposal_id: local_proposal_id.0,
                    result,
                }),
                _ => None,
            })
            .collect(),
        applied: report
            .applied
            .into_iter()
            .map(|applied| cluster::AppliedItem {
                index: applied.index.0,
                result: applied.result,
                local_proposal_id: applied.local_proposal_id.map(|id| id.0),
            })
            .collect(),
        peer_messages: report
            .peer_messages
            .into_iter()
            .map(library_envelope)
            .collect(),
    }
}

type Group = RaftGroup<GroupId, Machine, DurableRaftNode>;

/// Why the cluster could not go on.
#[derive(Debug)]
enum ClusterError {
    /// The policy or a group refused.
    Adapter(AdapterError),
    /// A remote replica failed.
    Remote(AdapterError, ErrorCause),
    /// Local proposal identities are used up.
    ProposalsExhausted,
    /// A count of the run is used up.
    CountsExhausted,
}

impl From<AdapterError> for ClusterError {
    fn from(error: AdapterError) -> Self {
        Self::Adapter(error)
    }
}

/// Work taken from the queue of a group for one turn.
struct Turn {
    pass_id: u64,
    dispatch_id: u64,
    group_id: GroupId,
    work: Vec<(u64, WorkClass, Input)>,
}

/// The local replica of a group.
struct Local {
    group: Group,
    quota: usize,
    available: bool,
    in_flight: bool,
    queue: VecDeque<(u64, WorkClass, Input)>,
}

/// Bounded queues in front of the local replicas.
struct Locals {
    groups: BTreeMap<GroupId, Local>,
    workers: usize,
    group_bound: usize,
    global_bound: usize,
    pass: Option<VecDeque<GroupId>>,
    passes: u64,
    dispatches: u64,
    admitted: u64,
    serviced: u64,
    failed: u64,
}

impl Locals {
    fn queued(&self) -> usize {
        self.groups.values().map(|local| local.queue.len()).sum()
    }

    fn occupied(&self) -> usize {
        self.groups.values().filter(|local| local.in_flight).count()
    }

    fn offer(
        &mut self,
        group_id: GroupId,
        class: WorkClass,
        input: Input,
    ) -> Result<AdmissionReceipt, ManagedAdmissionRejection> {
        let queued = self.queued();
        let bound = self.group_bound;
        let Some(local) = self.groups.get_mut(&group_id) else {
            return Err(ManagedAdmissionRejection::UnknownGroup(group_id));
        };
        if local.queue.len() == bound {
            return Err(ManagedAdmissionRejection::GroupQueueFull { group_id, bound });
        }
        if queued == self.global_bound {
            return Err(ManagedAdmissionRejection::GlobalQueueFull {
                bound: self.global_bound,
            });
        }
        self.admitted += 1;
        local.queue.push_back((self.admitted, class, input));
        Ok(AdmissionReceipt {
            work_id: self.admitted,
            group_queue_depth: local.queue.len(),
            global_queue_depth: queued + 1,
        })
    }

    fn set_available(&mut self, group_id: GroupId, available: bool) -> bool {
        let Some(local) = self.groups.get_mut(&group_id) else {
            return false;
        };
        local.available = available;
        true
    }

    fn arm(&mut self, report: &mut DriveReport) -> DriveEvent {
        if self.pass.is_none() {
            let ready = self
                .groups
                .iter()
                .filter(|(_, local)| {
                    local.available && !local.in_flight && !local.queue.is_empty()
                })
                .map(|(group_id, _)| *group_id)
                .collect::<Vec<_>>();
            if ready.is_empty() {
                return DriveEvent::Nothing;
            }
            self.passes += 1;
            self.pass = Some(ready.iter().copied().collect());
            report.plans.push(ready);
        }
        DriveEvent::Armed
    }

    fn begin(&mut self) -> Result<Turn, DriveEvent> {
        let occupied = self.occupied();
        let Some(pass) = self.pass.as_mut() else {
            return Err(DriveEvent::Nothing);
        };
        if pass.is_empty() {
            self.pass = None;
            return Err(DriveEvent::PassEnded);
        }
        if occupied == self.workers {
            return Err(DriveEvent::PassEnded);
        }
        let group_id = pass.pop_front().expect("the pass has a group left");
        let Some(local) = self.groups.get_mut(&group_id) else {
            return Err(DriveEvent::Turned);
        };
        if !local.available || local.in_flight || local.queue.is_empty() {
            return Err(DriveEvent::Turned);
        }
        local.in_flight = true;
        self.dispatches += 1;
        let count = local.quota.min(local.queue.len());
        Ok(Turn {
            pass_id: self.passes,
            dispatch_id: self.dispatches,
            group_id,
            work: local.queue.drain(..count).collect(),
        })
    }

    fn execute(&mut self, turn: Turn) -> ExecutedTurn {
        let local = self
            .groups
            .get_mut(&turn.group_id)
            .expect("a group in flight is open");
        local.in_flight = false;
        let mut items = VecDeque::new();
        for (work_id, class, input) in turn.work {
            let result = match local.group.step(input) {
                Ok(step) => {
                    self.serviced += 1;
                    Ok(group_report(step))
                }
                Err(_) => {
                    self.failed += 1;
                    Err(
                        if matches!(local.group.fatal_state(), GroupFatalState::Poisoned { .. }) {
                            local.available = false;
                            DriverErrorKind::DriverPoisoned
                        } else {
                            DriverErrorKind::DriverTransient
                        },
                    )
                }
            };
            items.push_back(TurnItem {
                work_id,
                class,
                result,
            });
        }
        ExecutedTurn {
            pass_id: turn.pass_id,
            dispatch_id: turn.dispatch_id,
            group_id: turn.group_id,
            items,
        }
    }

    fn metrics(&self, held: usize) -> ManagedMetrics {
        ManagedMetrics {
            queued: self.queued(),
            in_flight_work: held,
            occupied_workers: self.occupied(),
            admitted: self.admitted,
            serviced: self.serviced,
            failed: self.failed,
        }
    }
}

/// The cluster with its local queues.
struct HostedCluster {
    host: Locals,
    peers: BTreeMap<(GroupId, NodeId), Group>,
    held: BTreeMap<u64, Turn>,
    policy: ManagedCounterCluster,
    max_sessions: usize,
}

impl HostedCluster {
    /// Starts without a group.
    fn new(host: Locals, network: NetworkConfig) -> Self {
        Self {
            host,
            peers: BTreeMap::new(),
            held: BTreeMap::new(),
            policy: ManagedCounterCluster::new(network),
            max_sessions: network.max_sessions_per_group,
        }
    }

    /// The policy.
    fn policy(&self) -> &ManagedCounterCluster {
        &self.policy
    }

    /// Counters of the local queues.
    fn metrics(&self) -> ManagedMetrics {
        self.host
            .metrics(self.held.values().map(|turn| turn.work.len()).sum())
    }

    /// Holds the future turns of a group for so many rounds.
    fn set_service_delay(&mut self, group_id: GroupId, rounds: usize) {
        self.policy.set_service_delay(group_id, rounds);
    }

    /// Registers a first incarnation.
    fn register_group(&mut self, group_id: GroupId, quota: usize) -> Result<(), ClusterError> {
        let opened = match self.policy.registration_quota(group_id, quota) {
            Ok(quota) => self.open_physical_group(group_id, quota),
            Err(error) => return Err(error.into()),
        };
        Ok(self.policy.register_group(group_id, quota, opened)?)
    }

    /// Moves a created group into recovery.
    fn recover_group(&mut self, group_id: GroupId) -> Result<(), ClusterError> {
        let expected = GroupLifecycle::Creating;
        self.policy.require_lifecycle(group_id, expected)?;
        let outcome = self.schedule_recovery(group_id);
        Ok(self.policy.recover_group(group_id, outcome)?)
    }

    /// Marks a recovered group ready.
    fn serve_group(&mut self, group_id: GroupId) -> Result<(), ClusterError> {
        Ok(self.policy.serve_group(group_id)?)
    }

    /// Opens a session on the current incarnation.
    fn open_session(
        &mut self,
        group_id: GroupId,
        client_id: ClientId,
        epoch: SessionEpoch,
    ) -> Result<Result<SessionSubmitOutcome, CounterAdmissionRejected>, ClusterError> {
        if !self.policy.can_open_session(group_id, client_id, epoch) {
            return Err(ClusterError::ProposalsExhausted);
        }
        match self.policy.open_session(group_id, client_id, epoch) {
            SessionStep::Done(outcome) => Ok(Ok(outcome)),
            SessionStep::Refused(rejected) => Ok(Err(rejected)),
            SessionStep::Admit {
                incarnation,
                proposal_id,
            } => {
                let command = ReplicatedCounterCommand::OpenSession { client_id, epoch };
                let admission =
                    self.offer(group_id, WorkClass::Control, proposal(proposal_id, command));
                Ok(self.policy.session_admitted(
                    group_id,
                    incarnation,
                    client_id,
                    epoch,
                    proposal_id,
                    admission,
                ))
            }
        }
    }

    /// Submits a counter request to the current incarnation.
    fn submit(
        &mut self,
        group_id: GroupId,
        request: RequestIdentity,
        command: CounterCommand,
    ) -> Result<Result<CounterSubmitOutcome, CounterAdmissionRejected>, ClusterError> {
        self.require_proposal_identity()?;
        match self.policy.submit(group_id, request, command) {
            CounterStep::Done(outcome) => Ok(Ok(outcome)),
            CounterStep::Refused(rejected) => Ok(Err(rejected)),
            CounterStep::Admit {
                incarnation,
                proposal_id,
            } => {
                let proposed = ReplicatedCounterCommand::Counter { request, command };
                let admission =
                    self.offer(group_id, WorkClass::Command, proposal(proposal_id, proposed));
                Ok(self.policy.counter_admitted(
                    group_id,
                    incarnation,
                    request,
                    command,
                    proposal_id,
                    admission,
                ))
            }
        }
    }

    /// Submits a tick in a class of its own.
    fn submit_system(
        &mut self,
        group_id: GroupId,
        incarnation: GroupIncarnation,
        class: SystemClass,
    ) -> Result<AdmissionReceipt, CounterAdmissionRejection> {
        let class = self
            .policy
            .submit_system(group_id, incarnation, class)
            .map_err(CounterAdmissionRejection::Policy)?;
        self.offer(group_id, class, GroupInput::Tick)
            .map_err(CounterAdmissionRejection::Managed)
    }

    /// Submits faulty work.
    fn submit_fault(
        &mut self,
        group_id: GroupId,
        class: SystemClass,
    ) -> Result<Result<ProposalReceipt, CounterAdmissionRejected>, ClusterError> {
        self.require_proposal_identity()?;
        match self.policy.submit_fault(group_id, class) {
            FaultStep::Refused(rejected) => Ok(Err(rejected)),
            FaultStep::Admit {
                incarnation,
                proposal_id,
            } => {
                let input = proposal(proposal_id, ReplicatedCounterCommand::Faulty);
                let admission = self.offer(group_id, class.class(), input);
                Ok(self
                    .policy
                    .fault_admitted(group_id, incarnation, proposal_id, admission))
            }
        }
    }

    /// Applies a lifecycle request.
    fn lifecycle(
        &mut self,
        group_id: GroupId,
        request: LifecycleRequest,
    ) -> Result<LifecycleTransition, ClusterError> {
        let physical = match (self.policy.lifecycle_step(group_id, request), request) {
            (LifecycleStep::Open { .. }, LifecycleRequest::Create { quota }) => {
                match self.open_physical_group(group_id, quota) {
                    Ok(()) => PhysicalOutcome::Opened,
                    Err(kind) => PhysicalOutcome::NotOpened(kind),
                }
            }
            (LifecycleStep::Schedule, _) => {
                PhysicalOutcome::Recovery(self.schedule_recovery(group_id))
            }
            (LifecycleStep::Release, _) => PhysicalOutcome::Release(self.release(group_id)),
            (LifecycleStep::Answer(_) | LifecycleStep::Open { .. }, _) => PhysicalOutcome::Unasked,
        };
        Ok(self.policy.lifecycle(group_id, request, physical)?)
    }

    /// Drives the cluster until nothing moves, for so many rounds at most.
    fn drive_until_idle(&mut self, max_rounds: usize) -> Result<DriveReport, ClusterError> {
        let mut drive = Drive::new(max_rounds);
        let mut report = DriveReport::new();
        let mut due = VecDeque::new();
        loop {
            let stepped = match drive.phase {
                DrivePhase::Ended { end } => {
                    return match end {
                        DriveEnd::Idle => Ok(report),
                        DriveEnd::Exhausted { rounds } => {
                            Err(AdapterError::ProgressBudgetExhausted { rounds }.into())
                        }
                        DriveEnd::Failed => Err(AdapterError::IdentityExhausted.into()),
                    };
                }
                DrivePhase::Restore => {
                    self.restore_poisoned_for_explicit_drain();
                    let held = self.policy.has_delayed();
                    due = self.policy.progress_delayed().into();
                    Ok(DriveEvent::Progressed {
                        held,
                        due: due.len(),
                    })
                }
                DrivePhase::Execute { .. } => {
                    let dispatch = due
                        .pop_front()
                        .and_then(|id| self.held.remove(&id))
                        .expect("a due dispatch is held");
                    self.execute_dispatch(dispatch, &mut report)
                        .map(|()| DriveEvent::Executed)
                }
                DrivePhase::Measure => Ok(DriveEvent::Measured {
                    envelopes: self.policy.pending_peers(),
                }),
                DrivePhase::Route { .. } => self.route_network(&mut report),
                DrivePhase::Arm => Ok(self.host.arm(&mut report)),
                DrivePhase::Dispatch => self.dispatch(&mut report),
                DrivePhase::Settle => Ok(DriveEvent::Settled {
                    quiet: self.policy.is_idle(false, false, self.host.queued()),
                }),
            };
            drive = drive.advance(stepped?);
        }
    }

    fn require_proposal_identity(&self) -> Result<(), ClusterError> {
        if self.policy.can_propose() {
            Ok(())
        } else {
            Err(ClusterError::ProposalsExhausted)
        }
    }

    fn offer(
        &mut self,
        group_id: GroupId,
        class: WorkClass,
        input: Input,
    ) -> Result<AdmissionReceipt, ManagedAdmissionRejection> {
        self.host.offer(group_id, class, input)
    }

    fn restore_poisoned_for_explicit_drain(&mut self) {
        let groups = self
            .peers
            .keys()
            .map(|(group_id, _)| *group_id)
            .collect::<Vec<_>>();
        for group_id in groups {
            if self.policy.is_poisoned(group_id) {
                self.host.set_available(group_id, true);
            }
        }
    }

    fn dispatch(&mut self, report: &mut DriveReport) -> Result<DriveEvent, ClusterError> {
        match self.host.begin() {
            Ok(turn) => {
                let id = turn.dispatch_id;
                if self.policy.begin_turn(id, turn.group_id, report) {
                    self.execute_dispatch(turn, report)?;
                } else {
                    self.held.insert(id, turn);
                }
                Ok(DriveEvent::Turned)
            }
            Err(event) => Ok(event),
        }
    }

    fn execute_dispatch(
        &mut self,
        turn: Turn,
        report: &mut DriveReport,
    ) -> Result<(), ClusterError> {
        let executed = self.host.execute(turn);
        Ok(self.policy.record_turn(executed, report)?)
    }

    fn route_network(&mut self, report: &mut DriveReport) -> Result<DriveEvent, ClusterError> {
        match self.policy.route_next(report) {
            RouteStep::Idle | RouteStep::Refused => Ok(DriveEvent::Routed),
            RouteStep::Local(routed) => {
                let group_id = routed.envelope.group_id;
                let input = peer_input(&routed.envelope);
                if self.offer(group_id, WorkClass::Control, input).is_ok() {
                    return Ok(DriveEvent::Routed);
                }
                self.policy.return_peer(routed);
                Ok(DriveEvent::Returned)
            }
            RouteStep::Remote(routed) => {
                let group_id = routed.envelope.group_id;
                let node_id = routed.envelope.to;
                let Some(peer) = self.peers.get_mut(&(group_id, NodeId(node_id))) else {
                    return Err(self.policy.missing_peer(group_id).into());
                };
                let input = peer_input(&routed.envelope);
                match peer.step(input) {
                    Ok(step) => self.policy.collect_report(group_report(step))?,
                    Err(error) => {
                        if !matches!(peer.fatal_state(), GroupFatalState::Poisoned { .. }) {
                            return Err(ClusterError::Remote(
                                AdapterError::RemoteStep { group_id, node_id },
                                ErrorCause::new(error),
                            ));
                        }
                        if report.remote_failures == u64::MAX {
                            return Err(ClusterError::CountsExhausted);
                        }
                        self.policy.remote_poisoned(group_id, report);
                    }
                }
                Ok(DriveEvent::Routed)
            }
        }
    }

    fn schedule_recovery(&mut self, group_id: GroupId) -> RecoveryOutcome {
        if !self.host.set_available(group_id, true) {
            return RecoveryOutcome::NotRegistered;
        }
        match self.offer(group_id, WorkClass::Control, GroupInput::Tick) {
            Ok(_) => RecoveryOutcome::Scheduled,
            Err(reason) => {
                self.host.set_available(group_id, false);
                RecoveryOutcome::Refused(reason)
            }
        }
    }

    fn release(&mut self, group_id: GroupId) -> ReleaseOutcome {
        if let Some(local) = self.host.groups.get(&group_id) {
            if !local.queue.is_empty() {
                return ReleaseOutcome::Queued {
                    items: local.queue.len(),
                };
            }
            if local.in_flight {
                return ReleaseOutcome::InFlight;
            }
        }
        self.host.groups.remove(&group_id);
        self.peers.remove(&(group_id, NodeId(2)));
        self.peers.remove(&(group_id, NodeId(3)));
        ReleaseOutcome::Released
    }

    fn open_physical_group(
        &mut self,
        group_id: GroupId,
        quota: WorkQuota,
    ) -> Result<(), DriverErrorKind> {
        if self.host.groups.contains_key(&group_id) {
            return Err(DriverErrorKind::GroupAlreadyOpen);
        }
        let local = Local {
            group: self.group(group_id, NodeId(1)),
            quota: usize::try_from(quota.get()).expect("a quota is a count"),
            available: false,
            in_flight: false,
            queue: VecDeque::new(),
        };
        self.host.groups.insert(group_id, local);
        for node in [NodeId(2), NodeId(3)] {
            let remote = self.group(group_id, node);
            self.peers.insert((group_id, node), remote);
        }
        Ok(())
    }

    fn group(&self, group_id: GroupId, node_id: NodeId) -> Group {
        let peers = [NodeId(1), NodeId(2), NodeId(3)]
            .into_iter()
            .filter(|peer| *peer != node_id)
            .collect();
        let config = NodeConfig::new(node_id, peers, 1)
            .expect("the fixed three-node membership is valid")
            .with_pre_vote(false);
        let runtime = DurableRaftNode::new(config, InMemoryRaftHardStateStore::new())
            .expect("fresh in-memory durable storage opens");
        RaftGroup::new(group_id, node_id, runtime, Machine::new(self.max_sessions))
    }
}

/// One run of a profile.
struct Run {
    cluster: HostedCluster,
    workload: Workload,
    expectation: Option<AcceptanceExpectation>,
    report: DriveReport,
    fault: Option<u64>,
    baseline: Option<AcceptanceAuditReport>,
    mixed: Option<MixedAudit>,
}

impl Run {
    fn start(profile: Profile) -> Result<Self, String> {
        let bounds = run_bounds(profile).ok_or_else(|| "profile bounds overflowed".to_string())?;
        let host = Locals {
            groups: BTreeMap::new(),
            workers: profile.workers,
            group_bound: PROFILE_GROUP_QUEUE,
            global_bound: bounds.global_queue,
            pass: None,
            passes: 0,
            dispatches: 0,
            admitted: 0,
            serviced: 0,
            failed: 0,
        };
        let network = NetworkConfig {
            max_pending_messages: bounds.pending_messages,
            max_sessions_per_group: bounds.sessions,
        };
        Ok(Self {
            cluster: HostedCluster::new(host, network),
            workload: Workload::new(),
            expectation: None,
            report: DriveReport::new(),
            fault: None,
            baseline: None,
            mixed: None,
        })
    }

    fn perform(&mut self, profile: Profile, action: RunAction) -> Result<(), String> {
        match action {
            RunAction::Register { group_id } => self
                .cluster
                .register_group(group_id, PROFILE_QUOTA)
                .map_err(|error| format!("{error:?}")),
            RunAction::Recover { group_id } => self
                .cluster
                .recover_group(group_id)
                .map_err(|error| format!("{error:?}")),
            RunAction::Serve { group_id } => self
                .cluster
                .serve_group(group_id)
                .map_err(|error| format!("{error:?}")),
            RunAction::Drive { rounds } => {
                self.report = self
                    .cluster
                    .drive_until_idle(rounds)
                    .map_err(|error| format!("{error:?}"))?;
                Ok(())
            }
            RunAction::OpenSession {
                group_id,
                client_id,
            } => match self
                .cluster
                .open_session(group_id, client_id, epoch())
                .map_err(|error| format!("{error:?}"))?
            {
                Ok(SessionSubmitOutcome::Queued(_)) => Ok(()),
                Ok(other) => Err(format!("fresh session was not queued: {other:?}")),
                Err(error) => Err(format!("session admission failed: {error:?}")),
            },
            RunAction::Add { add } => self.admit_add(add),
            RunAction::Expect => {
                self.expectation = Some(self.workload.expectation(profile.groups));
                Ok(())
            }
            RunAction::AuditBaseline => {
                let expectation = self
                    .expectation
                    .take()
                    .ok_or_else(|| "the run expects nothing".to_string())?;
                let audit = audit_acceptance(&expectation, &self.report, &self.cluster.metrics())
                    .map_err(|error| format!("baseline acceptance audit failed: {error:?}"))?;
                self.baseline = Some(audit);
                Ok(())
            }
            RunAction::AuditMixed => {
                let audit = audit_mixed(self.workload.accepted(), &self.report)
                    .map_err(|error| format!("mixed audit failed: {error:?}"))?;
                self.mixed = Some(audit);
                Ok(())
            }
            RunAction::CheckHistory => check_history(self.cluster.policy(), self.workload.history())
                .map_err(|error| format!("history differs: {error:?}")),
            RunAction::System { group_id, class } => {
                let receipt = self
                    .cluster
                    .submit_system(group_id, GroupIncarnation::first(), class)
                    .map_err(|error| format!("pressure admission failed: {error:?}"))?;
                self.workload.admit_system(group_id, class, receipt.work_id);
                Ok(())
            }
            RunAction::SetDelay { slow } => {
                self.cluster.set_service_delay(slow.group_id, slow.rounds);
                Ok(())
            }
            RunAction::Fault { group_id } => {
                let receipt = self
                    .cluster
                    .submit_fault(
                        group_id,
                        SystemClass::Control,
                    )
                    .map_err(|error| format!("{error:?}"))?
                    .map_err(|error| format!("fault admission failed: {error:?}"))?;
                self.fault = Some(receipt.proposal_id);
                Ok(())
            }
            RunAction::CheckPoison { group_id } => {
                let poisoned = self.cluster.policy().is_poisoned(group_id);
                let completed = self
                    .fault
                    .is_some_and(|id| self.cluster.policy().completed(id).is_some());
                if judge_poison(poisoned, completed) {
                    return Ok(());
                }
                Err(format!(
                    "fault group {} did not publish poison and suppress completion",
                    group_id.get()
                ))
            }
            RunAction::Lifecycle {
                group_id,
                request,
                expected,
            } => {
                let transition = self
                    .cluster
                    .lifecycle(group_id, request)
                    .map_err(|error| format!("{error:?}"))?;
                if judge_lifecycle(expected, transition.outcome) {
                    return Ok(());
                }
                Err(format!(
                    "lifecycle of group {} answered {request:?} with {transition:?}",
                    group_id.get()
                ))
            }
            RunAction::Conservation => {
                let metrics = self.cluster.metrics();
                if judge_conservation(metrics) {
                    return Ok(());
                }
                Err(format!("final queue conservation failed: {metrics:?}"))
            }
        }
    }

    fn admit_add(&mut self, add: PlannedAdd) -> Result<(), String> {
        if !self.workload.takes(add) {
            return Err("the planned request cannot be made".to_string());
        }
        let (request, command) = self.workload.next_request(add);
        let outcome = self
            .cluster
            .submit(add.group_id, request, command)
            .map_err(|error| format!("{error:?}"))?
            .map_err(|error| format!("counter admission failed: {error:?}"))?;
        self.workload
            .admit_add(add, outcome)
            .map_err(|other| format!("fresh profile request did not queue: {other:?}"))
    }
}

fn epoch() -> SessionEpoch {
    SessionEpoch::new(1).expect("epoch is nonzero")
}

#[test]
fn the_fast_profile_is_certified_on_real_replicas() {
    let profile = Profile::named("counter-fast").expect("the profile exists");
    let plan = plan_workload(profile, profile.default_seed);
    let mut execution = Run::start(profile).expect("the run starts");
    for action in run(profile, &plan) {
        execution
            .perform(profile, action)
            .expect("every step of the run is certified");
    }
    assert!(execution.baseline.is_some());
    assert!(execution.mixed.is_some());
    assert!(judge_conservation(execution.cluster.metrics()));
    assert_eq!(
        check_history(execution.cluster.policy(), execution.workload.history()),
        Ok(())
    );
}
