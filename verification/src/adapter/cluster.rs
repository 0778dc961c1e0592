//! Consumer policy around a managed group host: slots, sessions, accepted proposals and the
//! deterministic network. The physical host is driven outside: every operation that needs it says
//! what to do, and takes what came of it.

pub mod checkpoint;
pub mod drive;
pub mod laws;
pub mod policy;
pub mod state;

use rafter::Message;
use vstd::prelude::*;

use std::collections::VecDeque;

use crate::adapter::cluster::state::{
    driven, due_dispatches, group_key, held_dispatches, ordered_insert, serviced_in, session_key,
    ClusterState,
};
use crate::adapter::state_machine::{
    CounterApplyResult, CounterCompletedView, ReplicatedCounterCommand,
};
use crate::table::Table;
use crate::types::{
    AdmissionRejection, ClientId, CounterCommand, CounterResult, GroupId, GroupIncarnation,
    GroupLifecycle, LifecycleOutcome, LifecycleRejection, LifecycleRequest, LifecycleTransition,
    RequestFingerprint, RequestIdentity, Sequence, SessionEpoch, SystemClass, WorkClass, WorkQuota,
};

verus! {

/// Managed queue admission of one item.
#[derive(Clone, Copy, Debug, Eq, PartialEq, Structural)]
pub struct AdmissionReceipt {
    /// Stable identity assigned to the accepted item.
    pub work_id: u64,
    /// Queue depth of the selected group after admission.
    pub group_queue_depth: usize,
    /// Total queue depth after admission.
    pub global_queue_depth: usize,
}

/// Why the managed scheduler refused an item.
#[derive(Clone, Copy, Debug, Eq, PartialEq, Structural)]
pub enum ManagedAdmissionRejection {
    /// The group is not registered.
    UnknownGroup(GroupId),
    /// The group has reached its queue bound.
    GroupQueueFull {
        /// Selected group.
        group_id: GroupId,
        /// Configured bound.
        bound: usize,
    },
    /// The host has reached its total queue bound.
    GlobalQueueFull {
        /// Configured bound.
        bound: usize,
    },
    /// No further work identity can be assigned.
    WorkIdentityExhausted,
}

/// How a group driver failed.
#[derive(Clone, Copy, Debug, Eq, PartialEq, Structural)]
pub enum DriverErrorKind {
    /// A key was opened twice.
    GroupAlreadyOpen,
    /// A key is not open.
    UnknownGroup,
    /// A group identity did not match its key.
    WrongGroup,
    /// A driver reported on another group.
    InvalidReport,
    /// A driver reported something the host does not know.
    UnrecognizedEvent,
    /// A driver failed permanently.
    DriverPoisoned,
    /// A driver failed without being finished.
    DriverTransient,
}

/// Queue receipt paired with the local proposal identity used at apply time.
#[derive(Clone, Copy, Debug, Eq, PartialEq, Structural)]
pub struct ProposalReceipt {
    /// Managed queue admission.
    pub admission: AdmissionReceipt,
    /// Local proposal identity later attached to its apply result.
    pub proposal_id: u64,
}

/// One accepted request that has not been applied.
#[derive(Clone, Copy, Debug, Eq, PartialEq, Structural)]
pub struct OutstandingRequest {
    /// Request sequence.
    pub sequence: Sequence,
    /// Exact command bound to the request.
    pub command: CounterCommand,
    /// Receipt it was accepted under.
    pub receipt: ProposalReceipt,
}

/// One client's admission state in a group.
#[derive(Clone, Copy, Debug, Eq, PartialEq, Structural)]
pub struct AdapterSession {
    /// Active session generation.
    pub epoch: SessionEpoch,
    /// Accepted request not yet applied.
    pub outstanding: Option<OutstandingRequest>,
    /// Highest applied request.
    pub completed: Option<CounterCompletedView>,
}

/// Consumer-owned state of one group slot.
#[derive(Clone, Copy, Debug, Eq, PartialEq, Structural)]
pub struct GroupSlot {
    /// Current incarnation.
    pub incarnation: GroupIncarnation,
    /// Lifecycle state.
    pub lifecycle: GroupLifecycle,
    /// Per-turn quota of the incarnation.
    pub quota: WorkQuota,
    /// Highest log index observed applied.
    pub applied_index: u64,
    /// Counter value observed last.
    pub value: i64,
    /// Whether the group was observed to be permanently poisoned.
    pub poisoned: bool,
}

/// One accepted proposal that neither completed nor failed.
#[derive(Clone, Copy, Debug, Eq, PartialEq, Structural)]
pub enum PendingProposal {
    /// Session establishment.
    OpenSession {
        /// Group it was accepted for.
        group_id: GroupId,
        /// Incarnation that accepted it.
        incarnation: GroupIncarnation,
        /// Client slot.
        client_id: ClientId,
        /// Requested generation.
        epoch: SessionEpoch,
        /// Receipt.
        receipt: ProposalReceipt,
    },
    /// Counter request.
    Counter {
        /// Group it was accepted for.
        group_id: GroupId,
        /// Incarnation that accepted it.
        incarnation: GroupIncarnation,
        /// Exact request identity.
        request: RequestIdentity,
        /// Counter operation.
        command: CounterCommand,
        /// Receipt.
        receipt: ProposalReceipt,
    },
    /// Faulty work.
    Fault {
        /// Group it was accepted for.
        group_id: GroupId,
        /// Incarnation that accepted it.
        incarnation: GroupIncarnation,
        /// Receipt.
        receipt: ProposalReceipt,
    },
}

impl PendingProposal {
    fn group_id(self) -> (r: GroupId)
        ensures
            r == self.group(),
    {
        match self {
            PendingProposal::OpenSession { group_id, .. } => group_id,
            PendingProposal::Counter { group_id, .. } => group_id,
            PendingProposal::Fault { group_id, .. } => group_id,
        }
    }

    fn receipt(self) -> (r: ProposalReceipt)
        ensures
            r == self.accepted(),
    {
        match self {
            PendingProposal::OpenSession { receipt, .. } => receipt,
            PendingProposal::Counter { receipt, .. } => receipt,
            PendingProposal::Fault { receipt, .. } => receipt,
        }
    }

    fn incarnation(self) -> (r: GroupIncarnation)
        ensures
            r == self.generation(),
    {
        match self {
            PendingProposal::OpenSession { incarnation, .. } => incarnation,
            PendingProposal::Counter { incarnation, .. } => incarnation,
            PendingProposal::Fault { incarnation, .. } => incarnation,
        }
    }
}

/// One peer message with its route. The message itself is not interpreted here.
#[derive(Debug, Eq, PartialEq)]
pub struct PeerEnvelope {
    /// Group the message belongs to.
    pub group_id: GroupId,
    /// Sending node.
    pub from: u64,
    /// Receiving node.
    pub to: u64,
    /// The message.
    pub message: Message,
}

/// Peer envelope paired with the consumer incarnation that emitted it.
#[derive(Debug, Eq, PartialEq)]
pub struct RoutedPeerEnvelope {
    /// Group incarnation whose driver emitted the envelope.
    pub incarnation: GroupIncarnation,
    /// Exact peer envelope.
    pub envelope: PeerEnvelope,
}

/// One dispatch held for its group's service delay.
#[derive(Clone, Copy, Debug, Eq, PartialEq, Structural)]
pub struct DelayedDispatch {
    /// Rounds left before it is executed.
    pub remaining_rounds: usize,
    /// Exact dispatch.
    pub dispatch_id: u64,
}

/// Bounds owned by the deterministic consumer network and state machines.
#[derive(Clone, Copy, Debug, Eq, PartialEq, Structural)]
pub struct NetworkConfig {
    /// Peer envelopes retained before deterministic delivery.
    pub max_pending_messages: usize,
    /// Replicated client-session slots in each group.
    pub max_sessions_per_group: usize,
}

/// Stable outcome of counter admission.
#[derive(Clone, Copy, Debug, Eq, PartialEq, Structural)]
pub enum CounterSubmitOutcome {
    /// New work took one managed queue slot.
    Queued(ProposalReceipt),
    /// An exact retry names the already queued work and took no second slot.
    AlreadyQueued(ProposalReceipt),
    /// An exact retry was answered from the completed session cache.
    Replayed(CounterResult),
}

/// Stable outcome of replicated session establishment admission.
#[derive(Clone, Copy, Debug, Eq, PartialEq, Structural)]
pub enum SessionSubmitOutcome {
    /// New session work took one managed queue slot.
    Queued(ProposalReceipt),
    /// An exact retry names the already queued session proposal.
    AlreadyQueued(ProposalReceipt),
    /// The requested epoch is already active.
    AlreadyOpen,
}

/// Why consumer policy or the managed mechanism refused a proposal.
#[derive(Clone, Copy, Debug, Eq, PartialEq, Structural)]
pub enum CounterAdmissionRejection {
    /// A consumer-owned identity, lifecycle, session or request gate refused.
    Policy(AdmissionRejection),
    /// The scheduler refused the queue admission.
    Managed(ManagedAdmissionRejection),
}

/// Refusal naming the exact proposal that took no queue slot.
#[derive(Clone, Copy, Debug, Eq, PartialEq, Structural)]
pub struct CounterAdmissionRejected {
    /// Typed consumer or managed refusal.
    pub reason: CounterAdmissionRejection,
    /// Identity the refused proposal had taken.
    pub proposal_id: u64,
    /// Unmodified command.
    pub command: ReplicatedCounterCommand,
}

/// What consumer policy answers to a counter request.
#[derive(Clone, Copy, Debug, Eq, PartialEq, Structural)]
pub enum PolicyAnswer {
    /// Refused.
    Refused(AdmissionRejection),
    /// Exact retry of a completed request.
    Replayed(CounterResult),
    /// Exact retry of an accepted request.
    AlreadyQueued(ProposalReceipt),
    /// New work.
    New,
}

/// What becomes of a session request before the managed queue is asked.
#[derive(Clone, Copy, Debug, Eq, PartialEq, Structural)]
pub enum SessionStep {
    /// Answered without new work.
    Done(SessionSubmitOutcome),
    /// Refused by policy.
    Refused(CounterAdmissionRejected),
    /// The proposal is to be offered to the managed queue in the control class.
    Admit {
        /// Incarnation it is accepted under.
        incarnation: GroupIncarnation,
        /// Proposal identity.
        proposal_id: u64,
    },
}

/// What becomes of a counter request before the managed queue is asked.
#[derive(Clone, Copy, Debug, Eq, PartialEq, Structural)]
pub enum CounterStep {
    /// Answered without new work.
    Done(CounterSubmitOutcome),
    /// Refused by policy.
    Refused(CounterAdmissionRejected),
    /// The proposal is to be offered to the managed queue in the command class.
    Admit {
        /// Incarnation it is accepted under.
        incarnation: GroupIncarnation,
        /// Proposal identity.
        proposal_id: u64,
    },
}

/// What becomes of faulty work before the managed queue is asked.
#[derive(Clone, Copy, Debug, Eq, PartialEq, Structural)]
pub enum FaultStep {
    /// Refused by policy.
    Refused(CounterAdmissionRejected),
    /// The proposal is to be offered to the managed queue in its class.
    Admit {
        /// Incarnation it is accepted under.
        incarnation: GroupIncarnation,
        /// Proposal identity.
        proposal_id: u64,
    },
}

/// What a lifecycle request asks of the physical host.
#[derive(Clone, Copy, Debug, Eq, PartialEq, Structural)]
pub enum LifecycleStep {
    /// Nothing: this is the answer.
    Answer(LifecycleOutcome),
    /// Open the group's drivers.
    Open {
        /// Incarnation the slot takes on.
        incarnation: GroupIncarnation,
    },
    /// Make the group available and admit its election tick.
    Schedule,
    /// Release the group's drivers.
    Release,
}

/// What came of scheduling a recovery.
#[derive(Clone, Copy, Debug, Eq, PartialEq, Structural)]
pub enum RecoveryOutcome {
    /// The election tick is queued.
    Scheduled,
    /// The host does not know the group.
    NotRegistered,
    /// The scheduler refused the tick.
    Refused(ManagedAdmissionRejection),
}

/// What came of releasing a group.
#[derive(Clone, Copy, Debug, Eq, PartialEq, Structural)]
pub enum ReleaseOutcome {
    /// The group is gone.
    Released,
    /// Accepted work remains queued.
    Queued {
        /// Remaining items.
        items: usize,
    },
    /// A dispatch is still in flight.
    InFlight,
}

/// What the physical host did for a lifecycle request.
#[derive(Clone, Copy, Debug, Eq, PartialEq, Structural)]
pub enum PhysicalOutcome {
    /// It was not asked.
    Unasked,
    /// The group's drivers are open.
    Opened,
    /// The group's drivers could not be opened.
    NotOpened(DriverErrorKind),
    /// Recovery.
    Recovery(RecoveryOutcome),
    /// Release.
    Release(ReleaseOutcome),
}

/// One proposal whose committed apply was observed.
#[derive(Clone, Copy, Debug, Eq, PartialEq, Structural)]
pub struct ProposalEvent {
    /// Local proposal identity.
    pub proposal_id: u64,
    /// Its result.
    pub result: CounterApplyResult,
}

/// One applied log entry.
#[derive(Clone, Copy, Debug, Eq, PartialEq, Structural)]
pub struct AppliedItem {
    /// Log index.
    pub index: u64,
    /// Result.
    pub result: CounterApplyResult,
    /// Local proposal that carried it, when this node proposed it.
    pub local_proposal_id: Option<u64>,
}

/// What one group step reported.
#[derive(Debug, Eq, PartialEq)]
pub struct GroupReport {
    /// Group that stepped.
    pub group_id: GroupId,
    /// Proposals whose apply was observed.
    pub proposal_events: Vec<ProposalEvent>,
    /// Entries applied.
    pub applied: Vec<AppliedItem>,
    /// Envelopes emitted.
    pub peer_messages: VecDeque<PeerEnvelope>,
}

/// One item of an executed dispatch, with what the group step made of it.
#[derive(Debug)]
pub struct TurnItem {
    /// Stable managed work identity.
    pub work_id: u64,
    /// Class that selected the item.
    pub class: WorkClass,
    /// Report of the step, or how it failed.
    pub result: Result<GroupReport, DriverErrorKind>,
}

/// One executed dispatch.
#[derive(Debug)]
pub struct ExecutedTurn {
    /// Immutable ready-set pass.
    pub pass_id: u64,
    /// Exact dispatch occupancy.
    pub dispatch_id: u64,
    /// Group that received the opportunity.
    pub group_id: GroupId,
    /// Items in service order.
    pub items: VecDeque<TurnItem>,
}

/// Observable work performed while driving the deterministic cluster.
#[derive(Clone, Debug, Eq, PartialEq)]
pub struct DriveReport {
    /// Immutable pass plans, in arm order.
    pub plans: Vec<Vec<GroupId>>,
    /// Group turns executed.
    pub opportunities: u64,
    /// Managed items whose group step succeeded.
    pub serviced: u64,
    /// Managed items whose group step failed explicitly.
    pub failed: u64,
    /// Remote-replica steps that failed after consuming an envelope.
    pub remote_failures: u64,
    /// Exact dispatches in scheduler order.
    pub turns: Vec<DriveTurn>,
    /// Peer traffic refused by consumer identity and lifecycle policy.
    pub refused_peer_traffic: Vec<PeerTrafficRefusal>,
}

/// One managed dispatch and every terminal item disposition it produced.
#[derive(Clone, Debug, Eq, PartialEq)]
pub struct DriveTurn {
    /// Immutable ready-set pass.
    pub pass_id: u64,
    /// Exact dispatch occupancy.
    pub dispatch_id: u64,
    /// Group receiving the opportunity.
    pub group_id: GroupId,
    /// Items selected within the group's quota, in service order.
    pub items: Vec<DrivenItem>,
}

/// One accepted managed item's terminal disposition.
#[derive(Clone, Copy, Debug, Eq, PartialEq, Structural)]
pub struct DrivenItem {
    /// Stable managed work identity.
    pub work_id: u64,
    /// Class that selected the item.
    pub class: WorkClass,
    /// Whether the group step succeeded or failed.
    pub disposition: DrivenDisposition,
}

/// Terminal group result for a managed item.
#[derive(Clone, Copy, Debug, Eq, PartialEq, Structural)]
pub enum DrivenDisposition {
    /// The group returned its complete step report.
    Serviced,
    /// The group refused the step after dispatch.
    Failed {
        /// How it failed.
        kind: DriverErrorKind,
    },
}

/// Explicit refusal of late or otherwise invalid peer traffic.
#[derive(Clone, Copy, Debug, Eq, PartialEq, Structural)]
pub struct PeerTrafficRefusal {
    /// Addressed group.
    pub group_id: GroupId,
    /// Incarnation carried beside the envelope.
    pub incarnation: GroupIncarnation,
    /// Exact consumer policy refusal.
    pub reason: AdmissionRejection,
}

/// Terminal failure of an accepted proposal.
#[derive(Clone, Copy, Debug, Eq, PartialEq, Structural)]
pub struct ProposalFailure {
    /// Local proposal identity whose managed item failed.
    pub proposal_id: u64,
    /// Group that owned the proposal.
    pub group_id: GroupId,
    /// Incarnation that admitted it.
    pub incarnation: GroupIncarnation,
    /// Permanent or transient driver classification.
    pub kind: DriverErrorKind,
}

/// Deterministic adapter or network failure.
#[derive(Debug, Eq, PartialEq)]
pub enum AdapterError {
    /// A lifecycle transition did not match the consumer contract.
    Lifecycle {
        /// Addressed group.
        group_id: GroupId,
        /// Lifecycle the transition starts from.
        expected: GroupLifecycle,
        /// Lifecycle the group has.
        actual: Option<GroupLifecycle>,
    },
    /// A group slot was registered twice.
    GroupAlreadyRegistered(GroupId),
    /// A consumer quota could not be represented.
    QuotaOutOfRange(usize),
    /// A fresh driver could not be opened.
    OpenGroup {
        /// Addressed group.
        group_id: GroupId,
        /// How it failed.
        kind: DriverErrorKind,
    },
    /// A managed identity counter was exhausted.
    IdentityExhausted,
    /// The scheduler refused the internally generated recovery tick.
    RecoveryAdmission {
        /// Addressed group.
        group_id: GroupId,
        /// Why.
        reason: ManagedAdmissionRejection,
    },
    /// The bounded deterministic transport refused emitted envelopes.
    NetworkFull {
        /// Configured bound.
        bound: usize,
        /// Every envelope that did not enter the bounded queue, in emission order.
        pending: Vec<RoutedPeerEnvelope>,
    },
    /// A remote replica failed while consuming a routed envelope.
    RemoteStep {
        /// Addressed group.
        group_id: GroupId,
        /// Failing node.
        node_id: u64,
    },
    /// The explicit progress budget ended before the cluster quiesced.
    ProgressBudgetExhausted {
        /// Rounds driven.
        rounds: usize,
    },
}

/// Consumer policy of a three-node-per-group cluster under one managed local host.
#[derive(Debug)]
pub struct ManagedCounterCluster {
    config: NetworkConfig,
    groups: Table<GroupSlot>,
    sessions: Table<AdapterSession>,
    network: VecDeque<RoutedPeerEnvelope>,
    completed: Table<CounterApplyResult>,
    failures: Table<ProposalFailure>,
    pending: Table<PendingProposal>,
    work_proposals: Table<u64>,
    delayed: Vec<DelayedDispatch>,
    service_delays: Table<usize>,
    next_proposal_id: u64,
}

/// Key of a group's slot.
fn slot_key(group: GroupId) -> (r: u64)
    ensures
        r == group_key(group),
{
    group.get() as u64
}

/// Key of a client's session in a group.
fn client_key(group: GroupId, client: ClientId) -> (r: u64)
    ensures
        r == session_key(group, client),
{
    group.get() as u64 * 0x1_0000_0000 + client.get() as u64
}

impl ManagedCounterCluster {
    /// The policy state.
    pub closed spec fn state(self) -> ClusterState {
        ClusterState {
            config: self.config,
            slots: self.groups@,
            sessions: self.sessions@,
            network: self.network@,
            completed: self.completed@,
            failures: self.failures@,
            pending: self.pending@,
            work: self.work_proposals@,
            delayed: self.delayed@,
            delays: self.service_delays@,
            next_proposal: self.next_proposal_id,
        }
    }

    /// Every table is in order.
    pub closed spec fn wf(self) -> bool {
        &&& self.groups.wf()
        &&& self.sessions.wf()
        &&& self.completed.wf()
        &&& self.failures.wf()
        &&& self.pending.wf()
        &&& self.work_proposals.wf()
        &&& self.service_delays.wf()
    }

    /// Creates an empty cluster policy.
    pub fn new(network: NetworkConfig) -> (r: Self)
        ensures
            r.wf(),
            r.state() == ClusterState::initial(network),
    {
        let cluster = Self {
            config: network,
            groups: Table::new(),
            sessions: Table::new(),
            network: VecDeque::new(),
            completed: Table::new(),
            failures: Table::new(),
            pending: Table::new(),
            work_proposals: Table::new(),
            delayed: Vec::new(),
            service_delays: Table::new(),
            next_proposal_id: 1,
        };
        assert(cluster.state() =~= ClusterState::initial(network));
        cluster
    }

    fn slot(&self, group: GroupId) -> (r: Option<GroupSlot>)
        requires
            self.wf(),
        ensures
            r == self.state().slot(group),
    {
        self.groups.get(slot_key(group))
    }

    fn session(&self, group: GroupId, client: ClientId) -> (r: Option<AdapterSession>)
        requires
            self.wf(),
        ensures
            r == self.state().session(group, client),
    {
        self.sessions.get(client_key(group, client))
    }

    /// Returns a completed local proposal result, when its committed apply was observed.
    pub fn completed(&self, proposal_id: u64) -> (r: Option<CounterApplyResult>)
        requires
            self.wf(),
        ensures
            r == if self.state().completed.contains_key(proposal_id) {
                Some(self.state().completed[proposal_id])
            } else {
                None
            },
    {
        self.completed.get(proposal_id)
    }

    /// Returns the completed local proposals and their results in identity order.
    pub fn completed_proposals(&self) -> (r: Vec<(u64, CounterApplyResult)>)
        requires
            self.wf(),
        ensures
            forall|i: int, j: int| 0 <= i < j < r@.len() ==> r@[i].0 < r@[j].0,
            forall|i: int|
                0 <= i < r@.len() ==> self.state().completed.contains_key((#[trigger] r@[i]).0)
                    && r@[i].1 == self.state().completed[r@[i].0],
            forall|id: u64| #[trigger]
                self.state().completed.contains_key(id) ==> exists|i: int|
                    0 <= i < r@.len() && (#[trigger] r@[i]).0 == id,
    {
        let mut listed: Vec<(u64, CounterApplyResult)> = Vec::new();
        let mut i: usize = 0;
        proof {
            self.completed.lemma_rows();
        }
        while i < self.completed.len()
            invariant
                i <= self.completed.count(),
                self.wf(),
                listed@.len() == i,
                forall|k: int|
                    0 <= k < i ==> (#[trigger] listed@[k]).0 == self.completed.key(k)
                        && self.completed@.contains_key(listed@[k].0) && listed@[k].1
                        == self.completed@[listed@[k].0],
            decreases self.completed.count() - i,
        {
            listed.push(self.completed.row(i));
            i = i + 1;
        }
        proof {
            assert forall|id: u64| #[trigger] self.state().completed.contains_key(
                id,
            ) implies exists|k: int| 0 <= k < listed@.len() && (#[trigger] listed@[k]).0 == id by {
                let k = choose|k: int|
                    0 <= k < self.completed.count() && self.completed.key(k) == id;
                assert(listed@[k].0 == id);
            }
        }
        listed
    }

    /// Returns an explicit terminal failure for an accepted proposal.
    pub fn proposal_failure(&self, proposal_id: u64) -> (r: Option<ProposalFailure>)
        requires
            self.wf(),
        ensures
            r == if self.state().failures.contains_key(proposal_id) {
                Some(self.state().failures[proposal_id])
            } else {
                None
            },
    {
        self.failures.get(proposal_id)
    }

    /// Returns one slot's current incarnation and lifecycle.
    pub fn group_identity(&self, group_id: GroupId) -> (r: Option<
        (GroupIncarnation, GroupLifecycle),
    >)
        requires
            self.wf(),
        ensures
            r == match self.state().slot(group_id) {
                Some(slot) => Some((slot.incarnation, slot.lifecycle)),
                None => None,
            },
    {
        match self.slot(group_id) {
            Some(slot) => Some((slot.incarnation, slot.lifecycle)),
            None => None,
        }
    }

    /// Returns whether the group was observed to be permanently poisoned.
    pub fn is_poisoned(&self, group_id: GroupId) -> (r: bool)
        requires
            self.wf(),
        ensures
            r == (self.state().slot(group_id) is Some && self.state().slot(group_id)->0.poisoned),
    {
        match self.slot(group_id) {
            Some(slot) => slot.poisoned,
            None => false,
        }
    }

    /// Configures deterministic service occupancy for future turns. Zero restores immediate
    /// execution; otherwise a dispatch is held for that many rounds.
    pub fn set_service_delay(&mut self, group_id: GroupId, rounds: usize)
        requires
            old(self).wf(),
        ensures
            final(self).wf(),
            final(self).state() == (ClusterState {
                delays: if rounds == 0 {
                    old(self).state().delays.remove(group_key(group_id))
                } else {
                    old(self).state().delays.insert(group_key(group_id), rounds)
                },
                ..old(self).state()
            }),
    {
        if rounds == 0 {
            let _ = self.service_delays.remove(slot_key(group_id));
        } else {
            self.service_delays.insert(slot_key(group_id), rounds);
        }
    }

    /// Removes the oldest peer envelope for caller-controlled delay, duplication or late delivery.
    pub fn take_pending_peer(&mut self) -> (r: Option<RoutedPeerEnvelope>)
        requires
            old(self).wf(),
        ensures
            final(self).wf(),
            match r {
                Some(envelope) => old(self).state().network.len() > 0 && envelope
                    == old(self).state().network[0] && final(self).state() == (ClusterState {
                    network: old(self).state().network.drop_first(),
                    ..old(self).state()
                }),
                None => old(self).state().network.len() == 0 && final(self).state()
                    == old(self).state(),
            },
    {
        let taken = self.network.pop_front();
        proof {
            if taken is Some {
                assert(self.network@ =~= old(self).network@.drop_first());
            } else {
                assert(self.state() =~= old(self).state());
            }
        }
        taken
    }

    /// Requeues one exact peer envelope without changing its incarnation, or hands it back when the
    /// bounded network is full.
    pub fn enqueue_peer(&mut self, envelope: RoutedPeerEnvelope) -> (r: Result<
        (),
        RoutedPeerEnvelope,
    >)
        requires
            old(self).wf(),
        ensures
            final(self).wf(),
            if old(self).state().network.len() >= old(self).state().config.max_pending_messages {
                r == Err::<(), RoutedPeerEnvelope>(envelope) && final(self).state()
                    == old(self).state()
            } else {
                r is Ok && final(self).state() == (ClusterState {
                    network: old(self).state().network.push(envelope),
                    ..old(self).state()
                })
            },
    {
        if self.network.len() >= self.config.max_pending_messages {
            return Err(envelope);
        }
        self.network.push_back(envelope);
        Ok(())
    }

    // ------------------------------------------------------------------- gates

    fn admit_group(&self, group_id: GroupId, incarnation: GroupIncarnation, class: WorkClass) -> (r:
        Result<GroupSlot, AdmissionRejection>)
        requires
            self.wf(),
        ensures
            match r {
                Ok(slot) => self.state().admit_group(group_id, incarnation, class) is None
                    && self.state().slot(group_id) == Some(slot),
                Err(reason) => self.state().admit_group(group_id, incarnation, class) == Some(
                    reason,
                ),
            },
    {
        let Some(slot) = self.slot(group_id) else {
            return Err(AdmissionRejection::GroupUnknown);
        };
        if slot.lifecycle == GroupLifecycle::Tombstoned {
            return Err(AdmissionRejection::GroupTombstoned);
        }
        if incarnation.get() < slot.incarnation.get() {
            return Err(AdmissionRejection::StaleIncarnation { current: slot.incarnation });
        }
        if incarnation.get() > slot.incarnation.get() {
            return Err(AdmissionRejection::FutureIncarnation { current: slot.incarnation });
        }
        if slot.lifecycle == GroupLifecycle::Removed {
            return Err(AdmissionRejection::GroupNotAcceptingWork { state: slot.lifecycle, class });
        }
        Ok(slot)
    }

    /// Reports whether an accepted proposal of the group has neither completed nor failed.
    pub fn accepted_work_remains(&self, group_id: GroupId) -> (r: bool)
        requires
            self.wf(),
        ensures
            r == self.state().work_remains(group_id),
    {
        proof {
            self.pending.lemma_rows();
        }
        let mut i: usize = 0;
        while i < self.pending.len()
            invariant
                i <= self.pending.count(),
                self.wf(),
                forall|k: int|
                    0 <= k < i ==> self.pending@[#[trigger] self.pending.key(k)].group()
                        != group_id,
            decreases self.pending.count() - i,
        {
            let (id, pending) = self.pending.row(i);
            if pending.group_id() == group_id {
                assert(self.state().pending.contains_key(id));
                return true;
            }
            i = i + 1;
        }
        proof {
            assert forall|id: u64| #[trigger] self.state().pending.contains_key(
                id,
            ) implies self.state().pending[id].group() != group_id by {
                let k = choose|k: int| 0 <= k < self.pending.count() && self.pending.key(k) == id;
                assert(self.pending@[self.pending.key(k)].group() != group_id);
            }
        }
        false
    }

    /// Gates protocol traffic: a draining group keeps running only while it owes accepted work its
    /// outcome.
    pub fn gate_protocol_continuation(&self, group_id: GroupId, incarnation: GroupIncarnation) -> (r:
        Result<(), AdmissionRejection>)
        requires
            self.wf(),
        ensures
            r == match self.state().gate_protocol_continuation(group_id, incarnation) {
                Some(reason) => Err(reason),
                None => Ok(()),
            },
    {
        let slot = match self.admit_group(group_id, incarnation, WorkClass::Control) {
            Ok(slot) => slot,
            Err(reason) => {
                return Err(reason);
            },
        };
        if !slot.lifecycle.permits_protocol_continuation(self.accepted_work_remains(group_id)) {
            return Err(
                AdmissionRejection::GroupNotAcceptingWork {
                    state: slot.lifecycle,
                    class: WorkClass::Control,
                },
            );
        }
        if slot.poisoned {
            return Err(AdmissionRejection::GroupPoisoned);
        }
        Ok(())
    }

    /// Gates work by class.
    pub fn gate_work(&self, group_id: GroupId, incarnation: GroupIncarnation, class: WorkClass) -> (r:
        Result<(), AdmissionRejection>)
        requires
            self.wf(),
        ensures
            r == match self.state().gate_work(group_id, incarnation, class) {
                Some(reason) => Err(reason),
                None => Ok(()),
            },
    {
        let slot = match self.admit_group(group_id, incarnation, class) {
            Ok(slot) => slot,
            Err(reason) => {
                return Err(reason);
            },
        };
        if !slot.lifecycle.admits(class) {
            return Err(AdmissionRejection::GroupNotAcceptingWork { state: slot.lifecycle, class });
        }
        if slot.poisoned {
            return Err(AdmissionRejection::GroupPoisoned);
        }
        Ok(())
    }

    /// Gates a session request.
    pub fn gate_session(
        &self,
        group_id: GroupId,
        incarnation: GroupIncarnation,
        client_id: ClientId,
        epoch: SessionEpoch,
    ) -> (r: Result<(), AdmissionRejection>)
        requires
            self.wf(),
        ensures
            r == match self.state().gate_session(group_id, incarnation, client_id, epoch) {
                Some(reason) => Err(reason),
                None => Ok(()),
            },
    {
        let slot = match self.admit_group(group_id, incarnation, WorkClass::Control) {
            Ok(slot) => slot,
            Err(reason) => {
                return Err(reason);
            },
        };
        if slot.lifecycle != GroupLifecycle::Recovering && slot.lifecycle
            != GroupLifecycle::Serving {
            return Err(AdmissionRejection::GroupNotAcceptingSessions { state: slot.lifecycle });
        }
        if slot.poisoned {
            return Err(AdmissionRejection::GroupPoisoned);
        }
        if client_id.get() as u64 >= self.config.max_sessions_per_group as u64 {
            return Err(AdmissionRejection::ClientOutOfRange);
        }
        if let Some(session) = self.session(group_id, client_id) {
            if epoch.get() < session.epoch.get() {
                return Err(AdmissionRejection::StaleSession { current: session.epoch });
            }
        }
        Ok(())
    }

    fn session_gate(
        session: AdapterSession,
        request: RequestIdentity,
        command: CounterCommand,
    ) -> (r: PolicyAnswer)
        ensures
            r == ClusterState::session_answer(session, request, command),
    {
        if request.session_epoch.get() < session.epoch.get() {
            return PolicyAnswer::Refused(
                AdmissionRejection::StaleSession { current: session.epoch },
            );
        }
        if request.session_epoch.get() > session.epoch.get() {
            return PolicyAnswer::Refused(
                AdmissionRejection::FutureSession { current: session.epoch },
            );
        }
        let fingerprint = RequestFingerprint::of(&command);
        if request.fingerprint != fingerprint {
            return PolicyAnswer::Refused(
                AdmissionRejection::FingerprintMismatch { expected: fingerprint },
            );
        }
        let mut expected = Sequence::first();
        if let Some(completed) = session.completed {
            if request.sequence.get() < completed.sequence.get() {
                return PolicyAnswer::Refused(
                    AdmissionRejection::StaleSequence { highest: completed.sequence },
                );
            }
            if request.sequence.get() == completed.sequence.get() {
                return if command == completed.command {
                    PolicyAnswer::Replayed(completed.result)
                } else {
                    PolicyAnswer::Refused(AdmissionRejection::ConflictingRetry)
                };
            }
            if let Some(next) = completed.sequence.successor() {
                expected = next;
            }
        }
        if let Some(outstanding) = session.outstanding {
            if request.sequence == outstanding.sequence {
                return if command == outstanding.command {
                    PolicyAnswer::AlreadyQueued(outstanding.receipt)
                } else {
                    PolicyAnswer::Refused(AdmissionRejection::ConflictingRetry)
                };
            }
        }
        if request.sequence != expected {
            return PolicyAnswer::Refused(AdmissionRejection::SequenceGap { expected });
        }
        PolicyAnswer::New
    }

    /// Decides a counter request. Completed requests stay replayable and outstanding requests keep
    /// their one queue slot even while either queue is full.
    pub fn counter_gate(
        &self,
        group_id: GroupId,
        incarnation: GroupIncarnation,
        request: RequestIdentity,
        command: CounterCommand,
    ) -> (r: PolicyAnswer)
        requires
            self.wf(),
        ensures
            r == self.state().counter_gate(group_id, incarnation, request, command),
    {
        if let Err(reason) = self.gate_work(group_id, incarnation, WorkClass::Command) {
            return PolicyAnswer::Refused(reason);
        }
        if request.client_id.get() as u64 >= self.config.max_sessions_per_group as u64 {
            return PolicyAnswer::Refused(AdmissionRejection::ClientOutOfRange);
        }
        match self.session(group_id, request.client_id) {
            None => PolicyAnswer::Refused(AdmissionRejection::SessionNotOpen),
            Some(session) => Self::session_gate(session, request, command),
        }
    }
}

// ------------------------------------------------------------------ proposals

impl ManagedCounterCluster {
    /// Reports whether another proposal identity can be taken.
    pub fn can_propose(&self) -> (r: bool)
        ensures
            r == (self.state().next_proposal != 0),
    {
        self.next_proposal_id != 0
    }

    fn take_proposal_id(&mut self) -> (r: u64)
        requires
            old(self).wf(),
        ensures
            final(self).wf(),
            r == old(self).state().next_proposal,
            final(self).state() == old(self).state().identity_taken(),
    {
        let id: u64 = self.next_proposal_id;
        self.next_proposal_id = if id == u64::MAX {
            0
        } else {
            id + 1
        };
        id
    }

    /// Finds the oldest accepted proposal that establishes exactly this session.
    fn queued_session(
        &self,
        group_id: GroupId,
        incarnation: GroupIncarnation,
        client_id: ClientId,
        epoch: SessionEpoch,
    ) -> (r: Option<ProposalReceipt>)
        requires
            self.wf(),
        ensures
            match r {
                Some(receipt) => exists|id: u64| #[trigger]
                    self.state().is_queued_session(group_id, incarnation, client_id, epoch, id)
                        && receipt == self.state().pending[id].accepted(),
                None => forall|id: u64| #[trigger]
                    self.state().pending.contains_key(id) ==> !self.state().pending[id].opens(
                        group_id,
                        incarnation,
                        client_id,
                        epoch,
                    ),
            },
    {
        proof {
            self.pending.lemma_rows();
        }
        let mut i: usize = 0;
        while i < self.pending.len()
            invariant
                i <= self.pending.count(),
                self.wf(),
                forall|k: int|
                    0 <= k < i ==> !self.pending@[#[trigger] self.pending.key(k)].opens(
                        group_id,
                        incarnation,
                        client_id,
                        epoch,
                    ),
            decreases self.pending.count() - i,
        {
            let (id, pending) = self.pending.row(i);
            let exact = match pending {
                PendingProposal::OpenSession {
                    group_id: queued_group,
                    incarnation: queued_incarnation,
                    client_id: queued_client,
                    epoch: queued_epoch,
                    ..
                } => queued_group == group_id && queued_incarnation == incarnation && queued_client
                    == client_id && queued_epoch == epoch,
                _ => false,
            };
            if exact {
                proof {
                    self.pending.lemma_rows();
                    assert forall|other: u64| #[trigger] self.state().pending.contains_key(other)
                        && other < id implies !self.state().pending[other].opens(
                        group_id,
                        incarnation,
                        client_id,
                        epoch,
                    ) by {
                        let k = choose|k: int|
                            0 <= k < self.pending.count() && self.pending.key(k) == other;
                        if k > i {
                            assert(self.pending.key(i as int) < self.pending.key(k));
                        }
                        assert(!self.pending@[self.pending.key(k)].opens(
                            group_id,
                            incarnation,
                            client_id,
                            epoch,
                        ));
                    }
                    assert(self.state().is_queued_session(
                        group_id,
                        incarnation,
                        client_id,
                        epoch,
                        id,
                    ));
                }
                return Some(pending.receipt());
            }
            i = i + 1;
        }
        proof {
            self.pending.lemma_rows();
            assert forall|id: u64| #[trigger] self.state().pending.contains_key(
                id,
            ) implies !self.state().pending[id].opens(
                group_id,
                incarnation,
                client_id,
                epoch,
            ) by {
                let k = choose|k: int| 0 <= k < self.pending.count() && self.pending.key(k) == id;
                assert(!self.pending@[self.pending.key(k)].opens(
                    group_id,
                    incarnation,
                    client_id,
                    epoch,
                ));
            }
        }
        None
    }

    /// Reports whether a session request for the current incarnation can be decided: another proposal
    /// identity can be taken, or the request is an exact retry, which takes none.
    pub fn can_open_session(&self, group_id: GroupId, client_id: ClientId, epoch: SessionEpoch) -> (r:
        bool)
        requires
            self.wf(),
        ensures
            r == self.state().can_open_session(group_id, client_id, epoch),
    {
        if self.can_propose() {
            return true;
        }
        match self.slot(group_id) {
            Some(slot) => self.queued_session(
                group_id,
                slot.incarnation,
                client_id,
                epoch,
            ).is_some(),
            None => false,
        }
    }

    /// Decides a session request under an exact incarnation. An exact retry names the queued
    /// proposal and takes no identity; every other request takes one.
    pub fn open_session_for(
        &mut self,
        group_id: GroupId,
        incarnation: GroupIncarnation,
        client_id: ClientId,
        epoch: SessionEpoch,
    ) -> (r: SessionStep)
        requires
            old(self).wf(),
            old(self).state().next_proposal != 0 || old(self).state().queues_session(
                group_id,
                incarnation,
                client_id,
                epoch,
            ),
        ensures
            final(self).wf(),
            session_step_of(
                r,
                old(self).state(),
                final(self).state(),
                group_id,
                incarnation,
                client_id,
                epoch,
            ),
    {
        let command = ReplicatedCounterCommand::OpenSession { client_id, epoch };
        if let Some(receipt) = self.queued_session(group_id, incarnation, client_id, epoch) {
            return SessionStep::Done(SessionSubmitOutcome::AlreadyQueued(receipt));
        }
        let proposal_id: u64 = self.take_proposal_id();
        if let Err(reason) = self.gate_session(group_id, incarnation, client_id, epoch) {
            return SessionStep::Refused(
                CounterAdmissionRejected {
                    reason: CounterAdmissionRejection::Policy(reason),
                    proposal_id,
                    command,
                },
            );
        }
        if let Some(session) = self.session(group_id, client_id) {
            if session.epoch == epoch {
                return SessionStep::Done(SessionSubmitOutcome::AlreadyOpen);
            }
        }
        SessionStep::Admit { incarnation, proposal_id }
    }

    /// Decides a session request for the current incarnation.
    pub fn open_session(&mut self, group_id: GroupId, client_id: ClientId, epoch: SessionEpoch) -> (r:
        SessionStep)
        requires
            old(self).wf(),
            old(self).state().can_open_session(group_id, client_id, epoch),
        ensures
            final(self).wf(),
            match old(self).state().slot(group_id) {
                Some(slot) => session_step_of(
                    r,
                    old(self).state(),
                    final(self).state(),
                    group_id,
                    slot.incarnation,
                    client_id,
                    epoch,
                ),
                None => {
                    &&& r == SessionStep::Refused(
                        CounterAdmissionRejected {
                            reason: CounterAdmissionRejection::Policy(
                                AdmissionRejection::GroupUnknown,
                            ),
                            proposal_id: old(self).state().next_proposal,
                            command: ReplicatedCounterCommand::OpenSession { client_id, epoch },
                        },
                    )
                    &&& final(self).state() == old(self).state().identity_taken()
                },
            },
    {
        let Some(slot) = self.slot(group_id) else {
            let proposal_id: u64 = self.take_proposal_id();
            return SessionStep::Refused(
                CounterAdmissionRejected {
                    reason: CounterAdmissionRejection::Policy(AdmissionRejection::GroupUnknown),
                    proposal_id,
                    command: ReplicatedCounterCommand::OpenSession { client_id, epoch },
                },
            );
        };
        self.open_session_for(group_id, slot.incarnation, client_id, epoch)
    }

    /// Records what the managed queue made of a session proposal.
    pub fn session_admitted(
        &mut self,
        group_id: GroupId,
        incarnation: GroupIncarnation,
        client_id: ClientId,
        epoch: SessionEpoch,
        proposal_id: u64,
        admission: Result<AdmissionReceipt, ManagedAdmissionRejection>,
    ) -> (r: Result<SessionSubmitOutcome, CounterAdmissionRejected>)
        requires
            old(self).wf(),
        ensures
            final(self).wf(),
            match admission {
                Ok(admission) => {
                    let receipt = ProposalReceipt { admission, proposal_id };
                    &&& r == Ok::<SessionSubmitOutcome, CounterAdmissionRejected>(
                        SessionSubmitOutcome::Queued(receipt),
                    )
                    &&& final(self).state() == old(self).state().session_accepted(
                        group_id,
                        incarnation,
                        client_id,
                        epoch,
                        receipt,
                    )
                },
                Err(reason) => {
                    &&& r == Err::<SessionSubmitOutcome, CounterAdmissionRejected>(
                        CounterAdmissionRejected {
                            reason: CounterAdmissionRejection::Managed(reason),
                            proposal_id,
                            command: ReplicatedCounterCommand::OpenSession { client_id, epoch },
                        },
                    )
                    &&& final(self).state() == old(self).state()
                },
            },
    {
        match admission {
            Ok(admission) => {
                let receipt = ProposalReceipt { admission, proposal_id };
                self.pending.insert(
                    proposal_id,
                    PendingProposal::OpenSession {
                        group_id,
                        incarnation,
                        client_id,
                        epoch,
                        receipt,
                    },
                );
                self.work_proposals.insert(admission.work_id, proposal_id);
                Ok(SessionSubmitOutcome::Queued(receipt))
            },
            Err(reason) => Err(
                CounterAdmissionRejected {
                    reason: CounterAdmissionRejection::Managed(reason),
                    proposal_id,
                    command: ReplicatedCounterCommand::OpenSession { client_id, epoch },
                },
            ),
        }
    }

    /// Decides a counter request under an exact incarnation. The request takes a proposal identity
    /// whatever the answer.
    pub fn submit_for(
        &mut self,
        group_id: GroupId,
        incarnation: GroupIncarnation,
        request: RequestIdentity,
        command: CounterCommand,
    ) -> (r: CounterStep)
        requires
            old(self).wf(),
            old(self).state().next_proposal != 0,
        ensures
            final(self).wf(),
            final(self).state() == old(self).state().identity_taken(),
            r == counter_step_of(old(self).state(), group_id, incarnation, request, command),
    {
        let proposal_id: u64 = self.take_proposal_id();
        match self.counter_gate(group_id, incarnation, request, command) {
            PolicyAnswer::Refused(reason) => CounterStep::Refused(
                CounterAdmissionRejected {
                    reason: CounterAdmissionRejection::Policy(reason),
                    proposal_id,
                    command: ReplicatedCounterCommand::Counter { request, command },
                },
            ),
            PolicyAnswer::Replayed(result) => CounterStep::Done(
                CounterSubmitOutcome::Replayed(result),
            ),
            PolicyAnswer::AlreadyQueued(receipt) => CounterStep::Done(
                CounterSubmitOutcome::AlreadyQueued(receipt),
            ),
            PolicyAnswer::New => CounterStep::Admit { incarnation, proposal_id },
        }
    }

    /// Decides a counter request for the current incarnation.
    pub fn submit(&mut self, group_id: GroupId, request: RequestIdentity, command: CounterCommand) -> (r:
        CounterStep)
        requires
            old(self).wf(),
            old(self).state().next_proposal != 0,
        ensures
            final(self).wf(),
            final(self).state() == old(self).state().identity_taken(),
            r == match old(self).state().slot(group_id) {
                Some(slot) => counter_step_of(
                    old(self).state(),
                    group_id,
                    slot.incarnation,
                    request,
                    command,
                ),
                None => CounterStep::Refused(
                    CounterAdmissionRejected {
                        reason: CounterAdmissionRejection::Policy(AdmissionRejection::GroupUnknown),
                        proposal_id: old(self).state().next_proposal,
                        command: ReplicatedCounterCommand::Counter { request, command },
                    },
                ),
            },
    {
        let Some(slot) = self.slot(group_id) else {
            let proposal_id: u64 = self.take_proposal_id();
            return CounterStep::Refused(
                CounterAdmissionRejected {
                    reason: CounterAdmissionRejection::Policy(AdmissionRejection::GroupUnknown),
                    proposal_id,
                    command: ReplicatedCounterCommand::Counter { request, command },
                },
            );
        };
        self.submit_for(group_id, slot.incarnation, request, command)
    }

    /// Records what the managed queue made of a counter proposal.
    pub fn counter_admitted(
        &mut self,
        group_id: GroupId,
        incarnation: GroupIncarnation,
        request: RequestIdentity,
        command: CounterCommand,
        proposal_id: u64,
        admission: Result<AdmissionReceipt, ManagedAdmissionRejection>,
    ) -> (r: Result<CounterSubmitOutcome, CounterAdmissionRejected>)
        requires
            old(self).wf(),
        ensures
            final(self).wf(),
            match admission {
                Ok(admission) => {
                    let receipt = ProposalReceipt { admission, proposal_id };
                    &&& r == Ok::<CounterSubmitOutcome, CounterAdmissionRejected>(
                        CounterSubmitOutcome::Queued(receipt),
                    )
                    &&& final(self).state() == old(self).state().counter_accepted(
                        group_id,
                        incarnation,
                        request,
                        command,
                        receipt,
                    )
                },
                Err(reason) => {
                    &&& r == Err::<CounterSubmitOutcome, CounterAdmissionRejected>(
                        CounterAdmissionRejected {
                            reason: CounterAdmissionRejection::Managed(reason),
                            proposal_id,
                            command: ReplicatedCounterCommand::Counter { request, command },
                        },
                    )
                    &&& final(self).state() == old(self).state()
                },
            },
    {
        match admission {
            Ok(admission) => {
                let receipt = ProposalReceipt { admission, proposal_id };
                if let Some(session) = self.session(group_id, request.client_id) {
                    self.sessions.insert(
                        client_key(group_id, request.client_id),
                        AdapterSession {
                            epoch: session.epoch,
                            outstanding: Some(
                                OutstandingRequest { sequence: request.sequence, command, receipt },
                            ),
                            completed: session.completed,
                        },
                    );
                }
                self.pending.insert(
                    proposal_id,
                    PendingProposal::Counter { group_id, incarnation, request, command, receipt },
                );
                self.work_proposals.insert(admission.work_id, proposal_id);
                Ok(CounterSubmitOutcome::Queued(receipt))
            },
            Err(reason) => Err(
                CounterAdmissionRejected {
                    reason: CounterAdmissionRejection::Managed(reason),
                    proposal_id,
                    command: ReplicatedCounterCommand::Counter { request, command },
                },
            ),
        }
    }

    /// Decides system traffic in a consumer-owned class: control traffic passes the protocol gate,
    /// every other class the work gate.
    pub fn submit_system(
        &self,
        group_id: GroupId,
        incarnation: GroupIncarnation,
        class: SystemClass,
    ) -> (r: Result<WorkClass, AdmissionRejection>)
        requires
            self.wf(),
        ensures
            r == ({
                let gate = if class is Control {
                    self.state().gate_protocol_continuation(group_id, incarnation)
                } else {
                    self.state().gate_work(group_id, incarnation, class.class())
                };
                match gate {
                    Some(reason) => Err(reason),
                    None => Ok(class.class()),
                }
            }),
    {
        let gate = if class == SystemClass::Control {
            self.gate_protocol_continuation(group_id, incarnation)
        } else {
            self.gate_work(group_id, incarnation, class.class())
        };
        match gate {
            Ok(()) => Ok(class.class()),
            Err(reason) => Err(reason),
        }
    }

    /// Decides faulty work for the current incarnation. It takes a proposal identity whatever the
    /// answer.
    pub fn submit_fault(&mut self, group_id: GroupId, class: SystemClass) -> (r: FaultStep)
        requires
            old(self).wf(),
            old(self).state().next_proposal != 0,
        ensures
            final(self).wf(),
            final(self).state() == old(self).state().identity_taken(),
            r == fault_step_of(old(self).state(), group_id, class),
    {
        let slot = self.slot(group_id);
        let proposal_id: u64 = self.take_proposal_id();
        let command = ReplicatedCounterCommand::Faulty;
        let Some(slot) = slot else {
            return FaultStep::Refused(
                CounterAdmissionRejected {
                    reason: CounterAdmissionRejection::Policy(AdmissionRejection::GroupUnknown),
                    proposal_id,
                    command,
                },
            );
        };
        match self.gate_work(group_id, slot.incarnation, class.class()) {
            Err(reason) => FaultStep::Refused(
                CounterAdmissionRejected {
                    reason: CounterAdmissionRejection::Policy(reason),
                    proposal_id,
                    command,
                },
            ),
            Ok(()) => FaultStep::Admit { incarnation: slot.incarnation, proposal_id },
        }
    }

    /// Records what the managed queue made of faulty work.
    pub fn fault_admitted(
        &mut self,
        group_id: GroupId,
        incarnation: GroupIncarnation,
        proposal_id: u64,
        admission: Result<AdmissionReceipt, ManagedAdmissionRejection>,
    ) -> (r: Result<ProposalReceipt, CounterAdmissionRejected>)
        requires
            old(self).wf(),
        ensures
            final(self).wf(),
            match admission {
                Ok(admission) => {
                    let receipt = ProposalReceipt { admission, proposal_id };
                    &&& r == Ok::<ProposalReceipt, CounterAdmissionRejected>(receipt)
                    &&& final(self).state() == old(self).state().accepted(
                        proposal_id,
                        admission,
                        PendingProposal::Fault { group_id, incarnation, receipt },
                    )
                },
                Err(reason) => {
                    &&& r == Err::<ProposalReceipt, CounterAdmissionRejected>(
                        CounterAdmissionRejected {
                            reason: CounterAdmissionRejection::Managed(reason),
                            proposal_id,
                            command: ReplicatedCounterCommand::Faulty,
                        },
                    )
                    &&& final(self).state() == old(self).state()
                },
            },
    {
        match admission {
            Ok(admission) => {
                let receipt = ProposalReceipt { admission, proposal_id };
                self.pending.insert(
                    proposal_id,
                    PendingProposal::Fault { group_id, incarnation, receipt },
                );
                self.work_proposals.insert(admission.work_id, proposal_id);
                Ok(receipt)
            },
            Err(reason) => Err(
                CounterAdmissionRejected {
                    reason: CounterAdmissionRejection::Managed(reason),
                    proposal_id,
                    command: ReplicatedCounterCommand::Faulty,
                },
            ),
        }
    }

    /// Records the terminal failure of the proposal a managed work item carried.
    pub fn record_failed_work(&mut self, work_id: u64, group_id: GroupId, kind: DriverErrorKind)
        requires
            old(self).wf(),
        ensures
            final(self).wf(),
            final(self).state() == old(self).state().work_failed(work_id, group_id, kind),
    {
        let ghost start = self.state();
        let Some(id) = self.work_proposals.remove(work_id) else {
            assert(self.state() =~= start);
            return;
        };
        let Some(pending) = self.pending.remove(id) else {
            assert(self.state() =~= start.work_failed(work_id, group_id, kind));
            return;
        };
        self.failures.insert(
            id,
            ProposalFailure {
                proposal_id: id,
                group_id,
                incarnation: pending.incarnation(),
                kind,
            },
        );
        if let PendingProposal::Counter { request, .. } = pending {
            if self.slot(group_id).is_some() {
                if let Some(session) = self.session(group_id, request.client_id) {
                    self.clear_outstanding(group_id, request.client_id, session, id);
                }
            }
        }
        assert(self.state() =~= start.work_failed(work_id, group_id, kind));
    }

    /// Clears the outstanding request of a session, when proposal `id` carried it.
    fn clear_outstanding(
        &mut self,
        group_id: GroupId,
        client_id: ClientId,
        session: AdapterSession,
        id: u64,
    )
        requires
            old(self).wf(),
            old(self).state().session(group_id, client_id) == Some(session),
        ensures
            final(self).wf(),
            final(self).state() == old(self).state().with_session(
                group_id,
                client_id,
                ClusterState::cleared_session(session, id),
            ),
    {
        let mut cleared = false;
        if let Some(outstanding) = session.outstanding {
            cleared = outstanding.receipt.proposal_id == id;
        }
        if cleared {
            self.sessions.insert(
                client_key(group_id, client_id),
                AdapterSession {
                    epoch: session.epoch,
                    outstanding: None,
                    completed: session.completed,
                },
            );
        } else {
            assert(self.sessions@.insert(session_key(group_id, client_id), session)
                =~= self.sessions@);
        }
    }

    /// Takes in the result of an accepted proposal. A result of another incarnation changes no
    /// session.
    pub fn complete_pending(&mut self, proposal_id: u64, result: CounterApplyResult)
        requires
            old(self).wf(),
        ensures
            final(self).wf(),
            final(self).state() == old(self).state().proposal_completed(proposal_id, result),
    {
        let ghost start = self.state();
        let Some(pending) = self.pending.remove(proposal_id) else {
            assert(self.state() =~= start);
            return;
        };
        self.work_proposals.remove_value(proposal_id);
        let ghost taken = ClusterState {
            pending: start.pending.remove(proposal_id),
            work: start.work.restrict(Set::new(|key: u64| start.work[key] != proposal_id)),
            ..start
        };
        assert(self.state() =~= taken);
        let group_id = pending.group_id();
        let Some(slot) = self.slot(group_id) else {
            return;
        };
        if slot.incarnation != pending.incarnation() {
            return;
        }
        match pending {
            PendingProposal::OpenSession { client_id, epoch, .. } => {
                if let CounterApplyResult::Session(_) = result {
                    self.sessions.insert(
                        client_key(group_id, client_id),
                        AdapterSession { epoch, outstanding: None, completed: None },
                    );
                }
            },
            PendingProposal::Counter { request, command, .. } => {
                let Some(session) = self.session(group_id, request.client_id) else {
                    return;
                };
                self.clear_outstanding(group_id, request.client_id, session, proposal_id);
                let ghost cleared = ClusterState::cleared_session(session, proposal_id);
                if let CounterApplyResult::Counter(outcome) = result {
                    let mut outstanding = session.outstanding;
                    if let Some(request) = outstanding {
                        if request.receipt.proposal_id == proposal_id {
                            outstanding = None;
                        }
                    }
                    self.sessions.insert(
                        client_key(group_id, request.client_id),
                        AdapterSession {
                            epoch: session.epoch,
                            outstanding,
                            completed: Some(
                                CounterCompletedView {
                                    sequence: request.sequence,
                                    command,
                                    result: outcome,
                                },
                            ),
                        },
                    );
                    assert(self.sessions@ =~= taken.sessions.insert(
                        session_key(group_id, request.client_id),
                        AdapterSession {
                            completed: Some(
                                CounterCompletedView {
                                    sequence: request.sequence,
                                    command,
                                    result: outcome,
                                },
                            ),
                            ..cleared
                        },
                    ));
                }
            },
            PendingProposal::Fault { .. } => {},
        }
        assert(self.state() =~= start.proposal_completed(proposal_id, result));
    }
}

/// What becomes of a session request: an exact retry is named, a refusal or an active epoch is
/// answered, and everything else is to be offered to the managed queue.
pub open spec fn session_step_of(
    r: SessionStep,
    before: ClusterState,
    after: ClusterState,
    group: GroupId,
    incarnation: GroupIncarnation,
    client: ClientId,
    epoch: SessionEpoch,
) -> bool {
    if before.queues_session(group, incarnation, client, epoch) {
        &&& after == before
        &&& exists|id: u64| #[trigger]
            before.is_queued_session(group, incarnation, client, epoch, id) && r
                == SessionStep::Done(
                SessionSubmitOutcome::AlreadyQueued(before.pending[id].accepted()),
            )
    } else {
        &&& after == before.identity_taken()
        &&& r == match before.gate_session(group, incarnation, client, epoch) {
            Some(reason) => SessionStep::Refused(
                CounterAdmissionRejected {
                    reason: CounterAdmissionRejection::Policy(reason),
                    proposal_id: before.next_proposal,
                    command: ReplicatedCounterCommand::OpenSession { client_id: client, epoch },
                },
            ),
            None => if before.session(group, client) is Some && before.session(
                group,
                client,
            )->0.epoch == epoch {
                SessionStep::Done(SessionSubmitOutcome::AlreadyOpen)
            } else {
                SessionStep::Admit { incarnation, proposal_id: before.next_proposal }
            },
        }
    }
}

/// What becomes of a counter request.
pub open(crate) spec fn counter_step_of(
    s: ClusterState,
    group: GroupId,
    incarnation: GroupIncarnation,
    request: RequestIdentity,
    command: CounterCommand,
) -> CounterStep {
    match s.counter_gate(group, incarnation, request, command) {
        PolicyAnswer::Refused(reason) => CounterStep::Refused(
            CounterAdmissionRejected {
                reason: CounterAdmissionRejection::Policy(reason),
                proposal_id: s.next_proposal,
                command: ReplicatedCounterCommand::Counter { request, command },
            },
        ),
        PolicyAnswer::Replayed(result) => CounterStep::Done(
            CounterSubmitOutcome::Replayed(result),
        ),
        PolicyAnswer::AlreadyQueued(receipt) => CounterStep::Done(
            CounterSubmitOutcome::AlreadyQueued(receipt),
        ),
        PolicyAnswer::New => CounterStep::Admit { incarnation, proposal_id: s.next_proposal },
    }
}

/// What becomes of faulty work.
pub open spec fn fault_step_of(s: ClusterState, group: GroupId, class: SystemClass) -> FaultStep {
    let refused = |reason: AdmissionRejection|
        FaultStep::Refused(
            CounterAdmissionRejected {
                reason: CounterAdmissionRejection::Policy(reason),
                proposal_id: s.next_proposal,
                command: ReplicatedCounterCommand::Faulty,
            },
        );
    match s.slot(group) {
        None => refused(AdmissionRejection::GroupUnknown),
        Some(slot) => match s.gate_work(group, slot.incarnation, class.class()) {
            Some(reason) => refused(reason),
            None => FaultStep::Admit {
                incarnation: slot.incarnation,
                proposal_id: s.next_proposal,
            },
        },
    }
}

// -------------------------------------------------------------------- reports

impl DriveReport {
    /// Creates an empty report.
    pub fn new() -> (r: Self)
        ensures
            r.plans@.len() == 0,
            r.opportunities == 0,
            r.serviced == 0,
            r.failed == 0,
            r.remote_failures == 0,
            r.turns@.len() == 0,
            r.refused_peer_traffic@.len() == 0,
    {
        Self {
            plans: Vec::new(),
            opportunities: 0,
            serviced: 0,
            failed: 0,
            remote_failures: 0,
            turns: Vec::new(),
            refused_peer_traffic: Vec::new(),
        }
    }

    /// Appends what another report observed.
    pub fn merge(&mut self, other: Self)
        requires
            old(self).opportunities + other.opportunities <= u64::MAX,
            old(self).serviced + other.serviced <= u64::MAX,
            old(self).failed + other.failed <= u64::MAX,
            old(self).remote_failures + other.remote_failures <= u64::MAX,
        ensures
            final(self).plans@ == old(self).plans@ + other.plans@,
            final(self).opportunities == old(self).opportunities + other.opportunities,
            final(self).serviced == old(self).serviced + other.serviced,
            final(self).failed == old(self).failed + other.failed,
            final(self).remote_failures == old(self).remote_failures + other.remote_failures,
            final(self).turns@ == old(self).turns@ + other.turns@,
            final(self).refused_peer_traffic@ == old(self).refused_peer_traffic@
                + other.refused_peer_traffic@,
    {
        let mut other = other;
        self.plans.append(&mut other.plans);
        self.opportunities = self.opportunities + other.opportunities;
        self.serviced = self.serviced + other.serviced;
        self.failed = self.failed + other.failed;
        self.remote_failures = self.remote_failures + other.remote_failures;
        self.turns.append(&mut other.turns);
        self.refused_peer_traffic.append(&mut other.refused_peer_traffic);
    }
}

impl ManagedCounterCluster {
    /// Records an applied log entry.
    fn take_applied(&mut self, group_id: GroupId, item: AppliedItem)
        requires
            old(self).wf(),
        ensures
            final(self).wf(),
            final(self).state() == old(self).state().item_applied(group_id, item),
    {
        if let Some(id) = item.local_proposal_id {
            self.completed.insert(id, item.result);
            if let Some(slot) = self.slot(group_id) {
                let value: i64 = match item.result {
                    CounterApplyResult::Counter(CounterResult::Added { value }) => value,
                    CounterApplyResult::Counter(CounterResult::Value { value }) => value,
                    _ => slot.value,
                };
                self.groups.insert(
                    slot_key(group_id),
                    GroupSlot {
                        incarnation: slot.incarnation,
                        lifecycle: slot.lifecycle,
                        quota: slot.quota,
                        applied_index: item.index,
                        value,
                        poisoned: slot.poisoned,
                    },
                );
            }
            self.complete_pending(id, item.result);
        }
    }

    /// Takes in everything a group step reported. Envelopes that do not enter the bounded network
    /// are handed back in emission order.
    pub fn collect_report(&mut self, report: GroupReport) -> (r: Result<(), AdapterError>)
        requires
            old(self).wf(),
        ensures
            final(self).wf(),
            final(self).state() == old(self).state().collected(report),
            match r {
                Ok(()) => old(self).state().fits(report),
                Err(error) => {
                    &&& !old(self).state().fits(report)
                    &&& error is NetworkFull
                    &&& error->NetworkFull_bound
                        == old(self).state().config.max_pending_messages
                    &&& error->NetworkFull_pending@ == old(self).state().routed(report).skip(
                        old(self).state().entering(report),
                    )
                },
            },
    {
        let ghost start = self.state();
        let ghost events = report.proposal_events@;
        let ghost items = report.applied@;
        let ghost messages = report.peer_messages@;
        let group_id = report.group_id;
        let mut i: usize = 0;
        while i < report.proposal_events.len()
            invariant
                i <= events.len(),
                events == report.proposal_events@,
                self.wf(),
                self.state() == start.events_observed(events, i as nat),
            decreases events.len() - i,
        {
            let event = report.proposal_events[i];
            self.completed.insert(event.proposal_id, event.result);
            self.complete_pending(event.proposal_id, event.result);
            i = i + 1;
        }
        let ghost observed = self.state();
        let mut k: usize = 0;
        while k < report.applied.len()
            invariant
                k <= items.len(),
                items == report.applied@,
                self.wf(),
                self.state() == observed.items_applied(group_id, items, k as nat),
            decreases items.len() - k,
        {
            self.take_applied(group_id, report.applied[k]);
            k = k + 1;
        }
        let ghost digested = self.state();
        assert(digested == start.digested(report));
        proof {
            lemma_report_keeps_network(start, report);
        }
        let incarnation = match self.slot(group_id) {
            Some(slot) => slot.incarnation,
            None => GroupIncarnation::first(),
        };
        let ghost routed = start.routed(report);
        let bound: usize = self.config.max_pending_messages;
        let mut rest = report.peer_messages;
        let mut pending: Vec<RoutedPeerEnvelope> = Vec::new();
        let ghost mut moved: int = 0;
        proof {
            assert(self.state().network + routed.take(0) =~= self.state().network);
            assert(messages.skip(0) =~= messages);
        }
        let ghost room = digested.room() as int;
        while rest.len() > 0
            invariant
                self.wf(),
                0 <= moved <= messages.len(),
                messages.len() == routed.len(),
                forall|j: int|
                    0 <= j < routed.len() ==> #[trigger] routed[j] == (RoutedPeerEnvelope {
                        incarnation,
                        envelope: messages[j],
                    }),
                rest@.len() == messages.len() - moved,
                rest@ == messages.skip(moved),
                bound == digested.config.max_pending_messages,
                room == digested.room(),
                self.state() == (ClusterState {
                    network: digested.network + routed.take(if moved <= room { moved } else { room }),
                    ..digested
                }),
                pending@ == if moved <= room {
                    Seq::<RoutedPeerEnvelope>::empty()
                } else {
                    routed.subrange(room, moved)
                },
            decreases rest.len(),
        {
            let Some(envelope) = rest.pop_front() else {
                return Ok(());
            };
            let next = RoutedPeerEnvelope { incarnation, envelope };
            assert(next == routed[moved]);
            if self.network.len() < bound {
                assert(moved < room);
                self.network.push_back(next);
                assert(self.network@ =~= digested.network + routed.take(moved + 1));
            } else {
                assert(moved >= room);
                pending.push(next);
                assert(pending@ =~= routed.subrange(room, moved + 1));
            }
            proof {
                moved = moved + 1;
                assert(rest@ =~= messages.skip(moved));
            }
        }
        proof {
            assert(moved == messages.len());
            assert(routed.subrange(room, moved) =~= routed.skip(room));
            assert(self.state() =~= start.collected(report));
        }
        if pending.len() > 0 {
            return Err(AdapterError::NetworkFull { bound, pending });
        }
        Ok(())
    }
}

/// Taking in events and applied entries queues nothing.
proof fn lemma_report_keeps_network(s: ClusterState, report: GroupReport)
    ensures
        s.digested(report).network == s.network,
        s.digested(report).config == s.config,
{
    lemma_events_keep_network(s, report.proposal_events@, report.proposal_events@.len());
    let observed = s.events_observed(report.proposal_events@, report.proposal_events@.len());
    lemma_items_keep_network(observed, report.group_id, report.applied@, report.applied@.len());
}

proof fn lemma_events_keep_network(s: ClusterState, events: Seq<ProposalEvent>, n: nat)
    ensures
        s.events_observed(events, n).network == s.network,
        s.events_observed(events, n).config == s.config,
    decreases n,
{
    if n > 0 {
        lemma_events_keep_network(s, events, (n - 1) as nat);
    }
}

proof fn lemma_items_keep_network(s: ClusterState, group: GroupId, items: Seq<AppliedItem>, n: nat)
    ensures
        s.items_applied(group, items, n).network == s.network,
        s.items_applied(group, items, n).config == s.config,
    decreases n,
{
    if n > 0 {
        lemma_items_keep_network(s, group, items, (n - 1) as nat);
    }
}

// ---------------------------------------------------------------------- drive

/// Inserts an identifier where it belongs in ascending order.
fn insert_ordered(ids: &mut Vec<u64>, id: u64)
    ensures
        final(ids)@ == ordered_insert(old(ids)@, id),
{
    let ghost start = ids@;
    let mut at: usize = ids.len();
    proof {
        assert(start.take(at as int) =~= start);
        assert(start.skip(at as int) =~= Seq::<u64>::empty());
        assert(ordered_insert(start, id) + Seq::<u64>::empty() =~= ordered_insert(start, id));
    }
    while at > 0 && ids[at - 1] > id
        invariant
            at <= ids.len(),
            ids@ == start,
            ordered_insert(start, id) == ordered_insert(start.take(at as int), id) + start.skip(
                at as int,
            ),
        decreases at,
    {
        proof {
            let head = start.take(at as int);
            assert(head.drop_last() =~= start.take(at - 1));
            assert(head.last() == start[at - 1]);
            assert(start.skip(at - 1) =~= seq![start[at - 1]] + start.skip(at as int));
            assert(ordered_insert(head.drop_last(), id).push(head.last()) + start.skip(at as int)
                =~= ordered_insert(start.take(at - 1), id) + start.skip(at - 1));
        }
        at = at - 1;
    }
    ids.insert(at, id);
    proof {
        let head = start.take(at as int);
        if at > 0 {
            assert(head.last() == start[at - 1]);
        }
        assert(ordered_insert(head, id) == head.push(id));
        assert(ids@ =~= head.push(id) + start.skip(at as int));
    }
}

/// What becomes of one routed envelope.
#[derive(Debug)]
pub enum RouteStep {
    /// Nothing is queued.
    Idle,
    /// Policy refused the envelope; the refusal is on record.
    Refused,
    /// The envelope is for the local host.
    Local(RoutedPeerEnvelope),
    /// The envelope is for a remote replica.
    Remote(RoutedPeerEnvelope),
}

/// Node every group's local replica runs as.
pub const LOCAL_NODE: u64 = 1;

impl ManagedCounterCluster {
    /// Takes in one executed dispatch, item by item. A report whose envelopes do not fit the network
    /// ends the turn there.
    pub fn record_turn(&mut self, turn: ExecutedTurn, report: &mut DriveReport) -> (r: Result<
        (),
        AdapterError,
    >)
        requires
            old(self).wf(),
            old(report).serviced + turn.items@.len() <= u64::MAX,
            old(report).failed + turn.items@.len() <= u64::MAX,
        ensures
            final(self).wf(),
            final(report).plans == old(report).plans,
            final(report).opportunities == old(report).opportunities,
            final(report).remote_failures == old(report).remote_failures,
            final(report).refused_peer_traffic == old(report).refused_peer_traffic,
            ({
                let s = old(self).state();
                let items = turn.items@;
                let n = s.fitting(turn.group_id, items, items.len());
                let taken = if n == items.len() {
                    n
                } else {
                    n + 1
                };
                &&& final(self).state() == s.items_done(turn.group_id, items, taken)
                &&& final(report).serviced == old(report).serviced + serviced_in(items, taken)
                &&& final(report).failed == old(report).failed + taken - serviced_in(items, taken)
                &&& if n == items.len() {
                    &&& r is Ok
                    &&& final(report).turns@.len() == old(report).turns@.len() + 1
                    &&& final(report).turns@.drop_last() == old(report).turns@
                    &&& final(report).turns@.last().pass_id == turn.pass_id
                    &&& final(report).turns@.last().dispatch_id == turn.dispatch_id
                    &&& final(report).turns@.last().group_id == turn.group_id
                    &&& final(report).turns@.last().items@ == Seq::new(
                        items.len(),
                        |i: int| driven(items[i]),
                    )
                } else {
                    let at = s.items_done(turn.group_id, items, n);
                    let refused = items[n as int].result->Ok_0;
                    &&& r is Err
                    &&& r->Err_0 is NetworkFull
                    &&& r->Err_0->NetworkFull_bound == at.config.max_pending_messages
                    &&& r->Err_0->NetworkFull_pending@ == at.routed(refused).skip(
                        at.entering(refused),
                    )
                    &&& final(report).turns == old(report).turns
                }
            }),
    {
        let ghost start = self.state();
        let ghost items = turn.items@;
        let group_id = turn.group_id;
        let mut driven_items: Vec<DrivenItem> = Vec::new();
        let mut rest: VecDeque<TurnItem> = turn.items;
        let ghost mut n: nat = 0;
        proof {
            assert(items.skip(0) =~= items);
            assert(driven_items@ =~= Seq::new(0nat, |i: int| driven(items[i])));
        }
        while rest.len() > 0
            invariant
                self.wf(),
                n <= items.len(),
                start == old(self).state(),
                group_id == turn.group_id,
                items == turn.items@,
                rest@ == items.skip(n as int),
                start.fitting(group_id, items, n) == n,
                self.state() == start.items_done(group_id, items, n),
                driven_items@ == Seq::new(n, |i: int| driven(items[i])),
                serviced_in(items, n) <= n,
                old(report).serviced + items.len() <= u64::MAX,
                old(report).failed + items.len() <= u64::MAX,
                report.serviced == old(report).serviced + serviced_in(items, n),
                report.failed == old(report).failed + n - serviced_in(items, n),
                report.plans == old(report).plans,
                report.opportunities == old(report).opportunities,
                report.remote_failures == old(report).remote_failures,
                report.refused_peer_traffic == old(report).refused_peer_traffic,
                report.turns == old(report).turns,
            decreases rest.len(),
        {
            let Some(item) = rest.pop_front() else {
                return Ok(());
            };
            let ghost before = self.state();
            assert(item == items[n as int]);
            let disposition = match item.result {
                Ok(group_report) => {
                    report.serviced = report.serviced + 1;
                    let collected = self.collect_report(group_report);
                    assert(self.state() == start.items_done(group_id, items, n + 1));
                    match collected {
                        Ok(()) => {},
                        Err(error) => {
                            proof {
                                assert(start.fitting(group_id, items, n + 1) == n);
                                lemma_fitting_stops(start, group_id, items, n + 1, items.len());
                            }
                            return Err(error);
                        },
                    }
                    DrivenDisposition::Serviced
                },
                Err(kind) => {
                    report.failed = report.failed + 1;
                    self.record_failed_work(item.work_id, group_id, kind);
                    if kind == DriverErrorKind::DriverPoisoned {
                        self.poison(group_id);
                    }
                    assert(self.state() == start.items_done(group_id, items, n + 1));
                    DrivenDisposition::Failed { kind }
                },
            };
            driven_items.push(
                DrivenItem { work_id: item.work_id, class: item.class, disposition },
            );
            proof {
                n = n + 1;
                assert(rest@ =~= items.skip(n as int));
                assert(driven_items@ =~= Seq::new(n, |i: int| driven(items[i])));
            }
        }
        report.turns.push(
            DriveTurn {
                pass_id: turn.pass_id,
                dispatch_id: turn.dispatch_id,
                group_id,
                items: driven_items,
            },
        );
        assert(report.turns@.drop_last() =~= old(report).turns@);
        Ok(())
    }

    /// Marks a group permanently poisoned.
    fn poison(&mut self, group_id: GroupId)
        requires
            old(self).wf(),
        ensures
            final(self).wf(),
            final(self).state() == old(self).state().poisoned(group_id),
    {
        if let Some(slot) = self.slot(group_id) {
            self.groups.insert(
                slot_key(group_id),
                GroupSlot {
                    incarnation: slot.incarnation,
                    lifecycle: slot.lifecycle,
                    quota: slot.quota,
                    applied_index: slot.applied_index,
                    value: slot.value,
                    poisoned: true,
                },
            );
        }
    }

    /// Counts one dispatched turn, and decides whether it is executed now or held for its group's
    /// service delay.
    pub fn begin_turn(&mut self, dispatch_id: u64, group_id: GroupId, report: &mut DriveReport) -> (r:
        bool)
        requires
            old(self).wf(),
            old(report).opportunities < u64::MAX,
        ensures
            final(self).wf(),
            *final(report) == (DriveReport {
                opportunities: (old(report).opportunities + 1) as u64,
                ..*old(report)
            }),
            r == (!old(self).state().delays.contains_key(group_key(group_id))
                || old(self).state().delays[group_key(group_id)] == 0),
            r ==> final(self).state() == old(self).state(),
            !r ==> final(self).state() == (ClusterState {
                delayed: old(self).state().delayed.push(
                    DelayedDispatch {
                        remaining_rounds: old(self).state().delays[group_key(group_id)],
                        dispatch_id,
                    },
                ),
                ..old(self).state()
            }),
    {
        report.opportunities = report.opportunities + 1;
        match self.service_delays.get(slot_key(group_id)) {
            None => true,
            Some(rounds) => {
                if rounds == 0 {
                    return true;
                }
                self.delayed.push(DelayedDispatch { remaining_rounds: rounds, dispatch_id });
                false
            },
        }
    }

    /// Moves every held dispatch a round closer, and names those whose delay has ended in ascending
    /// identity order.
    pub fn progress_delayed(&mut self) -> (r: Vec<u64>)
        requires
            old(self).wf(),
        ensures
            final(self).wf(),
            r@ == due_dispatches(old(self).state().delayed),
            final(self).state() == (ClusterState {
                delayed: held_dispatches(old(self).state().delayed),
                ..old(self).state()
            }),
    {
        let ghost start = self.delayed@;
        let mut due: Vec<u64> = Vec::new();
        let mut held: Vec<DelayedDispatch> = Vec::new();
        let mut i: usize = 0;
        while i < self.delayed.len()
            invariant
                i <= self.delayed.len(),
                self.delayed@ == start,
                self.wf(),
                self.state() == old(self).state(),
                due@ == due_dispatches(start.take(i as int)),
                held@ == held_dispatches(start.take(i as int)),
            decreases self.delayed.len() - i,
        {
            let dispatch = self.delayed[i];
            proof {
                assert(start.take(i + 1).drop_last() =~= start.take(i as int));
                assert(start.take(i + 1).last() == dispatch);
            }
            if dispatch.remaining_rounds <= 1 {
                insert_ordered(&mut due, dispatch.dispatch_id);
            } else {
                held.push(
                    DelayedDispatch {
                        remaining_rounds: dispatch.remaining_rounds - 1,
                        dispatch_id: dispatch.dispatch_id,
                    },
                );
            }
            i = i + 1;
        }
        assert(start.take(i as int) =~= start);
        self.delayed = held;
        due
    }

    /// Reports whether any dispatch is held.
    pub fn has_delayed(&self) -> (r: bool)
        ensures
            r == (self.state().delayed.len() > 0),
    {
        self.delayed.len() > 0
    }

    /// Returns the number of envelopes awaiting delivery.
    pub fn pending_peers(&self) -> (r: usize)
        ensures
            r == self.state().network.len(),
    {
        self.network.len()
    }

    /// Takes the oldest envelope and decides its route. A refusal is put on record.
    pub fn route_next(&mut self, report: &mut DriveReport) -> (r: RouteStep)
        requires
            old(self).wf(),
        ensures
            final(self).wf(),
            ({
                let s = old(self).state();
                let first = s.network[0];
                let group = first.envelope.group_id;
                let gate = s.admit_group(group, first.incarnation, WorkClass::Control);
                if s.network.len() == 0 {
                    &&& r is Idle
                    &&& final(self).state() == s
                    &&& *final(report) == *old(report)
                } else {
                    &&& final(self).state() == (ClusterState {
                        network: s.network.drop_first(),
                        ..s
                    })
                    &&& match gate {
                        Some(reason) => {
                            &&& r is Refused
                            &&& final(report).refused_peer_traffic@
                                == old(report).refused_peer_traffic@.push(
                                PeerTrafficRefusal {
                                    group_id: group,
                                    incarnation: first.incarnation,
                                    reason,
                                },
                            )
                            &&& *final(report) == (DriveReport {
                                refused_peer_traffic: final(report).refused_peer_traffic,
                                ..*old(report)
                            })
                        },
                        None => {
                            &&& *final(report) == *old(report)
                            &&& if first.envelope.to == LOCAL_NODE {
                                r == RouteStep::Local(first)
                            } else {
                                r == RouteStep::Remote(first)
                            }
                        },
                    }
                }
            }),
    {
        let Some(routed) = self.take_pending_peer() else {
            return RouteStep::Idle;
        };
        let group_id = routed.envelope.group_id;
        let incarnation = routed.incarnation;
        if let Err(reason) = self.admit_group(group_id, incarnation, WorkClass::Control) {
            report.refused_peer_traffic.push(PeerTrafficRefusal { group_id, incarnation, reason });
            return RouteStep::Refused;
        }
        if routed.envelope.to == LOCAL_NODE {
            RouteStep::Local(routed)
        } else {
            RouteStep::Remote(routed)
        }
    }

    /// Puts an envelope the local host refused back at the end of the network.
    pub fn return_peer(&mut self, envelope: RoutedPeerEnvelope)
        requires
            old(self).wf(),
        ensures
            final(self).wf(),
            final(self).state() == (ClusterState {
                network: old(self).state().network.push(envelope),
                ..old(self).state()
            }),
    {
        self.network.push_back(envelope);
    }

    /// Records that a remote replica was poisoned by an envelope it consumed.
    pub fn remote_poisoned(&mut self, group_id: GroupId, report: &mut DriveReport)
        requires
            old(self).wf(),
            old(report).remote_failures < u64::MAX,
        ensures
            final(self).wf(),
            final(self).state() == old(self).state().poisoned(group_id),
            *final(report) == (DriveReport {
                remote_failures: (old(report).remote_failures + 1) as u64,
                ..*old(report)
            }),
    {
        report.remote_failures = report.remote_failures + 1;
        self.poison(group_id);
    }

    /// Returns the failure of a route to a replica that is not there.
    pub fn missing_peer(&self, group_id: GroupId) -> (r: AdapterError)
        requires
            self.wf(),
        ensures
            r == (AdapterError::Lifecycle {
                group_id,
                expected: GroupLifecycle::Recovering,
                actual: match self.state().slot(group_id) {
                    Some(slot) => Some(slot.lifecycle),
                    None => None,
                },
            }),
    {
        AdapterError::Lifecycle {
            group_id,
            expected: GroupLifecycle::Recovering,
            actual: match self.slot(group_id) {
                Some(slot) => Some(slot.lifecycle),
                None => None,
            },
        }
    }

    /// Decides whether the cluster is idle after a round: nothing moved, nothing is held or
    /// undelivered, and no managed work is queued.
    pub fn is_idle(&self, progressed: bool, delayed_progress: bool, queued: usize) -> (r: bool)
        ensures
            r == (!progressed && !delayed_progress && self.state().network.len() == 0
                && self.state().delayed.len() == 0 && queued == 0),
    {
        !progressed && !delayed_progress && self.network.len() == 0 && self.delayed.len() == 0
            && queued == 0
    }

    // ----------------------------------------------------------------- lifecycle

    /// Refuses an operation on a group that is not in the lifecycle it starts from.
    pub fn require_lifecycle(&self, group_id: GroupId, expected: GroupLifecycle) -> (r: Result<
        (),
        AdapterError,
    >)
        requires
            self.wf(),
        ensures
            ({
                let actual = match self.state().slot(group_id) {
                    Some(slot) => Some(slot.lifecycle),
                    None => None,
                };
                if actual == Some(expected) {
                    r is Ok
                } else {
                    r == Err::<(), AdapterError>(
                        AdapterError::Lifecycle { group_id, expected, actual },
                    )
                }
            }),
    {
        let actual = match self.slot(group_id) {
            Some(slot) => Some(slot.lifecycle),
            None => None,
        };
        if let Some(lifecycle) = actual {
            if lifecycle == expected {
                return Ok(());
            }
        }
        Err(AdapterError::Lifecycle { group_id, expected, actual })
    }

    /// Checks a first registration before any driver is opened.
    pub fn registration_quota(&self, group_id: GroupId, quota: usize) -> (r: Result<
        WorkQuota,
        AdapterError,
    >)
        requires
            self.wf(),
        ensures
            if self.state().slot(group_id) is Some {
                r == Err::<WorkQuota, AdapterError>(AdapterError::GroupAlreadyRegistered(group_id))
            } else if quota == 0 || quota > u32::MAX {
                r == Err::<WorkQuota, AdapterError>(AdapterError::QuotaOutOfRange(quota))
            } else {
                r is Ok && r->Ok_0@ == quota
            },
    {
        if self.slot(group_id).is_some() {
            return Err(AdapterError::GroupAlreadyRegistered(group_id));
        }
        if quota as u64 > u32::MAX as u64 {
            return Err(AdapterError::QuotaOutOfRange(quota));
        }
        match WorkQuota::new(quota as u32) {
            Some(quota) => Ok(quota),
            None => Err(AdapterError::QuotaOutOfRange(quota)),
        }
    }

    /// Registers a first incarnation in the `Creating` state once its drivers are open.
    pub fn register_group(
        &mut self,
        group_id: GroupId,
        quota: usize,
        opened: Result<(), DriverErrorKind>,
    ) -> (r: Result<(), AdapterError>)
        requires
            old(self).wf(),
        ensures
            final(self).wf(),
            if old(self).state().slot(group_id) is Some {
                r == Err::<(), AdapterError>(AdapterError::GroupAlreadyRegistered(group_id))
                    && final(self).state() == old(self).state()
            } else if quota == 0 || quota > u32::MAX {
                r == Err::<(), AdapterError>(AdapterError::QuotaOutOfRange(quota))
                    && final(self).state() == old(self).state()
            } else {
                match opened {
                    Err(kind) => r == Err::<(), AdapterError>(
                        AdapterError::OpenGroup { group_id, kind },
                    ) && final(self).state() == old(self).state(),
                    Ok(()) => {
                        &&& r is Ok
                        &&& final(self).state().slot(group_id) is Some
                        &&& final(self).state().slot(group_id)->0.quota@ == quota
                        &&& final(self).state().slot(group_id)->0.incarnation@ == 1
                        &&& final(self).state() == old(self).state().with_slot(
                            group_id,
                            ClusterState::fresh_slot(
                                final(self).state().slot(group_id)->0.incarnation,
                                final(self).state().slot(group_id)->0.quota,
                            ),
                        )
                    },
                }
            },
    {
        let quota = match self.registration_quota(group_id, quota) {
            Ok(quota) => quota,
            Err(error) => {
                return Err(error);
            },
        };
        if let Err(kind) = opened {
            return Err(AdapterError::OpenGroup { group_id, kind });
        }
        self.insert_fresh(group_id, GroupIncarnation::first(), quota);
        Ok(())
    }

    fn insert_fresh(&mut self, group_id: GroupId, incarnation: GroupIncarnation, quota: WorkQuota)
        requires
            old(self).wf(),
        ensures
            final(self).wf(),
            final(self).state() == old(self).state().with_slot(
                group_id,
                ClusterState::fresh_slot(incarnation, quota),
            ),
    {
        self.groups.insert(
            slot_key(group_id),
            GroupSlot {
                incarnation,
                lifecycle: GroupLifecycle::Creating,
                quota,
                applied_index: 0,
                value: 0,
                poisoned: false,
            },
        );
    }

    fn move_to(&mut self, group_id: GroupId, to: GroupLifecycle)
        requires
            old(self).wf(),
        ensures
            final(self).wf(),
            final(self).state() == old(self).state().moved(group_id, to),
    {
        if let Some(slot) = self.slot(group_id) {
            self.groups.insert(
                slot_key(group_id),
                GroupSlot {
                    incarnation: slot.incarnation,
                    lifecycle: to,
                    quota: slot.quota,
                    applied_index: slot.applied_index,
                    value: slot.value,
                    poisoned: slot.poisoned,
                },
            );
        }
    }

    fn clear_sessions(&mut self, group_id: GroupId)
        requires
            old(self).wf(),
        ensures
            final(self).wf(),
            final(self).state() == old(self).state().without_sessions(group_id),
    {
        let low: u64 = group_id.get() as u64 * 0x1_0000_0000;
        self.sessions.remove_range(low, low + 0xffff_ffff);
        assert(self.sessions@ =~= old(self).state().without_sessions(group_id).sessions);
    }

    /// Moves one created group into recovery once its election tick is scheduled.
    pub fn recover_group(&mut self, group_id: GroupId, outcome: RecoveryOutcome) -> (r: Result<
        (),
        AdapterError,
    >)
        requires
            old(self).wf(),
        ensures
            final(self).wf(),
            recovered(r, old(self).state(), final(self).state(), group_id, outcome),
    {
        if let Err(error) = self.require_lifecycle(group_id, GroupLifecycle::Creating) {
            return Err(error);
        }
        match outcome {
            RecoveryOutcome::NotRegistered => Err(
                AdapterError::Lifecycle {
                    group_id,
                    expected: GroupLifecycle::Creating,
                    actual: None,
                },
            ),
            RecoveryOutcome::Refused(reason) => Err(
                AdapterError::RecoveryAdmission { group_id, reason },
            ),
            RecoveryOutcome::Scheduled => {
                self.move_to(group_id, GroupLifecycle::Recovering);
                Ok(())
            },
        }
    }

    /// Marks a recovered group ready for counter work.
    pub fn serve_group(&mut self, group_id: GroupId) -> (r: Result<(), AdapterError>)
        requires
            old(self).wf(),
        ensures
            final(self).wf(),
            ({
                let actual = match old(self).state().slot(group_id) {
                    Some(slot) => Some(slot.lifecycle),
                    None => None,
                };
                if actual == Some(GroupLifecycle::Recovering) {
                    r is Ok && final(self).state() == old(self).state().moved(
                        group_id,
                        GroupLifecycle::Serving,
                    )
                } else {
                    r == Err::<(), AdapterError>(
                        AdapterError::Lifecycle {
                            group_id,
                            expected: GroupLifecycle::Recovering,
                            actual,
                        },
                    ) && final(self).state() == old(self).state()
                }
            }),
    {
        if let Err(error) = self.require_lifecycle(group_id, GroupLifecycle::Recovering) {
            return Err(error);
        }
        self.move_to(group_id, GroupLifecycle::Serving);
        Ok(())
    }

    /// Decides what a lifecycle request asks of the physical host, or how it is answered without
    /// it. Every state and request is applied, idempotent or a typed conflict.
    pub fn lifecycle_step(&self, group_id: GroupId, request: LifecycleRequest) -> (r: LifecycleStep)
        requires
            self.wf(),
        ensures
            r == self.state().lifecycle_step(group_id, request),
    {
        let target = request.target();
        let Some(slot) = self.slot(group_id) else {
            return match request {
                LifecycleRequest::Create { .. } => LifecycleStep::Open {
                    incarnation: GroupIncarnation::first(),
                },
                _ => LifecycleStep::Answer(
                    LifecycleOutcome::Rejected(LifecycleRejection::GroupUnknown),
                ),
            };
        };
        let state = slot.lifecycle;
        let incarnation = slot.incarnation;
        if state == GroupLifecycle::Tombstoned {
            return LifecycleStep::Answer(
                if request == LifecycleRequest::Tombstone {
                    LifecycleOutcome::Idempotent { state, incarnation }
                } else {
                    LifecycleOutcome::Rejected(LifecycleRejection::GroupTombstoned)
                },
            );
        }
        if let LifecycleRequest::Create { quota } = request {
            if state == GroupLifecycle::Creating && slot.quota != quota {
                return LifecycleStep::Answer(
                    LifecycleOutcome::Rejected(
                        LifecycleRejection::QuotaConflict { current: slot.quota },
                    ),
                );
            }
        }
        if state == target {
            return LifecycleStep::Answer(LifecycleOutcome::Idempotent { state, incarnation });
        }
        let applied = LifecycleStep::Answer(
            LifecycleOutcome::Applied { from: state, to: target, incarnation },
        );
        let conflict = LifecycleStep::Answer(
            LifecycleOutcome::Rejected(
                LifecycleRejection::Conflict { current: state, requested: target },
            ),
        );
        match (request, state) {
            (LifecycleRequest::Create { .. }, GroupLifecycle::Removed) => {
                match incarnation.successor() {
                    Some(incarnation) => LifecycleStep::Open { incarnation },
                    None => LifecycleStep::Answer(
                        LifecycleOutcome::Rejected(LifecycleRejection::IncarnationExhausted),
                    ),
                }
            },
            (LifecycleRequest::Recover, GroupLifecycle::Creating) => LifecycleStep::Schedule,
            (LifecycleRequest::Serve, GroupLifecycle::Recovering) => applied,
            (LifecycleRequest::Drain, GroupLifecycle::Creating) => applied,
            (LifecycleRequest::Drain, GroupLifecycle::Recovering) => applied,
            (LifecycleRequest::Drain, GroupLifecycle::Serving) => applied,
            (LifecycleRequest::Remove, GroupLifecycle::Draining) => LifecycleStep::Release,
            (LifecycleRequest::Tombstone, GroupLifecycle::Removed) => applied,
            _ => conflict,
        }
    }

    /// Applies a lifecycle request once the physical host has done its part. `physical` has to
    /// answer what [`Self::lifecycle_step`] asked. No accepted work fails on the way: a group is
    /// released only once it is drained.
    pub fn lifecycle(
        &mut self,
        group_id: GroupId,
        request: LifecycleRequest,
        physical: PhysicalOutcome,
    ) -> (r: Result<LifecycleTransition, AdapterError>)
        requires
            old(self).wf(),
            answers(old(self).state().lifecycle_step(group_id, request), physical),
        ensures
            final(self).wf(),
            final(self).state() == old(self).state().lifecycle(group_id, request, physical),
            match lifecycle_answer(old(self).state(), group_id, request, physical) {
                Ok(outcome) => r is Ok && r->Ok_0.outcome == outcome && r->Ok_0.failed@.len() == 0,
                Err(error) => r is Err && r->Err_0 == error,
            },
    {
        match self.apply_lifecycle(group_id, request, physical) {
            Ok(outcome) => Ok(LifecycleTransition { outcome, failed: Vec::new() }),
            Err(error) => Err(error),
        }
    }

    fn apply_lifecycle(
        &mut self,
        group_id: GroupId,
        request: LifecycleRequest,
        physical: PhysicalOutcome,
    ) -> (r: Result<LifecycleOutcome, AdapterError>)
        requires
            old(self).wf(),
            answers(old(self).state().lifecycle_step(group_id, request), physical),
        ensures
            final(self).wf(),
            final(self).state() == old(self).state().lifecycle(group_id, request, physical),
            r == lifecycle_answer(old(self).state(), group_id, request, physical),
    {
        match self.lifecycle_step(group_id, request) {
            LifecycleStep::Answer(outcome) => {
                if let LifecycleOutcome::Applied { .. } = outcome {
                    self.move_to(group_id, request.target());
                }
                Ok(outcome)
            },
            LifecycleStep::Open { incarnation } => {
                if let PhysicalOutcome::NotOpened(kind) = physical {
                    return Err(AdapterError::OpenGroup { group_id, kind });
                }
                if let LifecycleRequest::Create { quota } = request {
                    self.clear_sessions(group_id);
                    self.insert_fresh(group_id, incarnation, quota);
                }
                Ok(LifecycleOutcome::Created { incarnation })
            },
            LifecycleStep::Schedule => {
                let incarnation = match self.slot(group_id) {
                    Some(slot) => slot.incarnation,
                    None => GroupIncarnation::first(),
                };
                if let PhysicalOutcome::Recovery(outcome) = physical {
                    if let Err(error) = self.recover_group(group_id, outcome) {
                        return Err(error);
                    }
                }
                Ok(
                    LifecycleOutcome::Applied {
                        from: GroupLifecycle::Creating,
                        to: GroupLifecycle::Recovering,
                        incarnation,
                    },
                )
            },
            LifecycleStep::Release => {
                let incarnation = match self.slot(group_id) {
                    Some(slot) => slot.incarnation,
                    None => GroupIncarnation::first(),
                };
                match physical {
                    PhysicalOutcome::Release(ReleaseOutcome::Queued { items }) => {
                        let pending: u32 = if items as u64 > u32::MAX as u64 {
                            u32::MAX
                        } else {
                            items as u32
                        };
                        return Ok(
                            LifecycleOutcome::Rejected(
                                LifecycleRejection::QueueNotDrained { pending },
                            ),
                        );
                    },
                    PhysicalOutcome::Release(ReleaseOutcome::InFlight) => {
                        return Ok(
                            LifecycleOutcome::Rejected(
                                LifecycleRejection::QueueNotDrained { pending: 1 },
                            ),
                        );
                    },
                    _ => {},
                }
                let _ = self.service_delays.remove(slot_key(group_id));
                self.clear_sessions(group_id);
                self.move_to(group_id, GroupLifecycle::Removed);
                Ok(
                    LifecycleOutcome::Applied {
                        from: GroupLifecycle::Draining,
                        to: GroupLifecycle::Removed,
                        incarnation,
                    },
                )
            },
        }
    }
}

/// A report that did not fit ends the turn.
proof fn lemma_fitting_stops(
    s: ClusterState,
    group: GroupId,
    items: Seq<TurnItem>,
    n: nat,
    m: nat,
)
    requires
        n <= m,
        s.fitting(group, items, n) < n,
    ensures
        s.fitting(group, items, m) == s.fitting(group, items, n),
    decreases m,
{
    if n < m {
        lemma_fitting_stops(s, group, items, n, (m - 1) as nat);
    }
}

/// The physical host was asked exactly what the step names.
pub open spec fn answers(step: LifecycleStep, physical: PhysicalOutcome) -> bool {
    match step {
        LifecycleStep::Answer(_) => physical is Unasked,
        LifecycleStep::Open { .. } => physical is Opened || physical is NotOpened,
        LifecycleStep::Schedule => physical is Recovery,
        LifecycleStep::Release => physical is Release,
    }
}

/// What becomes of a recovery.
pub open spec fn recovered(
    r: Result<(), AdapterError>,
    before: ClusterState,
    after: ClusterState,
    group: GroupId,
    outcome: RecoveryOutcome,
) -> bool {
    let actual = match before.slot(group) {
        Some(slot) => Some(slot.lifecycle),
        None => None,
    };
    if actual != Some(GroupLifecycle::Creating) {
        &&& r == Err::<(), AdapterError>(
            AdapterError::Lifecycle {
                group_id: group,
                expected: GroupLifecycle::Creating,
                actual,
            },
        )
        &&& after == before
    } else {
        match outcome {
            RecoveryOutcome::Scheduled => r is Ok && after == before.moved(
                group,
                GroupLifecycle::Recovering,
            ),
            RecoveryOutcome::NotRegistered => r == Err::<(), AdapterError>(
                AdapterError::Lifecycle {
                    group_id: group,
                    expected: GroupLifecycle::Creating,
                    actual: None,
                },
            ) && after == before,
            RecoveryOutcome::Refused(reason) => r == Err::<(), AdapterError>(
                AdapterError::RecoveryAdmission { group_id: group, reason },
            ) && after == before,
        }
    }
}

/// How a lifecycle request is answered once the physical host has done its part.
pub open(crate) spec fn lifecycle_answer(
    s: ClusterState,
    group: GroupId,
    request: LifecycleRequest,
    physical: PhysicalOutcome,
) -> Result<LifecycleOutcome, AdapterError> {
    let applied = LifecycleOutcome::Applied {
        from: s.slot(group)->0.lifecycle,
        to: request.target(),
        incarnation: s.slot(group)->0.incarnation,
    };
    match s.lifecycle_step(group, request) {
        LifecycleStep::Answer(outcome) => Ok(outcome),
        LifecycleStep::Open { incarnation } => match physical {
            PhysicalOutcome::NotOpened(kind) => Err(
                AdapterError::OpenGroup { group_id: group, kind },
            ),
            _ => Ok(LifecycleOutcome::Created { incarnation }),
        },
        LifecycleStep::Schedule => match physical {
            PhysicalOutcome::Recovery(RecoveryOutcome::NotRegistered) => Err(
                AdapterError::Lifecycle {
                    group_id: group,
                    expected: GroupLifecycle::Creating,
                    actual: None,
                },
            ),
            PhysicalOutcome::Recovery(RecoveryOutcome::Refused(reason)) => Err(
                AdapterError::RecoveryAdmission { group_id: group, reason },
            ),
            _ => Ok(applied),
        },
        LifecycleStep::Release => match physical {
            PhysicalOutcome::Release(ReleaseOutcome::Queued { items }) => Ok(
                LifecycleOutcome::Rejected(
                    LifecycleRejection::QueueNotDrained {
                        pending: if items > u32::MAX {
                            u32::MAX
                        } else {
                            items as u32
                        },
                    },
                ),
            ),
            PhysicalOutcome::Release(ReleaseOutcome::InFlight) => Ok(
                LifecycleOutcome::Rejected(LifecycleRejection::QueueNotDrained { pending: 1 }),
            ),
            _ => Ok(applied),
        },
    }
}

} // verus!
