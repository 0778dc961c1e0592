//! Mathematical model of the consumer policy around a managed group host.

use vstd::prelude::*;

use crate::adapter::cluster::{
    AdapterSession, AdmissionReceipt, AppliedItem, DelayedDispatch, DrivenDisposition, DrivenItem,
    DriverErrorKind, GroupReport, GroupSlot, LifecycleStep, NetworkConfig, OutstandingRequest,
    PendingProposal, PhysicalOutcome, PolicyAnswer, ProposalEvent, ProposalFailure, ProposalReceipt,
    RoutedPeerEnvelope, TurnItem,
};
use crate::adapter::replica::next_request;
use crate::adapter::state_machine::{CounterApplyResult, CounterCompletedView};
use crate::types::{
    fingerprint_of, AdmissionRejection, ClientId, CounterCommand, CounterResult, GroupId,
    GroupIncarnation, GroupLifecycle, LifecycleOutcome, LifecycleRejection, LifecycleRequest,
    RequestFingerprint, RequestIdentity, Sequence, SessionEpoch, WorkClass, WorkQuota,
};

verus! {

/// Key of a group's slot.
pub open spec fn group_key(group: GroupId) -> u64 {
    group@ as u64
}

/// Key of a client's session in a group.
pub open spec fn session_key(group: GroupId, client: ClientId) -> u64 {
    (group@ * 0x1_0000_0000 + client@) as u64
}

/// Least key of a group's sessions.
pub open spec fn first_session_key(group: GroupId) -> u64 {
    (group@ * 0x1_0000_0000) as u64
}

/// Greatest key of a group's sessions.
pub open spec fn last_session_key(group: GroupId) -> u64 {
    (group@ * 0x1_0000_0000 + 0xffff_ffff) as u64
}

/// Consumer policy state: slots, sessions, accepted proposals and the deterministic network.
#[verifier::ext_equal]
pub struct ClusterState {
    /// Bounds.
    pub config: NetworkConfig,
    /// Slots by group.
    pub slots: Map<u64, GroupSlot>,
    /// Sessions by group and client.
    pub sessions: Map<u64, AdapterSession>,
    /// Peer envelopes awaiting delivery, oldest first.
    pub network: Seq<RoutedPeerEnvelope>,
    /// Results of completed proposals.
    pub completed: Map<u64, CounterApplyResult>,
    /// Terminal failures of accepted proposals.
    pub failures: Map<u64, ProposalFailure>,
    /// Accepted proposals that neither completed nor failed.
    pub pending: Map<u64, PendingProposal>,
    /// Proposal each managed work item carries.
    pub work: Map<u64, u64>,
    /// Dispatches held for their service delay.
    pub delayed: Seq<DelayedDispatch>,
    /// Service delay by group.
    pub delays: Map<u64, usize>,
    /// Identity the next proposal carries; zero once the identities are used up.
    pub next_proposal: u64,
}

impl PendingProposal {
    /// Group the proposal was accepted for.
    pub open spec fn group(self) -> GroupId {
        match self {
            PendingProposal::OpenSession { group_id, .. } => group_id,
            PendingProposal::Counter { group_id, .. } => group_id,
            PendingProposal::Fault { group_id, .. } => group_id,
        }
    }

    /// Incarnation that accepted it.
    pub open spec fn generation(self) -> GroupIncarnation {
        match self {
            PendingProposal::OpenSession { incarnation, .. } => incarnation,
            PendingProposal::Counter { incarnation, .. } => incarnation,
            PendingProposal::Fault { incarnation, .. } => incarnation,
        }
    }

    /// Receipt it was accepted under.
    pub open spec fn accepted(self) -> ProposalReceipt {
        match self {
            PendingProposal::OpenSession { receipt, .. } => receipt,
            PendingProposal::Counter { receipt, .. } => receipt,
            PendingProposal::Fault { receipt, .. } => receipt,
        }
    }

    /// Whether it establishes exactly this session.
    pub open spec fn opens(
        self,
        group: GroupId,
        incarnation: GroupIncarnation,
        client: ClientId,
        epoch: SessionEpoch,
    ) -> bool {
        self matches PendingProposal::OpenSession { group_id, incarnation: i, client_id, epoch: e, .. }
            && group_id == group && i == incarnation && client_id == client && e == epoch
    }
}

impl ClusterState {
    /// A cluster with no group.
    pub open spec fn initial(config: NetworkConfig) -> Self {
        ClusterState {
            config,
            slots: Map::empty(),
            sessions: Map::empty(),
            network: Seq::empty(),
            completed: Map::empty(),
            failures: Map::empty(),
            pending: Map::empty(),
            work: Map::empty(),
            delayed: Seq::empty(),
            delays: Map::empty(),
            next_proposal: 1,
        }
    }

    /// The slot of a group, if it was ever created.
    pub open spec fn slot(self, group: GroupId) -> Option<GroupSlot> {
        if self.slots.contains_key(group_key(group)) {
            Some(self.slots[group_key(group)])
        } else {
            None
        }
    }

    /// The session of a client in a group, if it is open.
    pub open spec fn session(self, group: GroupId, client: ClientId) -> Option<AdapterSession> {
        if self.sessions.contains_key(session_key(group, client)) {
            Some(self.sessions[session_key(group, client)])
        } else {
            None
        }
    }

    /// The state with a group's slot set.
    pub open spec fn with_slot(self, group: GroupId, slot: GroupSlot) -> Self {
        ClusterState { slots: self.slots.insert(group_key(group), slot), ..self }
    }

    /// The state with a session set.
    pub open spec fn with_session(
        self,
        group: GroupId,
        client: ClientId,
        session: AdapterSession,
    ) -> Self {
        ClusterState {
            sessions: self.sessions.insert(session_key(group, client), session),
            ..self
        }
    }

    /// The state without any of a group's sessions.
    pub open spec fn without_sessions(self, group: GroupId) -> Self {
        ClusterState {
            sessions: self.sessions.restrict(
                Set::new(
                    |key: u64| !(first_session_key(group) <= key && key <= last_session_key(group)),
                ),
            ),
            ..self
        }
    }

    // ------------------------------------------------------------------- gates

    /// Refusal that depends on the addressed slot's identity and removal.
    pub open spec fn admit_group(
        self,
        group: GroupId,
        incarnation: GroupIncarnation,
        class: WorkClass,
    ) -> Option<AdmissionRejection> {
        match self.slot(group) {
            None => Some(AdmissionRejection::GroupUnknown),
            Some(slot) => if slot.lifecycle is Tombstoned {
                Some(AdmissionRejection::GroupTombstoned)
            } else if incarnation@ < slot.incarnation@ {
                Some(AdmissionRejection::StaleIncarnation { current: slot.incarnation })
            } else if incarnation@ > slot.incarnation@ {
                Some(AdmissionRejection::FutureIncarnation { current: slot.incarnation })
            } else if slot.lifecycle is Removed {
                Some(AdmissionRejection::GroupNotAcceptingWork { state: slot.lifecycle, class })
            } else {
                None
            },
        }
    }

    /// Whether an accepted proposal of the group has neither completed nor failed.
    pub open spec fn work_remains(self, group: GroupId) -> bool {
        exists|id: u64| #[trigger]
            self.pending.contains_key(id) && self.pending[id].group() == group
    }

    /// Refusal of protocol traffic: a draining group keeps running only while it owes accepted work
    /// its outcome.
    pub open spec fn gate_protocol_continuation(
        self,
        group: GroupId,
        incarnation: GroupIncarnation,
    ) -> Option<AdmissionRejection> {
        match self.admit_group(group, incarnation, WorkClass::Control) {
            Some(reason) => Some(reason),
            None => {
                let slot = self.slot(group)->0;
                if !slot.lifecycle.permits_protocol_continuation(self.work_remains(group)) {
                    Some(
                        AdmissionRejection::GroupNotAcceptingWork {
                            state: slot.lifecycle,
                            class: WorkClass::Control,
                        },
                    )
                } else if slot.poisoned {
                    Some(AdmissionRejection::GroupPoisoned)
                } else {
                    None
                }
            },
        }
    }

    /// Refusal of work by class.
    pub open spec fn gate_work(
        self,
        group: GroupId,
        incarnation: GroupIncarnation,
        class: WorkClass,
    ) -> Option<AdmissionRejection> {
        match self.admit_group(group, incarnation, class) {
            Some(reason) => Some(reason),
            None => {
                let slot = self.slot(group)->0;
                if !slot.lifecycle.admits(class) {
                    Some(AdmissionRejection::GroupNotAcceptingWork { state: slot.lifecycle, class })
                } else if slot.poisoned {
                    Some(AdmissionRejection::GroupPoisoned)
                } else {
                    None
                }
            },
        }
    }

    /// Refusal of a session request.
    pub open spec fn gate_session(
        self,
        group: GroupId,
        incarnation: GroupIncarnation,
        client: ClientId,
        epoch: SessionEpoch,
    ) -> Option<AdmissionRejection> {
        match self.admit_group(group, incarnation, WorkClass::Control) {
            Some(reason) => Some(reason),
            None => {
                let slot = self.slot(group)->0;
                if !(slot.lifecycle is Recovering || slot.lifecycle is Serving) {
                    Some(AdmissionRejection::GroupNotAcceptingSessions { state: slot.lifecycle })
                } else if slot.poisoned {
                    Some(AdmissionRejection::GroupPoisoned)
                } else if client@ >= self.config.max_sessions_per_group {
                    Some(AdmissionRejection::ClientOutOfRange)
                } else {
                    match self.session(group, client) {
                        Some(session) => if epoch@ < session.epoch@ {
                            Some(AdmissionRejection::StaleSession { current: session.epoch })
                        } else {
                            None
                        },
                        None => None,
                    }
                }
            },
        }
    }

    /// What a session answers to a counter request.
    pub open(crate) spec fn session_answer(
        session: AdapterSession,
        request: RequestIdentity,
        command: CounterCommand,
    ) -> PolicyAnswer {
        let completed = session.completed;
        let outstanding = session.outstanding;
        let expected = match next_request(completed) {
            Some(expected) => expected,
            None => Sequence(1),
        };
        if request.session_epoch@ < session.epoch@ {
            PolicyAnswer::Refused(AdmissionRejection::StaleSession { current: session.epoch })
        } else if request.session_epoch@ > session.epoch@ {
            PolicyAnswer::Refused(AdmissionRejection::FutureSession { current: session.epoch })
        } else if request.fingerprint@ != fingerprint_of(command) {
            PolicyAnswer::Refused(
                AdmissionRejection::FingerprintMismatch {
                    expected: RequestFingerprint(fingerprint_of(command)),
                },
            )
        } else if completed is Some && request.sequence@ < completed->0.sequence@ {
            PolicyAnswer::Refused(
                AdmissionRejection::StaleSequence { highest: completed->0.sequence },
            )
        } else if completed is Some && request.sequence@ == completed->0.sequence@ {
            if command == completed->0.command {
                PolicyAnswer::Replayed(completed->0.result)
            } else {
                PolicyAnswer::Refused(AdmissionRejection::ConflictingRetry)
            }
        } else if outstanding is Some && request.sequence == outstanding->0.sequence {
            if command == outstanding->0.command {
                PolicyAnswer::AlreadyQueued(outstanding->0.receipt)
            } else {
                PolicyAnswer::Refused(AdmissionRejection::ConflictingRetry)
            }
        } else if request.sequence != expected {
            PolicyAnswer::Refused(AdmissionRejection::SequenceGap { expected })
        } else {
            PolicyAnswer::New
        }
    }

    /// What consumer policy answers to a counter request. Retry decisions come before any queue
    /// bound.
    pub open(crate) spec fn counter_gate(
        self,
        group: GroupId,
        incarnation: GroupIncarnation,
        request: RequestIdentity,
        command: CounterCommand,
    ) -> PolicyAnswer {
        match self.gate_work(group, incarnation, WorkClass::Command) {
            Some(reason) => PolicyAnswer::Refused(reason),
            None => if request.client_id@ >= self.config.max_sessions_per_group {
                PolicyAnswer::Refused(AdmissionRejection::ClientOutOfRange)
            } else {
                match self.session(group, request.client_id) {
                    None => PolicyAnswer::Refused(AdmissionRejection::SessionNotOpen),
                    Some(session) => Self::session_answer(session, request, command),
                }
            },
        }
    }

    // --------------------------------------------------------------- proposals

    /// The state once one proposal identity has been taken.
    pub open spec fn identity_taken(self) -> Self {
        ClusterState {
            next_proposal: if self.next_proposal == u64::MAX {
                0
            } else {
                (self.next_proposal + 1) as u64
            },
            ..self
        }
    }

    /// `id` is the oldest accepted proposal that establishes exactly this session.
    pub open spec fn is_queued_session(
        self,
        group: GroupId,
        incarnation: GroupIncarnation,
        client: ClientId,
        epoch: SessionEpoch,
        id: u64,
    ) -> bool {
        &&& self.pending.contains_key(id)
        &&& self.pending[id].opens(group, incarnation, client, epoch)
        &&& forall|other: u64| #[trigger]
            self.pending.contains_key(other) && other < id ==> !self.pending[other].opens(
                group,
                incarnation,
                client,
                epoch,
            )
    }

    /// Some accepted proposal establishes exactly this session.
    pub open spec fn queues_session(
        self,
        group: GroupId,
        incarnation: GroupIncarnation,
        client: ClientId,
        epoch: SessionEpoch,
    ) -> bool {
        exists|id: u64| self.is_queued_session(group, incarnation, client, epoch, id)
    }

    /// A session request for the current incarnation can be decided: there is an identity left to
    /// take, or it is an exact retry, which takes none.
    pub open spec fn can_open_session(
        self,
        group: GroupId,
        client: ClientId,
        epoch: SessionEpoch,
    ) -> bool {
        self.next_proposal != 0 || match self.slot(group) {
            Some(slot) => self.queues_session(group, slot.incarnation, client, epoch),
            None => false,
        }
    }

    /// The state once an accepted proposal has been recorded.
    pub open spec fn accepted(self, id: u64, admission: AdmissionReceipt, proposal: PendingProposal) -> Self {
        ClusterState {
            pending: self.pending.insert(id, proposal),
            work: self.work.insert(admission.work_id, id),
            ..self
        }
    }

    /// The state once a session proposal has been accepted.
    pub open spec fn session_accepted(
        self,
        group: GroupId,
        incarnation: GroupIncarnation,
        client: ClientId,
        epoch: SessionEpoch,
        receipt: ProposalReceipt,
    ) -> Self {
        self.accepted(
            receipt.proposal_id,
            receipt.admission,
            PendingProposal::OpenSession {
                group_id: group,
                incarnation,
                client_id: client,
                epoch,
                receipt,
            },
        )
    }

    /// The state once a counter proposal has been accepted.
    pub open spec fn counter_accepted(
        self,
        group: GroupId,
        incarnation: GroupIncarnation,
        request: RequestIdentity,
        command: CounterCommand,
        receipt: ProposalReceipt,
    ) -> Self {
        let marked = match self.session(group, request.client_id) {
            Some(session) => self.with_session(
                group,
                request.client_id,
                AdapterSession {
                    outstanding: Some(
                        OutstandingRequest { sequence: request.sequence, command, receipt },
                    ),
                    ..session
                },
            ),
            None => self,
        };
        marked.accepted(
            receipt.proposal_id,
            receipt.admission,
            PendingProposal::Counter { group_id: group, incarnation, request, command, receipt },
        )
    }

    /// The session with the outstanding request of proposal `id` cleared.
    pub open spec fn cleared_session(session: AdapterSession, id: u64) -> AdapterSession {
        if session.outstanding is Some && session.outstanding->0.receipt.proposal_id == id {
            AdapterSession { outstanding: None, ..session }
        } else {
            session
        }
    }

    /// The state once a managed work item has failed.
    pub open spec fn work_failed(self, work_id: u64, group: GroupId, kind: DriverErrorKind) -> Self {
        if !self.work.contains_key(work_id) {
            self
        } else {
            let id = self.work[work_id];
            let taken = ClusterState { work: self.work.remove(work_id), ..self };
            if !taken.pending.contains_key(id) {
                taken
            } else {
                let proposal = taken.pending[id];
                let failed = ClusterState {
                    pending: taken.pending.remove(id),
                    failures: taken.failures.insert(
                        id,
                        ProposalFailure {
                            proposal_id: id,
                            group_id: group,
                            incarnation: proposal.generation(),
                            kind,
                        },
                    ),
                    ..taken
                };
                match proposal {
                    PendingProposal::Counter { request, .. } => match failed.session(
                        group,
                        request.client_id,
                    ) {
                        Some(session) => if failed.slot(group) is Some {
                            failed.with_session(
                                group,
                                request.client_id,
                                Self::cleared_session(session, id),
                            )
                        } else {
                            failed
                        },
                        None => failed,
                    },
                    _ => failed,
                }
            }
        }
    }

    /// The state once an accepted proposal has been applied with `result`.
    pub open(crate) spec fn proposal_completed(self, id: u64, result: CounterApplyResult) -> Self {
        if !self.pending.contains_key(id) {
            self
        } else {
            let proposal = self.pending[id];
            let group = proposal.group();
            let taken = ClusterState {
                pending: self.pending.remove(id),
                work: self.work.restrict(Set::new(|key: u64| self.work[key] != id)),
                ..self
            };
            if taken.slot(group) is None || taken.slot(group)->0.incarnation
                != proposal.generation() {
                taken
            } else {
                match proposal {
                    PendingProposal::OpenSession { client_id, epoch, .. } => if result is Session {
                        taken.with_session(
                            group,
                            client_id,
                            AdapterSession { epoch, outstanding: None, completed: None },
                        )
                    } else {
                        taken
                    },
                    PendingProposal::Counter { request, command, .. } => match taken.session(
                        group,
                        request.client_id,
                    ) {
                        None => taken,
                        Some(session) => {
                            let cleared = Self::cleared_session(session, id);
                            taken.with_session(
                                group,
                                request.client_id,
                                match result {
                                    CounterApplyResult::Counter(outcome) => AdapterSession {
                                        completed: Some(
                                            CounterCompletedView {
                                                sequence: request.sequence,
                                                command,
                                                result: outcome,
                                            },
                                        ),
                                        ..cleared
                                    },
                                    _ => cleared,
                                },
                            )
                        },
                    },
                    PendingProposal::Fault { .. } => taken,
                }
            }
        }
    }

    // ----------------------------------------------------------------- reports

    /// The state once a proposal's result has been observed.
    pub open(crate) spec fn observed(self, id: u64, result: CounterApplyResult) -> Self {
        (ClusterState { completed: self.completed.insert(id, result), ..self }).proposal_completed(
            id,
            result,
        )
    }

    /// The state once an entry has been applied.
    pub open(crate) spec fn item_applied(self, group: GroupId, item: AppliedItem) -> Self {
        match item.local_proposal_id {
            None => self,
            Some(id) => {
                let noted = ClusterState {
                    completed: self.completed.insert(id, item.result),
                    ..self
                };
                let moved = match noted.slot(group) {
                    None => noted,
                    Some(slot) => noted.with_slot(
                        group,
                        GroupSlot {
                            applied_index: item.index,
                            value: match item.result {
                                CounterApplyResult::Counter(CounterResult::Added { value }) => value,
                                CounterApplyResult::Counter(CounterResult::Value { value }) => value,
                                _ => slot.value,
                            },
                            ..slot
                        },
                    ),
                };
                moved.proposal_completed(id, item.result)
            },
        }
    }

    /// The state once the first `n` proposal events of a report have been observed.
    pub open(crate) spec fn events_observed(self, events: Seq<ProposalEvent>, n: nat) -> Self
        decreases n,
    {
        if n == 0 {
            self
        } else {
            self.events_observed(events, (n - 1) as nat).observed(
                events[n - 1].proposal_id,
                events[n - 1].result,
            )
        }
    }

    /// The state once the first `n` applied entries of a report have been taken in.
    pub open(crate) spec fn items_applied(self, group: GroupId, items: Seq<AppliedItem>, n: nat) -> Self
        decreases n,
    {
        if n == 0 {
            self
        } else {
            self.items_applied(group, items, (n - 1) as nat).item_applied(group, items[n - 1])
        }
    }

    /// Incarnation the group's emitted envelopes are paired with.
    pub open(crate) spec fn emitting(self, group: GroupId) -> GroupIncarnation {
        match self.slot(group) {
            Some(slot) => slot.incarnation,
            None => GroupIncarnation(1),
        }
    }

    /// The state before a report's envelopes are queued.
    pub open(crate) spec fn digested(self, report: GroupReport) -> Self {
        self.events_observed(
            report.proposal_events@,
            report.proposal_events@.len(),
        ).items_applied(report.group_id, report.applied@, report.applied@.len())
    }

    /// How many more envelopes the bounded network takes.
    pub open spec fn room(self) -> nat {
        if self.network.len() < self.config.max_pending_messages {
            (self.config.max_pending_messages - self.network.len()) as nat
        } else {
            0
        }
    }

    /// A report's envelopes paired with the incarnation that emitted them.
    pub open(crate) spec fn routed(self, report: GroupReport) -> Seq<RoutedPeerEnvelope> {
        let incarnation = self.digested(report).emitting(report.group_id);
        Seq::new(
            report.peer_messages@.len(),
            |i: int| RoutedPeerEnvelope { incarnation, envelope: report.peer_messages@[i] },
        )
    }

    /// How many of a report's envelopes enter the bounded network.
    pub open(crate) spec fn entering(self, report: GroupReport) -> int {
        if self.fits(report) {
            report.peer_messages@.len() as int
        } else {
            self.digested(report).room() as int
        }
    }

    /// The state once a whole report has been taken in: envelopes beyond the bound are not queued.
    pub open(crate) spec fn collected(self, report: GroupReport) -> Self {
        let s = self.digested(report);
        ClusterState {
            network: s.network + self.routed(report).take(self.entering(report)),
            ..s
        }
    }

    /// Whether a whole report fits the bounded network.
    pub open(crate) spec fn fits(self, report: GroupReport) -> bool {
        report.peer_messages@.len() <= self.digested(report).room()
    }

    /// The state once a turn's item has been taken in.
    pub open(crate) spec fn item_done(self, group: GroupId, item: TurnItem) -> Self {
        match item.result {
            Ok(report) => self.collected(report),
            Err(kind) => {
                let failed = self.work_failed(item.work_id, group, kind);
                if kind is DriverPoisoned {
                    failed.poisoned(group)
                } else {
                    failed
                }
            },
        }
    }

    /// The state once a group has been observed to be poisoned.
    pub open spec fn poisoned(self, group: GroupId) -> Self {
        match self.slot(group) {
            Some(slot) => self.with_slot(group, GroupSlot { poisoned: true, ..slot }),
            None => self,
        }
    }

    /// Number of leading items of a turn, out of the first `n`, before the first whose report does
    /// not fit the network.
    pub open(crate) spec fn fitting(self, group: GroupId, items: Seq<TurnItem>, n: nat) -> nat
        decreases n,
    {
        if n == 0 {
            0
        } else {
            let before = self.fitting(group, items, (n - 1) as nat);
            if before == n - 1 && (items[n - 1].result is Err || self.items_done(
                group,
                items,
                before,
            ).fits(items[n - 1].result->Ok_0)) {
                n
            } else {
                before
            }
        }
    }

    /// The state once the first `n` items of a turn have been taken in.
    pub open(crate) spec fn items_done(self, group: GroupId, items: Seq<TurnItem>, n: nat) -> Self
        decreases n,
    {
        if n == 0 {
            self
        } else {
            self.items_done(group, items, (n - 1) as nat).item_done(group, items[n - 1])
        }
    }

    // --------------------------------------------------------------- lifecycle

    /// What a lifecycle request asks of the physical host, or how it is answered without it.
    pub open(crate) spec fn lifecycle_step(self, group: GroupId, request: LifecycleRequest) -> LifecycleStep {
        let target = request.target();
        match self.slot(group) {
            None => match request {
                LifecycleRequest::Create { .. } => LifecycleStep::Open {
                    incarnation: GroupIncarnation(1),
                },
                _ => LifecycleStep::Answer(
                    LifecycleOutcome::Rejected(LifecycleRejection::GroupUnknown),
                ),
            },
            Some(slot) => {
                let state = slot.lifecycle;
                let incarnation = slot.incarnation;
                let applied = LifecycleOutcome::Applied { from: state, to: target, incarnation };
                if state is Tombstoned {
                    if request is Tombstone {
                        LifecycleStep::Answer(LifecycleOutcome::Idempotent { state, incarnation })
                    } else {
                        LifecycleStep::Answer(
                            LifecycleOutcome::Rejected(LifecycleRejection::GroupTombstoned),
                        )
                    }
                } else if request is Create && state is Creating && slot.quota
                    != request->Create_quota {
                    LifecycleStep::Answer(
                        LifecycleOutcome::Rejected(
                            LifecycleRejection::QuotaConflict { current: slot.quota },
                        ),
                    )
                } else if state == target {
                    LifecycleStep::Answer(LifecycleOutcome::Idempotent { state, incarnation })
                } else if request is Create && state is Removed {
                    if incarnation@ < u32::MAX {
                        LifecycleStep::Open {
                            incarnation: GroupIncarnation((incarnation@ + 1) as u32),
                        }
                    } else {
                        LifecycleStep::Answer(
                            LifecycleOutcome::Rejected(LifecycleRejection::IncarnationExhausted),
                        )
                    }
                } else if request is Recover && state is Creating {
                    LifecycleStep::Schedule
                } else if request is Serve && state is Recovering {
                    LifecycleStep::Answer(applied)
                } else if request is Drain && (state is Creating || state is Recovering
                    || state is Serving) {
                    LifecycleStep::Answer(applied)
                } else if request is Remove && state is Draining {
                    LifecycleStep::Release
                } else if request is Tombstone && state is Removed {
                    LifecycleStep::Answer(applied)
                } else {
                    LifecycleStep::Answer(
                        LifecycleOutcome::Rejected(
                            LifecycleRejection::Conflict { current: state, requested: target },
                        ),
                    )
                }
            },
        }
    }

    /// A slot right after its creation.
    pub open spec fn fresh_slot(incarnation: GroupIncarnation, quota: WorkQuota) -> GroupSlot {
        GroupSlot {
            incarnation,
            lifecycle: GroupLifecycle::Creating,
            quota,
            applied_index: 0,
            value: 0,
            poisoned: false,
        }
    }

    /// The state with a group's lifecycle moved.
    pub open spec fn moved(self, group: GroupId, to: GroupLifecycle) -> Self {
        match self.slot(group) {
            Some(slot) => self.with_slot(group, GroupSlot { lifecycle: to, ..slot }),
            None => self,
        }
    }

    /// The state once a lifecycle request has been answered and the physical host has done its part.
    pub open(crate) spec fn lifecycle(
        self,
        group: GroupId,
        request: LifecycleRequest,
        physical: PhysicalOutcome,
    ) -> Self {
        match self.lifecycle_step(group, request) {
            LifecycleStep::Answer(outcome) => if outcome is Applied {
                self.moved(group, request.target())
            } else {
                self
            },
            LifecycleStep::Open { incarnation } => if physical is Opened {
                self.without_sessions(group).with_slot(
                    group,
                    Self::fresh_slot(incarnation, request->Create_quota),
                )
            } else {
                self
            },
            LifecycleStep::Schedule => if physical matches PhysicalOutcome::Recovery(outcome)
                && outcome is Scheduled {
                self.moved(group, GroupLifecycle::Recovering)
            } else {
                self
            },
            LifecycleStep::Release => if physical matches PhysicalOutcome::Release(outcome)
                && outcome is Released {
                (ClusterState {
                    delays: self.delays.remove(group_key(group)),
                    ..self.without_sessions(group)
                }).moved(group, GroupLifecycle::Removed)
            } else {
                self
            },
        }
    }
}

/// Number of the first `n` items whose group step succeeded.
pub open spec fn serviced_in(items: Seq<TurnItem>, n: nat) -> nat
    decreases n,
{
    if n == 0 {
        0
    } else {
        serviced_in(items, (n - 1) as nat) + if items[n - 1].result is Ok {
            1nat
        } else {
            0nat
        }
    }
}

/// Disposition of an item.
pub open spec fn driven(item: TurnItem) -> DrivenItem {
    DrivenItem {
        work_id: item.work_id,
        class: item.class,
        disposition: match item.result {
            Ok(_) => DrivenDisposition::Serviced,
            Err(kind) => DrivenDisposition::Failed { kind },
        },
    }
}

/// Identifiers with one more, in ascending order.
pub open spec fn ordered_insert(ids: Seq<u64>, id: u64) -> Seq<u64>
    decreases ids.len(),
{
    if ids.len() == 0 || ids.last() <= id {
        ids.push(id)
    } else {
        ordered_insert(ids.drop_last(), id).push(ids.last())
    }
}

/// Dispatches whose delay ends this round, in ascending identity order.
pub open spec fn due_dispatches(delayed: Seq<DelayedDispatch>) -> Seq<u64>
    decreases delayed.len(),
{
    if delayed.len() == 0 {
        Seq::empty()
    } else {
        let before = due_dispatches(delayed.drop_last());
        if delayed.last().remaining_rounds <= 1 {
            ordered_insert(before, delayed.last().dispatch_id)
        } else {
            before
        }
    }
}

/// Dispatches still held after this round, each a round closer.
pub open spec fn held_dispatches(delayed: Seq<DelayedDispatch>) -> Seq<DelayedDispatch>
    decreases delayed.len(),
{
    if delayed.len() == 0 {
        Seq::empty()
    } else {
        let before = held_dispatches(delayed.drop_last());
        let last = delayed.last();
        if last.remaining_rounds <= 1 {
            before
        } else {
            before.push(
                DelayedDispatch {
                    remaining_rounds: (last.remaining_rounds - 1) as usize,
                    dispatch_id: last.dispatch_id,
                },
            )
        }
    }
}

/// One group's sessions have keys of their own.
pub proof fn lemma_session_keys(group: GroupId, client: ClientId, other: GroupId, peer: ClientId)
    ensures
        session_key(group, client) == session_key(other, peer) <==> group@ == other@ && client@
            == peer@,
        first_session_key(group) <= session_key(group, client) <= last_session_key(group),
        first_session_key(group) <= session_key(other, peer) <= last_session_key(group) ==> group@
            == other@,
        session_key(group, client) == group@ * 0x1_0000_0000 + client@,
        first_session_key(group) == group@ * 0x1_0000_0000,
        last_session_key(group) == group@ * 0x1_0000_0000 + 0xffff_ffff,
{
}

} // verus!
