//! What the cluster lets in, and what becomes of it, case by case.

use vstd::prelude::*;

use crate::adapter::cluster::state::{due_dispatches, held_dispatches, ClusterState};
use crate::adapter::cluster::{
    AdapterError, AdapterSession, AdmissionReceipt, CounterAdmissionRejected,
    CounterAdmissionRejection, CounterStep, CounterSubmitOutcome, DelayedDispatch,
    DrivenDisposition, DriveReport, DriverErrorKind, ExecutedTurn, FaultStep, GroupSlot,
    LifecycleStep, ManagedAdmissionRejection, ManagedCounterCluster, PendingProposal,
    PhysicalOutcome, PolicyAnswer, ProposalReceipt, RecoveryOutcome, ReleaseOutcome, RouteStep,
    RoutedPeerEnvelope, SessionStep, SessionSubmitOutcome, TurnItem,
};
use crate::adapter::state_machine::{CounterApplyResult, ReplicatedCounterCommand};
use crate::types::{
    fingerprint_of, AdmissionRejection, ClientId, CounterCommand, GroupId, GroupIncarnation,
    GroupLifecycle, LifecycleOutcome, LifecycleRejection, LifecycleRequest, LifecycleTransition,
    RequestIdentity, SessionEpoch, SystemClass, WorkClass,
};

verus! {

/// The group has a slot.
pub open spec fn known(s: ClusterState, group: GroupId) -> bool {
    s.slots.contains_key(group@ as u64)
}

/// Slot of a group that has one.
pub open spec fn slot_at(s: ClusterState, group: GroupId) -> GroupSlot {
    s.slots[group@ as u64]
}

/// The client has a session on the group.
pub open spec fn opened(s: ClusterState, group: GroupId, client: ClientId) -> bool {
    s.sessions.contains_key((group@ * 0x1_0000_0000 + client@) as u64)
}

/// Session of a client that has one.
pub open spec fn session_at(s: ClusterState, group: GroupId, client: ClientId) -> AdapterSession {
    s.sessions[(group@ * 0x1_0000_0000 + client@) as u64]
}

/// The group is there in this incarnation, and neither removed nor retired.
pub open spec fn addressed(s: ClusterState, group: GroupId, incarnation: GroupIncarnation) -> bool {
    &&& known(s, group)
    &&& slot_at(s, group).incarnation@ == incarnation@
    &&& slot_at(s, group).lifecycle != GroupLifecycle::Tombstoned
    &&& slot_at(s, group).lifecycle != GroupLifecycle::Removed
}

/// An accepted proposal of the group has no outcome yet.
pub open spec fn owes(s: ClusterState, group: GroupId) -> bool {
    exists|id: u64| #[trigger]
        s.pending.contains_key(id) && match s.pending[id] {
            PendingProposal::OpenSession { group_id, .. } => group_id == group,
            PendingProposal::Counter { group_id, .. } => group_id == group,
            PendingProposal::Fault { group_id, .. } => group_id == group,
        }
}

/// Why a group that is not addressed refuses: it is unknown, retired, in another incarnation, or
/// removed, in this order.
pub open spec fn refuses_address(
    s: ClusterState,
    group: GroupId,
    incarnation: GroupIncarnation,
    class: WorkClass,
    reason: AdmissionRejection,
) -> bool {
    let slot = slot_at(s, group);
    &&& !known(s, group) ==> reason == AdmissionRejection::GroupUnknown
    &&& known(s, group) && slot.lifecycle == GroupLifecycle::Tombstoned ==> reason
        == AdmissionRejection::GroupTombstoned
    &&& known(s, group) && slot.lifecycle != GroupLifecycle::Tombstoned ==> {
        &&& incarnation@ < slot.incarnation@ ==> reason == (AdmissionRejection::StaleIncarnation {
            current: slot.incarnation,
        })
        &&& incarnation@ > slot.incarnation@ ==> reason == (AdmissionRejection::FutureIncarnation {
            current: slot.incarnation,
        })
        &&& incarnation@ == slot.incarnation@ && slot.lifecycle == GroupLifecycle::Removed ==> reason
            == (AdmissionRejection::GroupNotAcceptingWork { state: GroupLifecycle::Removed, class })
    }
}

/// Work is let in on a serving group, and on a recovering one unless it is a command; never on a
/// poisoned group.
pub proof fn law_work_is_gated(
    cluster: ManagedCounterCluster,
    group: GroupId,
    incarnation: GroupIncarnation,
    class: WorkClass,
    r: Result<(), AdmissionRejection>,
)
    requires
        call_ensures(ManagedCounterCluster::gate_work, (&cluster, group, incarnation, class), r),
    ensures
        ({
            let s = cluster.state();
            let slot = slot_at(s, group);
            let takes = slot.lifecycle == GroupLifecycle::Serving || slot.lifecycle
                == GroupLifecycle::Recovering && class != WorkClass::Command;
            &&& r is Ok <==> addressed(s, group, incarnation) && takes && !slot.poisoned
            &&& addressed(s, group, incarnation) && !takes ==> r
                == Err::<(), AdmissionRejection>(
                AdmissionRejection::GroupNotAcceptingWork { state: slot.lifecycle, class },
            )
            &&& addressed(s, group, incarnation) && takes && slot.poisoned ==> r
                == Err::<(), AdmissionRejection>(AdmissionRejection::GroupPoisoned)
            &&& !addressed(s, group, incarnation) ==> r is Err && refuses_address(
                s,
                group,
                incarnation,
                class,
                r->Err_0,
            )
        }),
{
}

/// Protocol traffic goes on while a group recovers or serves, and while it drains as long as it owes
/// an accepted proposal its outcome; never on a poisoned group.
pub proof fn law_protocol_traffic_is_gated(
    cluster: ManagedCounterCluster,
    group: GroupId,
    incarnation: GroupIncarnation,
    r: Result<(), AdmissionRejection>,
)
    requires
        call_ensures(
            ManagedCounterCluster::gate_protocol_continuation,
            (&cluster, group, incarnation),
            r,
        ),
    ensures
        ({
            let s = cluster.state();
            let slot = slot_at(s, group);
            let moves = slot.lifecycle == GroupLifecycle::Serving || slot.lifecycle
                == GroupLifecycle::Recovering || slot.lifecycle == GroupLifecycle::Draining && owes(
                s,
                group,
            );
            &&& r is Ok <==> addressed(s, group, incarnation) && moves && !slot.poisoned
            &&& addressed(s, group, incarnation) && !moves ==> r
                == Err::<(), AdmissionRejection>(
                AdmissionRejection::GroupNotAcceptingWork {
                    state: slot.lifecycle,
                    class: WorkClass::Control,
                },
            )
            &&& addressed(s, group, incarnation) && moves && slot.poisoned ==> r
                == Err::<(), AdmissionRejection>(AdmissionRejection::GroupPoisoned)
            &&& !addressed(s, group, incarnation) ==> r is Err && refuses_address(
                s,
                group,
                incarnation,
                WorkClass::Control,
                r->Err_0,
            )
        }),
{
    lemma_owes(cluster.state(), group);
}

proof fn lemma_owes(s: ClusterState, group: GroupId)
    ensures
        s.work_remains(group) <==> owes(s, group),
{
    if s.work_remains(group) {
        let id = choose|id: u64| #[trigger] s.pending.contains_key(id) && s.pending[id].group()
            == group;
        assert(s.pending.contains_key(id));
    }
    if owes(s, group) {
        let id = choose|id: u64| #[trigger]
            s.pending.contains_key(id) && match s.pending[id] {
                PendingProposal::OpenSession { group_id, .. } => group_id == group,
                PendingProposal::Counter { group_id, .. } => group_id == group,
                PendingProposal::Fault { group_id, .. } => group_id == group,
            };
        assert(s.pending.contains_key(id) && s.pending[id].group() == group);
    }
}

/// A session is let in on a healthy group that recovers or serves, for a client in range, unless the
/// client has a session of a later epoch there.
pub proof fn law_sessions_are_gated(
    cluster: ManagedCounterCluster,
    group: GroupId,
    incarnation: GroupIncarnation,
    client: ClientId,
    epoch: SessionEpoch,
    r: Result<(), AdmissionRejection>,
)
    requires
        call_ensures(
            ManagedCounterCluster::gate_session,
            (&cluster, group, incarnation, client, epoch),
            r,
        ),
    ensures
        ({
            let s = cluster.state();
            let slot = slot_at(s, group);
            let here = addressed(s, group, incarnation);
            let takes = slot.lifecycle == GroupLifecycle::Serving || slot.lifecycle
                == GroupLifecycle::Recovering;
            let ranged = client@ < s.config.max_sessions_per_group;
            let later = opened(s, group, client) && session_at(s, group, client).epoch@ > epoch@;
            &&& r is Ok <==> here && takes && !slot.poisoned && ranged && !later
            &&& here && !takes ==> r == Err::<(), AdmissionRejection>(
                AdmissionRejection::GroupNotAcceptingSessions { state: slot.lifecycle },
            )
            &&& here && takes && slot.poisoned ==> r == Err::<(), AdmissionRejection>(
                AdmissionRejection::GroupPoisoned,
            )
            &&& here && takes && !slot.poisoned && !ranged ==> r == Err::<(), AdmissionRejection>(
                AdmissionRejection::ClientOutOfRange,
            )
            &&& here && takes && !slot.poisoned && ranged && later ==> r
                == Err::<(), AdmissionRejection>(
                AdmissionRejection::StaleSession { current: session_at(s, group, client).epoch },
            )
            &&& !here ==> r is Err && refuses_address(
                s,
                group,
                incarnation,
                WorkClass::Control,
                r->Err_0,
            )
        }),
{
}

/// Where the session stands that a request is looked at in.
pub open spec fn in_session(
    s: ClusterState,
    group: GroupId,
    incarnation: GroupIncarnation,
    request: RequestIdentity,
) -> bool {
    &&& addressed(s, group, incarnation)
    &&& slot_at(s, group).lifecycle == GroupLifecycle::Serving
    &&& !slot_at(s, group).poisoned
    &&& request.client_id@ < s.config.max_sessions_per_group
    &&& opened(s, group, request.client_id)
}

/// A request on a group that takes no commands is refused for that; on one that does, it needs a
/// client in range and an open session.
pub proof fn law_requests_need_a_serving_group(
    cluster: ManagedCounterCluster,
    group: GroupId,
    incarnation: GroupIncarnation,
    request: RequestIdentity,
    command: CounterCommand,
    r: PolicyAnswer,
)
    requires
        call_ensures(
            ManagedCounterCluster::counter_gate,
            (&cluster, group, incarnation, request, command),
            r,
        ),
    ensures
        ({
            let s = cluster.state();
            let slot = slot_at(s, group);
            let here = addressed(s, group, incarnation);
            let serves = here && slot.lifecycle == GroupLifecycle::Serving;
            let ranged = request.client_id@ < s.config.max_sessions_per_group;
            &&& !here ==> r is Refused && refuses_address(
                s,
                group,
                incarnation,
                WorkClass::Command,
                r->Refused_0,
            )
            &&& here && !serves ==> r == PolicyAnswer::Refused(
                AdmissionRejection::GroupNotAcceptingWork {
                    state: slot.lifecycle,
                    class: WorkClass::Command,
                },
            )
            &&& serves && slot.poisoned ==> r == PolicyAnswer::Refused(
                AdmissionRejection::GroupPoisoned,
            )
            &&& serves && !slot.poisoned && !ranged ==> r == PolicyAnswer::Refused(
                AdmissionRejection::ClientOutOfRange,
            )
            &&& serves && !slot.poisoned && ranged && !opened(s, group, request.client_id) ==> r
                == PolicyAnswer::Refused(AdmissionRejection::SessionNotOpen)
        }),
{
}

/// In its session, a request is new exactly when it is the next one and nothing says otherwise: its
/// epoch is the session's, its fingerprint is its command's, and its sequence follows the completed
/// one. The last completed request is replayed with its very result, the outstanding one is named
/// with its very receipt, and each of them with another command is a conflict.
pub proof fn law_requests_are_answered_in_their_session(
    cluster: ManagedCounterCluster,
    group: GroupId,
    incarnation: GroupIncarnation,
    request: RequestIdentity,
    command: CounterCommand,
    r: PolicyAnswer,
)
    requires
        call_ensures(
            ManagedCounterCluster::counter_gate,
            (&cluster, group, incarnation, request, command),
            r,
        ),
        in_session(cluster.state(), group, incarnation, request),
    ensures
        ({
            let session = session_at(cluster.state(), group, request.client_id);
            let done = session.completed;
            let waits = session.outstanding;
            let own = request.session_epoch@ == session.epoch@ && request.fingerprint@
                == fingerprint_of(command);
            let before = own && done is Some && request.sequence@ < done->0.sequence@;
            let last = own && done is Some && request.sequence@ == done->0.sequence@;
            let queued = own && !before && !last && waits is Some && request.sequence@
                == waits->0.sequence@;
            let next = if done is Some {
                done->0.sequence@ + 1
            } else {
                1
            };
            &&& request.session_epoch@ < session.epoch@ ==> r == PolicyAnswer::Refused(
                AdmissionRejection::StaleSession { current: session.epoch },
            )
            &&& request.session_epoch@ > session.epoch@ ==> r == PolicyAnswer::Refused(
                AdmissionRejection::FutureSession { current: session.epoch },
            )
            &&& request.session_epoch@ == session.epoch@ && request.fingerprint@ != fingerprint_of(
                command,
            ) ==> (r matches PolicyAnswer::Refused(
                AdmissionRejection::FingerprintMismatch { expected },
            ) && expected@ == fingerprint_of(command))
            &&& before ==> r == PolicyAnswer::Refused(
                AdmissionRejection::StaleSequence { highest: done->0.sequence },
            )
            &&& last && command == done->0.command ==> r == PolicyAnswer::Replayed(done->0.result)
            &&& last && command != done->0.command ==> r == PolicyAnswer::Refused(
                AdmissionRejection::ConflictingRetry,
            )
            &&& queued && command == waits->0.command ==> r == PolicyAnswer::AlreadyQueued(
                waits->0.receipt,
            )
            &&& queued && command != waits->0.command ==> r == PolicyAnswer::Refused(
                AdmissionRejection::ConflictingRetry,
            )
            &&& own && !before && !last && !queued && next <= u64::MAX && request.sequence@ != next
                ==> (r matches PolicyAnswer::Refused(AdmissionRejection::SequenceGap { expected })
                && expected@ == next)
            &&& own && !before && !last && !queued && request.sequence@ == next ==> r
                == PolicyAnswer::New
        }),
{
}

// ----------------------------------------------------------------- submission

/// A submitted request takes the next identity, whatever becomes of it, and changes nothing else. A
/// new one is admitted under that identity; a known one is answered with what is known; a refused one
/// comes back with the refusal and the command.
pub proof fn law_submitted_requests_take_an_identity(
    cluster: &mut ManagedCounterCluster,
    group: GroupId,
    incarnation: GroupIncarnation,
    request: RequestIdentity,
    command: CounterCommand,
    answer: PolicyAnswer,
    r: CounterStep,
)
    requires
        call_ensures(
            ManagedCounterCluster::submit_for,
            (cluster, group, incarnation, request, command),
            r,
        ),
        call_ensures(
            ManagedCounterCluster::counter_gate,
            (&*old(cluster), group, incarnation, request, command),
            answer,
        ),
    ensures
        ({
            let before = old(cluster).state();
            let after = final(cluster).state();
            &&& before.next_proposal < u64::MAX ==> after.next_proposal == before.next_proposal + 1
            &&& before.next_proposal == u64::MAX ==> after.next_proposal == 0
            &&& after.sessions == before.sessions
            &&& after.slots == before.slots
            &&& after.pending == before.pending
            &&& after.work == before.work
            &&& match answer {
                PolicyAnswer::New => r == (CounterStep::Admit {
                    incarnation,
                    proposal_id: before.next_proposal,
                }),
                PolicyAnswer::Replayed(result) => r == CounterStep::Done(
                    CounterSubmitOutcome::Replayed(result),
                ),
                PolicyAnswer::AlreadyQueued(receipt) => r == CounterStep::Done(
                    CounterSubmitOutcome::AlreadyQueued(receipt),
                ),
                PolicyAnswer::Refused(reason) => r == CounterStep::Refused(
                    CounterAdmissionRejected {
                        reason: CounterAdmissionRejection::Policy(reason),
                        proposal_id: before.next_proposal,
                        command: ReplicatedCounterCommand::Counter { request, command },
                    },
                ),
            }
        }),
{
}

/// A request that the host queues is pending under its identity and outstanding in its session; one
/// that the host refuses leaves no trace.
pub proof fn law_queued_requests_are_outstanding(
    cluster: &mut ManagedCounterCluster,
    group: GroupId,
    incarnation: GroupIncarnation,
    request: RequestIdentity,
    command: CounterCommand,
    id: u64,
    admission: Result<AdmissionReceipt, ManagedAdmissionRejection>,
    r: Result<CounterSubmitOutcome, CounterAdmissionRejected>,
)
    requires
        call_ensures(
            ManagedCounterCluster::counter_admitted,
            (cluster, group, incarnation, request, command, id, admission),
            r,
        ),
    ensures
        ({
            let before = old(cluster).state();
            let after = final(cluster).state();
            &&& admission is Ok <==> r is Ok
            &&& admission is Err ==> after == before && r->Err_0 == (CounterAdmissionRejected {
                reason: CounterAdmissionRejection::Managed(admission->Err_0),
                proposal_id: id,
                command: ReplicatedCounterCommand::Counter { request, command },
            })
            &&& admission is Ok ==> {
                let receipt = ProposalReceipt { admission: admission->Ok_0, proposal_id: id };
                &&& r->Ok_0 == CounterSubmitOutcome::Queued(receipt)
                &&& after.pending == before.pending.insert(
                    id,
                    PendingProposal::Counter {
                        group_id: group,
                        incarnation,
                        request,
                        command,
                        receipt,
                    },
                )
                &&& after.work == before.work.insert(admission->Ok_0.work_id, id)
                &&& after.slots == before.slots
                &&& opened(after, group, request.client_id) == opened(
                    before,
                    group,
                    request.client_id,
                )
                &&& opened(before, group, request.client_id) ==> {
                    let was = session_at(before, group, request.client_id);
                    let is = session_at(after, group, request.client_id);
                    &&& is.epoch == was.epoch
                    &&& is.completed == was.completed
                    &&& is.outstanding is Some
                    &&& is.outstanding->0.sequence == request.sequence
                    &&& is.outstanding->0.command == command
                    &&& is.outstanding->0.receipt == receipt
                }
            }
        }),
{
}

/// A session that is queued already is named and takes no identity. Otherwise an identity is taken:
/// the session is admitted under it, unless it is open already or refused.
pub proof fn law_sessions_are_queued_once(
    cluster: &mut ManagedCounterCluster,
    group: GroupId,
    incarnation: GroupIncarnation,
    client: ClientId,
    epoch: SessionEpoch,
    gate: Result<(), AdmissionRejection>,
    r: SessionStep,
)
    requires
        call_ensures(
            ManagedCounterCluster::open_session_for,
            (cluster, group, incarnation, client, epoch),
            r,
        ),
        call_ensures(
            ManagedCounterCluster::gate_session,
            (&*old(cluster), group, incarnation, client, epoch),
            gate,
        ),
    ensures
        ({
            let before = old(cluster).state();
            let after = final(cluster).state();
            let open = opened(before, group, client) && session_at(before, group, client).epoch@
                == epoch@;
            &&& r matches SessionStep::Done(SessionSubmitOutcome::AlreadyQueued(receipt)) ==> after
                == before && exists|id: u64| #[trigger]
                before.pending.contains_key(id) && before.pending[id] == (
                PendingProposal::OpenSession {
                    group_id: group,
                    incarnation,
                    client_id: client,
                    epoch,
                    receipt,
                })
            &&& !(r matches SessionStep::Done(SessionSubmitOutcome::AlreadyQueued(_))) ==> {
                &&& after.slots == before.slots && after.sessions == before.sessions
                    && after.pending == before.pending
                &&& before.next_proposal < u64::MAX ==> after.next_proposal == before.next_proposal
                    + 1
                &&& gate is Err ==> r == SessionStep::Refused(
                    CounterAdmissionRejected {
                        reason: CounterAdmissionRejection::Policy(gate->Err_0),
                        proposal_id: before.next_proposal,
                        command: ReplicatedCounterCommand::OpenSession { client_id: client, epoch },
                    },
                )
                &&& gate is Ok && open ==> r == SessionStep::Done(SessionSubmitOutcome::AlreadyOpen)
                &&& gate is Ok && !open ==> r == (SessionStep::Admit {
                    incarnation,
                    proposal_id: before.next_proposal,
                })
            }
        }),
{
    let before = old(cluster).state();
    if before.queues_session(group, incarnation, client, epoch) {
        let id = choose|id: u64| #[trigger]
            before.is_queued_session(group, incarnation, client, epoch, id) && r
                == SessionStep::Done(
                SessionSubmitOutcome::AlreadyQueued(before.pending[id].accepted()),
            );
        assert(before.pending.contains_key(id));
    }
}

/// A session that the host queues is pending under its identity; it opens only once it is applied.
pub proof fn law_queued_sessions_are_pending(
    cluster: &mut ManagedCounterCluster,
    group: GroupId,
    incarnation: GroupIncarnation,
    client: ClientId,
    epoch: SessionEpoch,
    id: u64,
    admission: Result<AdmissionReceipt, ManagedAdmissionRejection>,
    r: Result<SessionSubmitOutcome, CounterAdmissionRejected>,
)
    requires
        call_ensures(
            ManagedCounterCluster::session_admitted,
            (cluster, group, incarnation, client, epoch, id, admission),
            r,
        ),
    ensures
        ({
            let before = old(cluster).state();
            let after = final(cluster).state();
            &&& admission is Err ==> after == before && r == Err::<
                SessionSubmitOutcome,
                CounterAdmissionRejected,
            >(
                CounterAdmissionRejected {
                    reason: CounterAdmissionRejection::Managed(admission->Err_0),
                    proposal_id: id,
                    command: ReplicatedCounterCommand::OpenSession { client_id: client, epoch },
                },
            )
            &&& admission is Ok ==> {
                let receipt = ProposalReceipt { admission: admission->Ok_0, proposal_id: id };
                &&& r == Ok::<SessionSubmitOutcome, CounterAdmissionRejected>(
                    SessionSubmitOutcome::Queued(receipt),
                )
                &&& after.sessions == before.sessions
                &&& after.slots == before.slots
                &&& after.work == before.work.insert(admission->Ok_0.work_id, id)
                &&& after.pending == before.pending.insert(
                    id,
                    PendingProposal::OpenSession {
                        group_id: group,
                        incarnation,
                        client_id: client,
                        epoch,
                        receipt,
                    },
                )
            }
        }),
{
}

/// Control traffic passes as protocol traffic does, and other system traffic as work of its class.
pub proof fn law_system_traffic_is_gated(
    cluster: ManagedCounterCluster,
    group: GroupId,
    incarnation: GroupIncarnation,
    class: SystemClass,
    r: Result<WorkClass, AdmissionRejection>,
    protocol: Result<(), AdmissionRejection>,
    snapshot: Result<(), AdmissionRejection>,
    bulk: Result<(), AdmissionRejection>,
)
    requires
        call_ensures(
            ManagedCounterCluster::submit_system,
            (&cluster, group, incarnation, class),
            r,
        ),
        call_ensures(
            ManagedCounterCluster::gate_protocol_continuation,
            (&cluster, group, incarnation),
            protocol,
        ),
        call_ensures(
            ManagedCounterCluster::gate_work,
            (&cluster, group, incarnation, WorkClass::Snapshot),
            snapshot,
        ),
        call_ensures(
            ManagedCounterCluster::gate_work,
            (&cluster, group, incarnation, WorkClass::Bulk),
            bulk,
        ),
    ensures
        class == SystemClass::Control ==> (r is Ok <==> protocol is Ok) && (r is Err ==> r->Err_0
            == protocol->Err_0) && (r is Ok ==> r->Ok_0 == WorkClass::Control),
        class == SystemClass::Snapshot ==> (r is Ok <==> snapshot is Ok) && (r is Err ==> r->Err_0
            == snapshot->Err_0) && (r is Ok ==> r->Ok_0 == WorkClass::Snapshot),
        class == SystemClass::Bulk ==> (r is Ok <==> bulk is Ok) && (r is Err ==> r->Err_0
            == bulk->Err_0) && (r is Ok ==> r->Ok_0 == WorkClass::Bulk),
{
}

/// A fault is admitted under the next identity wherever work of its class would be, and is pending
/// once the host queues it.
pub proof fn law_faults_are_admitted_as_work(
    cluster: &mut ManagedCounterCluster,
    group: GroupId,
    class: SystemClass,
    gate: Result<(), AdmissionRejection>,
    r: FaultStep,
)
    requires
        call_ensures(ManagedCounterCluster::submit_fault, (cluster, group, class), r),
        known(old(cluster).state(), group) ==> call_ensures(
            ManagedCounterCluster::gate_work,
            (
                &*old(cluster),
                group,
                slot_at(old(cluster).state(), group).incarnation,
                class.class(),
            ),
            gate,
        ),
    ensures
        ({
            let before = old(cluster).state();
            let after = final(cluster).state();
            &&& before.next_proposal < u64::MAX ==> after.next_proposal == before.next_proposal + 1
            &&& after.slots == before.slots && after.sessions == before.sessions && after.pending
                == before.pending
            &&& known(before, group) && gate is Ok ==> r == (FaultStep::Admit {
                incarnation: slot_at(before, group).incarnation,
                proposal_id: before.next_proposal,
            })
            &&& !known(before, group) || gate is Err ==> (r matches FaultStep::Refused(rejected)
                && rejected.proposal_id == before.next_proposal && rejected.command
                == ReplicatedCounterCommand::Faulty && rejected.reason
                == CounterAdmissionRejection::Policy(
                if known(before, group) {
                    gate->Err_0
                } else {
                    AdmissionRejection::GroupUnknown
                },
            ))
        }),
{
}

// ------------------------------------------------------------------- outcomes

/// Work that failed is on record as a failure of its proposal, is pending no more, and its request may
/// be sent again; every other proposal and session is as it was.
pub proof fn law_failed_work_is_on_record(
    cluster: &mut ManagedCounterCluster,
    work: u64,
    group: GroupId,
    kind: DriverErrorKind,
)
    requires
        call_ensures(ManagedCounterCluster::record_failed_work, (cluster, work, group, kind), ()),
    ensures
        ({
            let before = old(cluster).state();
            let after = final(cluster).state();
            let id = before.work[work];
            &&& !before.work.contains_key(work) ==> after == before
            &&& before.work.contains_key(work) ==> !after.work.contains_key(work) && after.pending
                == before.pending.remove(id)
            &&& before.work.contains_key(work) && before.pending.contains_key(id) ==> {
                &&& after.failures.contains_key(id)
                &&& after.failures[id].proposal_id == id
                &&& after.failures[id].group_id == group
                &&& after.failures[id].kind == kind
                &&& after.slots == before.slots
                &&& after.completed == before.completed
                &&& before.pending[id] matches PendingProposal::Counter { request, incarnation, .. }
                    ==> {
                    let client = request.client_id;
                    &&& after.failures[id].incarnation == incarnation
                    &&& known(before, group) && opened(before, group, client) && session_at(
                        before,
                        group,
                        client,
                    ).outstanding is Some && session_at(
                        before,
                        group,
                        client,
                    ).outstanding->0.receipt.proposal_id == id ==> session_at(
                        after,
                        group,
                        client,
                    ).outstanding is None && session_at(after, group, client).completed
                        == session_at(before, group, client).completed
                }
            }
        }),
{
}

/// A proposal that was applied is pending no more. Where its group still stands in its incarnation, an
/// applied session is open with nothing outstanding or completed, and an applied request is the
/// session's completed one, with its result, and outstanding no more. A late result changes no session.
pub proof fn law_applied_proposals_are_settled(
    cluster: &mut ManagedCounterCluster,
    id: u64,
    result: CounterApplyResult,
)
    requires
        call_ensures(ManagedCounterCluster::complete_pending, (cluster, id, result), ()),
    ensures
        ({
            let before = old(cluster).state();
            let after = final(cluster).state();
            &&& !before.pending.contains_key(id) ==> after == before
            &&& after.pending == before.pending.remove(id)
            &&& after.slots == before.slots
            &&& before.pending.contains_key(id) ==> match before.pending[id] {
                PendingProposal::OpenSession {
                    group_id,
                    incarnation,
                    client_id,
                    epoch,
                    ..
                } => {
                    let timely = known(before, group_id) && slot_at(before, group_id).incarnation@
                        == incarnation@;
                    &&& timely && result is Session ==> {
                        &&& opened(after, group_id, client_id)
                        &&& session_at(after, group_id, client_id).epoch == epoch
                        &&& session_at(after, group_id, client_id).outstanding is None
                        &&& session_at(after, group_id, client_id).completed is None
                    }
                    &&& !timely || !(result is Session) ==> after.sessions == before.sessions
                },
                PendingProposal::Counter { group_id, incarnation, request, command, .. } => {
                    let client = request.client_id;
                    let timely = known(before, group_id) && slot_at(before, group_id).incarnation@
                        == incarnation@ && opened(before, group_id, client);
                    let was = session_at(before, group_id, client);
                    let is = session_at(after, group_id, client);
                    &&& !timely ==> after.sessions == before.sessions
                    &&& timely ==> {
                        &&& is.epoch == was.epoch
                        &&& was.outstanding is Some && was.outstanding->0.receipt.proposal_id == id
                            ==> is.outstanding is None
                        &&& result matches CounterApplyResult::Counter(outcome) ==> is.completed
                            is Some && is.completed->0.sequence == request.sequence
                            && is.completed->0.command == command && is.completed->0.result
                            == outcome
                        &&& !(result is Counter) ==> is.completed == was.completed
                    }
                },
                PendingProposal::Fault { .. } => after.sessions == before.sessions,
            }
        }),
{
    let before = old(cluster).state();
    let after = final(cluster).state();
    if !before.pending.contains_key(id) {
        assert(before.pending.remove(id) =~= before.pending);
    }
}

/// A turn is counted item by item: a serviced item as serviced, a failed one as failed with its kind,
/// in the order in which they ran.
pub proof fn law_turns_are_counted(
    cluster: &mut ManagedCounterCluster,
    turn: ExecutedTurn,
    report: &mut DriveReport,
    r: Result<(), AdapterError>,
    i: int,
)
    requires
        call_ensures(ManagedCounterCluster::record_turn, (cluster, turn, report), r),
        r is Ok,
        0 <= i < turn.items@.len(),
    ensures
        ({
            let items = turn.items@;
            let listed = final(report).turns@.last();
            let driven = listed.items@[i];
            &&& final(report).turns@.len() == old(report).turns@.len() + 1
            &&& listed.group_id == turn.group_id
            &&& listed.pass_id == turn.pass_id
            &&& listed.dispatch_id == turn.dispatch_id
            &&& listed.items@.len() == items.len()
            &&& driven.work_id == items[i].work_id
            &&& driven.class == items[i].class
            &&& items[i].result is Ok <==> driven.disposition == DrivenDisposition::Serviced
            &&& items[i].result matches Err(kind) ==> driven.disposition == (
            DrivenDisposition::Failed { kind })
            &&& final(report).serviced == old(report).serviced + items.filter(
                |item: TurnItem| item.result is Ok,
            ).len()
            &&& final(report).failed - old(report).failed + final(report).serviced - old(report).serviced == items.len()
        }),
{
    let s = old(cluster).state();
    lemma_fitting_bound(s, turn.group_id, turn.items@, turn.items@.len());
    lemma_serviced_counts(turn.items@);
}

proof fn lemma_fitting_bound(s: ClusterState, group: GroupId, items: Seq<TurnItem>, n: nat)
    ensures
        s.fitting(group, items, n) <= n,
    decreases n,
{
    if n > 0 {
        lemma_fitting_bound(s, group, items, (n - 1) as nat);
    }
}

proof fn lemma_serviced_counts(items: Seq<TurnItem>)
    ensures
        crate::adapter::cluster::state::serviced_in(items, items.len()) == items.filter(
            |item: TurnItem| item.result is Ok,
        ).len(),
    decreases items.len(),
{
    reveal(Seq::filter);
    if items.len() > 0 {
        let rest = items.drop_last();
        lemma_serviced_counts(rest);
        lemma_serviced_prefix(items, rest, rest.len());
    }
}

proof fn lemma_serviced_prefix(a: Seq<TurnItem>, b: Seq<TurnItem>, n: nat)
    requires
        n <= a.len(),
        n <= b.len(),
        forall|i: int| 0 <= i < n ==> a[i] == b[i],
    ensures
        crate::adapter::cluster::state::serviced_in(a, n)
            == crate::adapter::cluster::state::serviced_in(b, n),
    decreases n,
{
    if n > 0 {
        lemma_serviced_prefix(a, b, (n - 1) as nat);
    }
}

// ------------------------------------------------------------ delays and peers

/// A group without a delay takes its turn at once. One with a delay is held back for that many rounds,
/// and every offer is counted.
pub proof fn law_slow_groups_are_held_back(
    cluster: &mut ManagedCounterCluster,
    dispatch: u64,
    group: GroupId,
    report: &mut DriveReport,
    r: bool,
)
    requires
        call_ensures(ManagedCounterCluster::begin_turn, (cluster, dispatch, group, report), r),
        old(report).opportunities < u64::MAX,
    ensures
        ({
            let before = old(cluster).state();
            let after = final(cluster).state();
            let slow = before.delays.contains_key(group@ as u64) && before.delays[group@ as u64] > 0;
            &&& r <==> !slow
            &&& final(report).opportunities == old(report).opportunities + 1
            &&& !slow ==> after == before
            &&& slow ==> after.delayed.len() == before.delayed.len() + 1
                && after.delayed.last().dispatch_id == dispatch
                && after.delayed.last().remaining_rounds == before.delays[group@ as u64]
                && after.delayed.drop_last() == before.delayed
        }),
{
}

/// A delay is set to the rounds that are asked for, and zero takes it away.
pub proof fn law_delays_are_set(cluster: &mut ManagedCounterCluster, group: GroupId, rounds: usize)
    requires
        call_ensures(ManagedCounterCluster::set_service_delay, (cluster, group, rounds), ()),
    ensures
        rounds == 0 ==> !final(cluster).state().delays.contains_key(group@ as u64),
        rounds > 0 ==> final(cluster).state().delays.contains_key(group@ as u64) && final(cluster).state().delays[group@ as u64] == rounds,
        final(cluster).state().delays.remove(group@ as u64) == old(cluster).state().delays.remove(
            group@ as u64,
        ),
        final(cluster).state().slots == old(cluster).state().slots,
{
    assert(final(cluster).state().delays.remove(group@ as u64) =~= old(cluster).state().delays.remove(group@ as u64));
}

/// A round takes one from each delay. What has none left is due, once each; the rest is held on, in
/// order.
pub proof fn law_delays_run_down(delayed: Seq<DelayedDispatch>)
    ensures
        held_dispatches(delayed) == delayed.filter(
            |d: DelayedDispatch| d.remaining_rounds > 1,
        ).map_values(
            |d: DelayedDispatch|
                DelayedDispatch {
                    remaining_rounds: (d.remaining_rounds - 1) as usize,
                    dispatch_id: d.dispatch_id,
                },
        ),
        due_dispatches(delayed).to_multiset() == delayed.filter(
            |d: DelayedDispatch| d.remaining_rounds <= 1,
        ).map_values(|d: DelayedDispatch| d.dispatch_id).to_multiset(),
    decreases delayed.len(),
{
    broadcast use vstd::seq_lib::group_to_multiset_ensures;

    reveal(Seq::filter);
    let stays = |d: DelayedDispatch| d.remaining_rounds > 1;
    let ends = |d: DelayedDispatch| d.remaining_rounds <= 1;
    let name = |d: DelayedDispatch| d.dispatch_id;
    let less = |d: DelayedDispatch|
        DelayedDispatch {
            remaining_rounds: (d.remaining_rounds - 1) as usize,
            dispatch_id: d.dispatch_id,
        };
    if delayed.len() > 0 {
        let rest = delayed.drop_last();
        let d = delayed.last();
        law_delays_run_down(rest);
        if d.remaining_rounds <= 1 {
            lemma_inserted_once(due_dispatches(rest), d.dispatch_id);
            assert(delayed.filter(ends) == rest.filter(ends).push(d));
            assert(delayed.filter(ends).map_values(name) =~= rest.filter(ends).map_values(name).push(
                d.dispatch_id,
            ));
        } else {
            assert(delayed.filter(stays) == rest.filter(stays).push(d));
            assert(delayed.filter(stays).map_values(less) =~= rest.filter(stays).map_values(
                less,
            ).push(less(d)));
        }
    } else {
        assert(delayed.filter(stays).map_values(less) =~= Seq::<DelayedDispatch>::empty());
        assert(delayed.filter(ends).map_values(name) =~= Seq::<u64>::empty());
    }
}

proof fn lemma_inserted_once(ids: Seq<u64>, id: u64)
    ensures
        crate::adapter::cluster::state::ordered_insert(ids, id).to_multiset()
            == ids.to_multiset().insert(id),
    decreases ids.len(),
{
    broadcast use vstd::seq_lib::group_to_multiset_ensures;

    if ids.len() > 0 && ids.last() > id {
        let rest = ids.drop_last();
        lemma_inserted_once(rest, id);
        assert(rest.push(ids.last()) =~= ids);
        assert(ids.to_multiset() =~= rest.to_multiset().insert(ids.last()));
        assert(ids.to_multiset().insert(id) =~= rest.to_multiset().insert(id).insert(ids.last()));
    }
}

/// Dispatches that a round ends or holds on are those of the law above, and nothing else changes.
pub proof fn law_rounds_release_dispatches(cluster: &mut ManagedCounterCluster, r: Vec<u64>)
    requires
        call_ensures(ManagedCounterCluster::progress_delayed, (cluster,), r),
    ensures
        r@ == due_dispatches(old(cluster).state().delayed),
        final(cluster).state().delayed == held_dispatches(old(cluster).state().delayed),
        final(cluster).state().slots == old(cluster).state().slots,
        final(cluster).state().network == old(cluster).state().network,
        final(cluster).state().pending == old(cluster).state().pending,
{
}

/// The first frame that waits is routed next: to the local node or to a remote one by its receiver.
/// A frame of a group that refuses its incarnation is dropped, and the refusal is on record.
pub proof fn law_frames_are_routed_in_order(
    cluster: &mut ManagedCounterCluster,
    report: &mut DriveReport,
    r: RouteStep,
)
    requires
        call_ensures(ManagedCounterCluster::route_next, (cluster, report), r),
    ensures
        ({
            let before = old(cluster).state();
            let after = final(cluster).state();
            let first = before.network[0];
            let group = first.envelope.group_id;
            let here = addressed(before, group, first.incarnation);
            &&& before.network.len() == 0 <==> r is Idle
            &&& before.network.len() == 0 ==> after == before
            &&& before.network.len() > 0 ==> after.network == before.network.skip(1) && after.slots
                == before.slots && after.pending == before.pending
            &&& before.network.len() > 0 && here && first.envelope.to == 1 ==> r
                == RouteStep::Local(first)
            &&& before.network.len() > 0 && here && first.envelope.to != 1 ==> r
                == RouteStep::Remote(first)
            &&& before.network.len() > 0 && !here <==> r is Refused
            &&& r is Refused ==> {
                let refusal = final(report).refused_peer_traffic@.last();
                &&& final(report).refused_peer_traffic@.len() == old(report).refused_peer_traffic@.len() + 1
                &&& refusal.group_id == group
                &&& refusal.incarnation == first.incarnation
                &&& refuses_address(
                    before,
                    group,
                    first.incarnation,
                    WorkClass::Control,
                    refusal.reason,
                )
            }
            &&& !(r is Refused) ==> final(report).refused_peer_traffic@ == old(report).refused_peer_traffic@
        }),
{
}

/// A frame enters behind those that wait, as long as there is room; otherwise it comes back.
pub proof fn law_frames_wait_in_order(
    cluster: &mut ManagedCounterCluster,
    envelope: RoutedPeerEnvelope,
    r: Result<(), RoutedPeerEnvelope>,
)
    requires
        call_ensures(ManagedCounterCluster::enqueue_peer, (cluster, envelope), r),
    ensures
        ({
            let before = old(cluster).state();
            let after = final(cluster).state();
            &&& r is Ok <==> before.network.len() < before.config.max_pending_messages
            &&& r is Ok ==> after.network.len() == before.network.len() + 1 && after.network.last()
                == envelope && after.network.drop_last() == before.network
            &&& r is Err ==> r->Err_0 == envelope && after == before
        }),
{
}

/// A frame that is taken is the first that waits.
pub proof fn law_first_frame_is_taken(
    cluster: &mut ManagedCounterCluster,
    r: Option<RoutedPeerEnvelope>,
)
    requires
        call_ensures(ManagedCounterCluster::take_pending_peer, (cluster,), r),
    ensures
        r is None <==> old(cluster).state().network.len() == 0,
        r is Some ==> r->0 == old(cluster).state().network[0] && final(cluster).state().network == old(cluster).state().network.skip(1),
{
}

/// A poisoned peer poisons its group and is counted; nothing else changes.
pub proof fn law_poisoned_peers_poison_their_group(
    cluster: &mut ManagedCounterCluster,
    group: GroupId,
    report: &mut DriveReport,
    other: GroupId,
)
    requires
        call_ensures(ManagedCounterCluster::remote_poisoned, (cluster, group, report), ()),
        old(report).remote_failures < u64::MAX,
    ensures
        ({
            let before = old(cluster).state();
            let after = final(cluster).state();
            &&& known(before, group) ==> known(after, group) && slot_at(after, group).poisoned
                && slot_at(after, group).lifecycle == slot_at(before, group).lifecycle && slot_at(
                after,
                group,
            ).incarnation == slot_at(before, group).incarnation && slot_at(after, group).value
                == slot_at(before, group).value
            &&& other@ != group@ ==> known(after, other) == known(before, other) && slot_at(
                after,
                other,
            ) == slot_at(before, other)
            &&& final(report).remote_failures == old(report).remote_failures + 1
            &&& after.sessions == before.sessions
        }),
{
}

// ------------------------------------------------------------------ lifecycle

/// What a request asks of a slot that is not retired: the next state where it follows the present one,
/// nothing where the slot is there already, and a refusal of the two states otherwise.
pub proof fn law_lifecycle_moves_forward(
    cluster: ManagedCounterCluster,
    group: GroupId,
    request: LifecycleRequest,
    r: LifecycleStep,
)
    requires
        call_ensures(ManagedCounterCluster::lifecycle_step, (&cluster, group, request), r),
    ensures
        ({
            let s = cluster.state();
            let slot = slot_at(s, group);
            let state = slot.lifecycle;
            &&& !known(s, group) ==> {
                &&& request is Create ==> (r matches LifecycleStep::Open { incarnation }
                    && incarnation@ == 1)
                &&& !(request is Create) ==> r == LifecycleStep::Answer(
                    LifecycleOutcome::Rejected(LifecycleRejection::GroupUnknown),
                )
            }
            &&& known(s, group) && state == GroupLifecycle::Tombstoned ==> {
                &&& request is Tombstone ==> r == LifecycleStep::Answer(
                    LifecycleOutcome::Idempotent { state, incarnation: slot.incarnation },
                )
                &&& !(request is Tombstone) ==> r == LifecycleStep::Answer(
                    LifecycleOutcome::Rejected(LifecycleRejection::GroupTombstoned),
                )
            }
            &&& known(s, group) && state == GroupLifecycle::Removed ==> {
                &&& request is Create && slot.incarnation@ < 0xffff_ffff ==> (r matches
                    LifecycleStep::Open { incarnation } && incarnation@ == slot.incarnation@ + 1)
                &&& request is Create && slot.incarnation@ == 0xffff_ffff ==> r
                    == LifecycleStep::Answer(
                    LifecycleOutcome::Rejected(LifecycleRejection::IncarnationExhausted),
                )
                &&& request is Tombstone ==> r == LifecycleStep::Answer(
                    LifecycleOutcome::Applied {
                        from: GroupLifecycle::Removed,
                        to: GroupLifecycle::Tombstoned,
                        incarnation: slot.incarnation,
                    },
                )
                &&& request is Recover || request is Serve || request is Drain ==> (r matches
                    LifecycleStep::Answer(
                    LifecycleOutcome::Rejected(LifecycleRejection::Conflict { current, .. }),
                ) && current == GroupLifecycle::Removed)
            }
            &&& known(s, group) && state == GroupLifecycle::Creating ==> {
                &&& request matches LifecycleRequest::Create { quota } ==> if quota == slot.quota {
                    r == LifecycleStep::Answer(
                        LifecycleOutcome::Idempotent { state, incarnation: slot.incarnation },
                    )
                } else {
                    r == LifecycleStep::Answer(
                        LifecycleOutcome::Rejected(
                            LifecycleRejection::QuotaConflict { current: slot.quota },
                        ),
                    )
                }
                &&& request is Recover <==> r == LifecycleStep::Schedule
                &&& request is Serve || request is Remove || request is Tombstone ==> (r matches
                    LifecycleStep::Answer(
                    LifecycleOutcome::Rejected(LifecycleRejection::Conflict { current, .. }),
                ) && current == state)
            }
            &&& known(s, group) && state == GroupLifecycle::Recovering ==> {
                &&& request is Serve ==> r == LifecycleStep::Answer(
                    LifecycleOutcome::Applied {
                        from: state,
                        to: GroupLifecycle::Serving,
                        incarnation: slot.incarnation,
                    },
                )
                &&& request is Create || request is Remove || request is Tombstone ==> (r matches
                    LifecycleStep::Answer(
                    LifecycleOutcome::Rejected(LifecycleRejection::Conflict { current, .. }),
                ) && current == state)
            }
            &&& known(s, group) && (state == GroupLifecycle::Creating || state
                == GroupLifecycle::Recovering || state == GroupLifecycle::Serving) && request
                is Drain ==> r == LifecycleStep::Answer(
                LifecycleOutcome::Applied {
                    from: state,
                    to: GroupLifecycle::Draining,
                    incarnation: slot.incarnation,
                },
            )
            &&& known(s, group) && state == GroupLifecycle::Draining ==> {
                &&& request is Remove <==> r == LifecycleStep::Release
                &&& request is Create || request is Recover || request is Serve || request
                    is Tombstone ==> (r matches LifecycleStep::Answer(
                    LifecycleOutcome::Rejected(LifecycleRejection::Conflict { current, .. }),
                ) && current == state)
            }
            &&& known(s, group) && state == GroupLifecycle::Serving && (request is Create || request
                is Recover || request is Remove || request is Tombstone) ==> (r matches
                LifecycleStep::Answer(
                LifecycleOutcome::Rejected(LifecycleRejection::Conflict { current, .. }),
            ) && current == state)
            &&& known(s, group) && ((state == GroupLifecycle::Recovering && request is Recover) || (
            state == GroupLifecycle::Serving && request is Serve) || (state
                == GroupLifecycle::Draining && request is Drain) || (state == GroupLifecycle::Removed
                && request is Remove)) ==> r == LifecycleStep::Answer(
                LifecycleOutcome::Idempotent { state, incarnation: slot.incarnation },
            )
        }),
{
}

/// What the host did decides what a lifecycle request changes. An opened slot starts over in its
/// incarnation, without sessions; a released one is removed, without sessions or a delay; what the
/// host refused changes nothing.
pub proof fn law_host_decides_the_lifecycle(
    cluster: &mut ManagedCounterCluster,
    group: GroupId,
    request: LifecycleRequest,
    physical: PhysicalOutcome,
    step: LifecycleStep,
    r: Result<LifecycleTransition, AdapterError>,
)
    requires
        call_ensures(ManagedCounterCluster::lifecycle, (cluster, group, request, physical), r),
        call_ensures(ManagedCounterCluster::lifecycle_step, (&*old(cluster), group, request), step),
        crate::adapter::cluster::answers(step, physical),
    ensures
        ({
            let before = old(cluster).state();
            let after = final(cluster).state();
            let slot = slot_at(after, group);
            &&& step matches LifecycleStep::Open { incarnation } ==> {
                &&& physical == PhysicalOutcome::Opened ==> {
                    &&& known(after, group)
                    &&& slot.incarnation == incarnation
                    &&& slot.lifecycle == GroupLifecycle::Creating
                    &&& slot.quota == request->Create_quota
                    &&& slot.applied_index == 0
                    &&& slot.value == 0
                    &&& !slot.poisoned
                    &&& r is Ok && r->Ok_0.outcome == (LifecycleOutcome::Created { incarnation })
                }
                &&& physical matches PhysicalOutcome::NotOpened(kind) ==> after == before && r == Err::<
                    LifecycleTransition,
                    AdapterError,
                >(AdapterError::OpenGroup { group_id: group, kind })
            }
            &&& step == LifecycleStep::Schedule ==> {
                &&& physical == PhysicalOutcome::Recovery(RecoveryOutcome::Scheduled) ==> slot.lifecycle
                    == GroupLifecycle::Recovering && r is Ok
                &&& physical != PhysicalOutcome::Recovery(RecoveryOutcome::Scheduled) ==> after == before
                    && r is Err
            }
            &&& step == LifecycleStep::Release ==> {
                &&& physical == PhysicalOutcome::Release(ReleaseOutcome::Released) ==> {
                    &&& slot.lifecycle == GroupLifecycle::Removed
                    &&& !after.delays.contains_key(group@ as u64)
                    &&& forall|client: ClientId| !#[trigger] opened(after, group, client)
                    &&& r is Ok
                }
                &&& physical == PhysicalOutcome::Release(ReleaseOutcome::InFlight) ==> after == before
                    && r is Ok && r->Ok_0.outcome == LifecycleOutcome::Rejected(
                    LifecycleRejection::QueueNotDrained { pending: 1 },
                )
                &&& physical matches PhysicalOutcome::Release(ReleaseOutcome::Queued { items }) ==> after
                    == before && r is Ok && (items <= 0xffff_ffff ==> r->Ok_0.outcome
                    == LifecycleOutcome::Rejected(
                    LifecycleRejection::QueueNotDrained { pending: items as u32 },
                ))
            }
            &&& step matches LifecycleStep::Answer(outcome) ==> {
                &&& r is Ok && r->Ok_0.outcome == outcome
                &&& outcome matches LifecycleOutcome::Applied { to, .. } ==> slot.lifecycle == to
                &&& !(outcome is Applied) ==> after == before
            }
        }),
{
}

/// A group that registers opens in its first incarnation with the quota that was asked for, once.
pub proof fn law_groups_register_once(
    cluster: &mut ManagedCounterCluster,
    group: GroupId,
    quota: usize,
    host: Result<(), DriverErrorKind>,
    r: Result<(), AdapterError>,
)
    requires
        call_ensures(ManagedCounterCluster::register_group, (cluster, group, quota, host), r),
    ensures
        ({
            let before = old(cluster).state();
            let after = final(cluster).state();
            let sized = 0 < quota <= 0xffff_ffff;
            &&& r is Ok <==> !known(before, group) && sized && host is Ok
            &&& r is Err ==> after == before
            &&& known(before, group) ==> r == Err::<(), AdapterError>(
                AdapterError::GroupAlreadyRegistered(group),
            )
            &&& !known(before, group) && !sized ==> r == Err::<(), AdapterError>(
                AdapterError::QuotaOutOfRange(quota),
            )
            &&& !known(before, group) && sized && host is Err ==> r == Err::<(), AdapterError>(
                AdapterError::OpenGroup { group_id: group, kind: host->Err_0 },
            )
            &&& r is Ok ==> {
                let slot = slot_at(after, group);
                &&& known(after, group)
                &&& slot.incarnation@ == 1
                &&& slot.quota@ == quota
                &&& slot.lifecycle == GroupLifecycle::Creating
                &&& slot.value == 0
                &&& slot.applied_index == 0
                &&& !slot.poisoned
            }
        }),
{
}

/// A created group recovers once its recovery is scheduled, and a recovering group serves; from any
/// other state both are refused with the state that was expected and the one that was found.
pub proof fn law_groups_recover_and_serve_in_order(
    cluster: &mut ManagedCounterCluster,
    served: &mut ManagedCounterCluster,
    group: GroupId,
    outcome: RecoveryOutcome,
    r: Result<(), AdapterError>,
    serves: Result<(), AdapterError>,
)
    requires
        call_ensures(ManagedCounterCluster::recover_group, (cluster, group, outcome), r),
        call_ensures(ManagedCounterCluster::serve_group, (served, group), serves),
    ensures
        ({
            let before = old(cluster).state();
            let after = final(cluster).state();
            let created = known(before, group) && slot_at(before, group).lifecycle
                == GroupLifecycle::Creating;
            &&& r is Ok <==> created && outcome == RecoveryOutcome::Scheduled
            &&& r is Ok ==> slot_at(after, group).lifecycle == GroupLifecycle::Recovering
            &&& r is Err ==> after == before
            &&& !created ==> (r matches Err(AdapterError::Lifecycle { expected, actual, .. })
                && expected == GroupLifecycle::Creating && actual == if known(before, group) {
                Some(slot_at(before, group).lifecycle)
            } else {
                None
            })
            &&& created && (outcome matches RecoveryOutcome::Refused(_)) ==> r
                == Err::<(), AdapterError>(
                AdapterError::RecoveryAdmission { group_id: group, reason: outcome->Refused_0 },
            )
        }),
        ({
            let before = old(served).state();
            let after = final(served).state();
            let recovering = known(before, group) && slot_at(before, group).lifecycle
                == GroupLifecycle::Recovering;
            &&& serves is Ok <==> recovering
            &&& serves is Ok ==> slot_at(after, group).lifecycle == GroupLifecycle::Serving
            &&& serves is Err ==> after == before
        }),
{
}

/// Reads of the cluster: what was completed, what failed, and what a group is.
pub proof fn law_cluster_is_read(
    cluster: ManagedCounterCluster,
    group: GroupId,
    identity: Option<(GroupIncarnation, GroupLifecycle)>,
    poisoned: bool,
    id: u64,
    completed: Option<CounterApplyResult>,
    remains: bool,
)
    requires
        call_ensures(ManagedCounterCluster::group_identity, (&cluster, group), identity),
        call_ensures(ManagedCounterCluster::is_poisoned, (&cluster, group), poisoned),
        call_ensures(ManagedCounterCluster::completed, (&cluster, id), completed),
        call_ensures(ManagedCounterCluster::accepted_work_remains, (&cluster, group), remains),
    ensures
        ({
            let s = cluster.state();
            &&& identity is Some <==> known(s, group)
            &&& identity matches Some((incarnation, lifecycle)) ==> incarnation == slot_at(
                s,
                group,
            ).incarnation && lifecycle == slot_at(s, group).lifecycle
            &&& poisoned <==> known(s, group) && slot_at(s, group).poisoned
            &&& completed is Some <==> s.completed.contains_key(id)
            &&& completed is Some ==> completed->0 == s.completed[id]
            &&& remains <==> owes(s, group)
        }),
{
    lemma_owes(cluster.state(), group);
}

} // verus!
