//! The replicated counter and the decisions around a managed group host.

use std::collections::VecDeque;

use rafter::{
    ApplicationSnapshotKind, ApplicationSnapshotMetadata, ApplicationSnapshotVersion, LogIndex,
    Message, NodeId, RaftSnapshot, RaftSnapshotMetadata, SnapshotGroupId, Term, TimeoutNow,
};
use rafter_reference_sharded_counter::adapter::audit::ManagedMetrics;
use rafter_reference_sharded_counter::adapter::cluster::drive::{
    Drive, DriveEnd, DriveEvent, DrivePhase,
};
use rafter_reference_sharded_counter::adapter::cluster::{
    AdmissionReceipt, AppliedItem, CounterStep, DriverErrorKind, ExecutedTurn, FaultStep,
    GroupReport, ManagedAdmissionRejection, PeerEnvelope, PhysicalOutcome, RecoveryOutcome,
    ReleaseOutcome, RouteStep, SessionStep, TurnItem,
};
use rafter_reference_sharded_counter::adapter::codec::{
    decode_command, decode_snapshot, encode_command, encode_snapshot, supports_session_bound,
};
use rafter_reference_sharded_counter::adapter::state_machine::{
    ApplicationSnapshot, ApplyEntry, CounterAdmissionDecision,
};
use rafter_reference_sharded_counter::adapter::{
    audit_acceptance, AcceptanceExpectation, AcceptanceViolation, AdapterError, CheckpointError,
    CounterAdmissionRejection, CounterApplyRejection, CounterApplyResult, CounterCompletedView,
    CounterSessionView, CounterStateMachine, CounterStateMachineError, CounterSubmitOutcome,
    DriveReport, DriveTurn, DrivenDisposition, DrivenItem, ExpectedWork, ManagedCounterCluster,
    NetworkConfig, ReplicatedCounterCommand, RoutedPeerEnvelope, SessionApplyResult,
    SessionSubmitOutcome, MAX_COMMAND_BYTES, MAX_SNAPSHOT_BYTES,
};
use rafter_reference_sharded_counter::table::Table;
use rafter_reference_sharded_counter::{
    AdmissionRejection, ClientId, CounterCommand, CounterResult, Delta, GroupId, GroupIncarnation,
    GroupLifecycle, LifecycleOutcome, LifecycleRejection, LifecycleRequest, RequestFingerprint,
    RequestIdentity, Sequence, SessionEpoch, SystemClass, WorkClass, WorkQuota,
};

fn group(id: u32) -> GroupId {
    GroupId::new(id)
}

fn epoch(value: u64) -> SessionEpoch {
    SessionEpoch::new(value).expect("epoch is nonzero")
}

fn sequence(value: u64) -> Sequence {
    Sequence::new(value).expect("sequence is nonzero")
}

fn adding(delta: i64) -> CounterCommand {
    CounterCommand::Add {
        delta: Delta::new(delta).expect("delta is nonzero"),
    }
}

fn request(client: u32, number: u64, command: &CounterCommand) -> RequestIdentity {
    RequestIdentity {
        client_id: ClientId::new(client),
        session_epoch: epoch(1),
        sequence: sequence(number),
        fingerprint: RequestFingerprint::of(command),
    }
}

fn counter(client: u32, number: u64, command: CounterCommand) -> ReplicatedCounterCommand {
    ReplicatedCounterCommand::Counter {
        request: request(client, number, &command),
        command,
    }
}

fn open(client: u32, value: u64) -> ReplicatedCounterCommand {
    ReplicatedCounterCommand::OpenSession {
        client_id: ClientId::new(client),
        epoch: epoch(value),
    }
}

fn apply(
    machine: &mut CounterStateMachine,
    index: u64,
    command: ReplicatedCounterCommand,
) -> CounterApplyResult {
    let results = machine
        .apply_batch(vec![ApplyEntry {
            index,
            term: 1,
            command,
            local_proposal_id: None,
        }])
        .expect("the entry applies");
    assert_eq!(results.len(), 1);
    assert_eq!(results[0].index, index);
    results[0].result
}

// ------------------------------------------------------------------- codecs

fn lifecycle(
    cluster: &mut ManagedCounterCluster,
    request: LifecycleRequest,
    physical: PhysicalOutcome,
) -> Result<LifecycleOutcome, AdapterError> {
    cluster
        .lifecycle(group(1), request, physical)
        .map(|transition| {
            assert!(transition.failed.is_empty());
            transition.outcome
        })
}

#[test]
fn commands_survive_their_encoding() {
    for command in [
        open(7, 3),
        counter(7, 11, adding(-5)),
        counter(u32::MAX, u64::MAX, CounterCommand::Read),
        ReplicatedCounterCommand::Faulty,
        ReplicatedCounterCommand::CapacityFault,
    ] {
        let bytes = encode_command(&command).expect("the command encodes");
        assert!(bytes.len() <= MAX_COMMAND_BYTES);
        assert_eq!(decode_command(&bytes), Ok(command));
        let mut longer = bytes.clone();
        longer.push(0);
        assert!(decode_command(&longer).is_err());
        assert!(decode_command(&bytes[..bytes.len() - 1]).is_err());
    }
}

#[test]
fn malformed_commands_are_told_apart() {
    assert_eq!(
        decode_command(&[0; 40]),
        Err(CounterStateMachineError::CommandTooLarge)
    );
    assert_eq!(
        decode_command(&[9, 3]),
        Err(CounterStateMachineError::UnsupportedVersion)
    );
    assert_eq!(
        decode_command(&[]),
        Err(CounterStateMachineError::MalformedCommand)
    );
    let mut bytes = encode_command(&open(1, 1)).expect("the command encodes");
    for byte in &mut bytes[6..14] {
        *byte = 0;
    }
    assert_eq!(
        decode_command(&bytes),
        Err(CounterStateMachineError::MalformedCommand)
    );
    assert_eq!(
        CounterStateMachineError::MalformedCommand.message(),
        "replicated command is malformed"
    );
}

#[test]
fn snapshots_survive_their_encoding() {
    let sessions = vec![
        CounterSessionView {
            client_id: ClientId::new(0),
            epoch: epoch(1),
            completed: None,
        },
        CounterSessionView {
            client_id: ClientId::new(3),
            epoch: epoch(9),
            completed: Some(CounterCompletedView {
                sequence: sequence(4),
                command: adding(-2),
                result: CounterResult::Added { value: -7 },
            }),
        },
    ];
    let bytes = encode_snapshot(12, -7, &sessions).expect("the snapshot encodes");
    assert!(bytes.len() <= MAX_SNAPSHOT_BYTES);
    assert_eq!(decode_snapshot(&bytes, 8), Ok((12, -7, sessions)));
    assert_eq!(
        decode_snapshot(&bytes, 1),
        Err(CounterStateMachineError::SessionCapacity)
    );
    assert!(decode_snapshot(&bytes[..bytes.len() - 1], 8).is_err());
}

// ------------------------------------------------------------ state machine

#[test]
fn only_new_commands_change_the_counter() {
    let mut machine = CounterStateMachine::new(4);
    assert_eq!(
        apply(&mut machine, 1, counter(0, 1, adding(5))),
        CounterApplyResult::Rejected(CounterApplyRejection::SessionNotOpen)
    );
    assert_eq!(
        apply(&mut machine, 2, open(0, 1)),
        CounterApplyResult::Session(SessionApplyResult::Opened)
    );
    assert_eq!(
        apply(&mut machine, 3, open(0, 1)),
        CounterApplyResult::Session(SessionApplyResult::AlreadyOpen)
    );
    assert_eq!(
        machine.admission_decision(counter(0, 1, adding(5))),
        CounterAdmissionDecision::Proceed
    );
    let added = CounterApplyResult::Counter(CounterResult::Added { value: 5 });
    assert_eq!(apply(&mut machine, 4, counter(0, 1, adding(5))), added);
    assert_eq!(apply(&mut machine, 5, counter(0, 1, adding(5))), added);
    assert_eq!(machine.view().value, 5);
    assert_eq!(
        machine.admission_decision(counter(0, 1, adding(5))),
        CounterAdmissionDecision::CounterReplay(CounterResult::Added { value: 5 })
    );
    assert_eq!(
        apply(&mut machine, 6, counter(0, 1, adding(6))),
        CounterApplyResult::Rejected(CounterApplyRejection::ConflictingRetry)
    );
    assert_eq!(
        apply(&mut machine, 7, counter(0, 3, adding(6))),
        CounterApplyResult::Rejected(CounterApplyRejection::SequenceGap {
            expected: sequence(2)
        })
    );
    assert_eq!(
        apply(&mut machine, 8, counter(0, 2, CounterCommand::Read)),
        CounterApplyResult::Counter(CounterResult::Value { value: 5 })
    );
    assert_eq!(
        apply(&mut machine, 9, counter(0, 1, adding(5))),
        CounterApplyResult::Rejected(CounterApplyRejection::StaleSequence {
            highest: sequence(2)
        })
    );
    assert_eq!(
        apply(&mut machine, 10, open(0, 2)),
        CounterApplyResult::Session(SessionApplyResult::Replaced)
    );
    assert_eq!(
        apply(&mut machine, 11, counter(0, 3, adding(5))),
        CounterApplyResult::Rejected(CounterApplyRejection::StaleSession { current: epoch(2) })
    );
    assert_eq!(
        apply(&mut machine, 12, counter(9, 1, adding(5))),
        CounterApplyResult::Rejected(CounterApplyRejection::ClientOutOfRange)
    );
    assert_eq!(machine.applied_index(), 12);
    assert_eq!(machine.read(12), Ok(5));
    assert_eq!(
        machine.read(13),
        Err(CounterStateMachineError::ReadBarrierNotReached)
    );
}

#[test]
fn a_fault_poisons_the_batch() {
    let mut machine = CounterStateMachine::new(4);
    let outcome = machine.apply_batch(vec![ApplyEntry {
        index: 1,
        term: 1,
        command: ReplicatedCounterCommand::Faulty,
        local_proposal_id: Some(3),
    }]);
    assert!(matches!(
        outcome,
        Err(CounterStateMachineError::InjectedFault)
    ));
}

#[test]
fn a_snapshot_restores_the_replica() {
    let mut machine = CounterStateMachine::new(4);
    let _ = apply(&mut machine, 1, open(0, 1));
    let _ = apply(&mut machine, 2, counter(0, 1, adding(5)));
    let snapshot = machine.build_snapshot(2).expect("the snapshot builds");
    assert_eq!(snapshot.applied_index, 2);
    assert!(matches!(
        machine.build_snapshot(1),
        Err(CounterStateMachineError::SnapshotIndexMismatch)
    ));
    let mut other = CounterStateMachine::new(4);
    let copy = ApplicationSnapshot {
        applied_index: 2,
        payload: snapshot.payload.clone(),
        transfer_id: None,
    };
    other.install_snapshot(copy).expect("the snapshot installs");
    assert_eq!(other.view(), machine.view());
    assert_eq!(
        other.admission_decision(counter(0, 1, adding(5))),
        CounterAdmissionDecision::CounterReplay(CounterResult::Added { value: 5 })
    );
    let restored = CounterStateMachine::from_snapshot(4, snapshot).expect("the snapshot restores");
    assert_eq!(restored.view().value, 5);
    let missing = ApplicationSnapshot {
        applied_index: 2,
        payload: Vec::new(),
        transfer_id: Some(4),
    };
    assert!(matches!(
        other.install_snapshot(missing),
        Err(CounterStateMachineError::PromotedSnapshotMissing)
    ));
}

/// Descriptor of a snapshot with this payload, taken at this index.
fn descriptor(index: u64, payload: &[u8]) -> RaftSnapshot {
    let metadata = RaftSnapshotMetadata::new(
        SnapshotGroupId::new("counter-0").expect("the group has a name"),
        NodeId(1),
        LogIndex(index),
        Term(1),
        Term(1),
        ApplicationSnapshotMetadata::new(
            ApplicationSnapshotKind::new("counter").expect("the kind has a name"),
            ApplicationSnapshotVersion::new(1).expect("the version is nonzero"),
        ),
    )
    .expect("the boundary is valid");
    RaftSnapshot::from_payload(metadata, payload)
}

#[test]
fn a_promoted_payload_stands_in_for_its_snapshot() {
    let mut machine = CounterStateMachine::new(4);
    let _ = apply(&mut machine, 1, open(0, 1));
    let _ = apply(&mut machine, 2, counter(0, 1, adding(5)));
    let payload = machine
        .build_snapshot(2)
        .expect("the snapshot builds")
        .payload;
    let snapshot = descriptor(2, &payload);
    let promised = || ApplicationSnapshot {
        applied_index: 2,
        payload: Vec::new(),
        transfer_id: Some(snapshot.transfer_id().0),
    };
    let mut other = CounterStateMachine::new(4);
    assert_eq!(
        other.register_promoted_snapshot(&snapshot, vec![1, 2]),
        Err(CounterStateMachineError::SnapshotPayloadLengthMismatch)
    );
    assert_eq!(
        other.install_snapshot(promised()),
        Err(CounterStateMachineError::PromotedSnapshotMissing)
    );
    other
        .register_promoted_snapshot(&snapshot, vec![0; payload.len()])
        .expect("the length is as declared");
    assert!(other.install_snapshot(promised()).is_err());
    other
        .register_promoted_snapshot(&snapshot, payload)
        .expect("the length is as declared");
    let mut copy = other.duplicate();
    other
        .install_snapshot(promised())
        .expect("the later payload stands");
    assert_eq!(other.view(), machine.view());
    copy.install_snapshot(promised())
        .expect("a copy holds the payload too");
    assert_eq!(copy.view().value, 5);
}

// ------------------------------------------------------------------ cluster

fn receipt(work_id: u64) -> AdmissionReceipt {
    AdmissionReceipt {
        work_id,
        group_queue_depth: 1,
        global_queue_depth: 1,
    }
}

fn quota(value: u32) -> WorkQuota {
    WorkQuota::new(value).expect("quota is nonzero")
}

fn cluster_with(bound: usize) -> ManagedCounterCluster {
    ManagedCounterCluster::new(NetworkConfig {
        max_pending_messages: bound,
        max_sessions_per_group: 4,
    })
}

fn serve(cluster: &mut ManagedCounterCluster, id: u32) {
    assert_eq!(cluster.registration_quota(group(id), 4), Ok(quota(4)));
    assert_eq!(cluster.register_group(group(id), 4, Ok(())), Ok(()));
    assert_eq!(
        cluster.recover_group(group(id), RecoveryOutcome::Scheduled),
        Ok(())
    );
    assert_eq!(cluster.serve_group(group(id)), Ok(()));
}

fn complete(cluster: &mut ManagedCounterCluster, id: u32, proposal: u64, result: CounterApplyResult) {
    let report = GroupReport {
        group_id: group(id),
        proposal_events: Vec::new(),
        applied: vec![AppliedItem {
            index: proposal,
            result,
            local_proposal_id: Some(proposal),
        }],
        peer_messages: VecDeque::new(),
    };
    assert_eq!(cluster.collect_report(report), Ok(()));
}

fn open_client(cluster: &mut ManagedCounterCluster, id: u32, client: u32, work: u64) {
    let SessionStep::Admit {
        incarnation,
        proposal_id,
    } = cluster.open_session(group(id), ClientId::new(client), epoch(1))
    else {
        panic!("a new session is admitted");
    };
    let outcome = cluster.session_admitted(
        group(id),
        incarnation,
        ClientId::new(client),
        epoch(1),
        proposal_id,
        Ok(receipt(work)),
    );
    assert!(matches!(outcome, Ok(SessionSubmitOutcome::Queued(_))));
    complete(
        cluster,
        id,
        proposal_id,
        CounterApplyResult::Session(SessionApplyResult::Opened),
    );
}

#[test]
fn an_exact_retry_of_a_queued_session_takes_no_identity() {
    let mut cluster = cluster_with(8);
    serve(&mut cluster, 1);
    let client = ClientId::new(0);
    assert!(cluster.can_open_session(group(1), client, epoch(1)));
    let SessionStep::Admit {
        incarnation,
        proposal_id,
    } = cluster.open_session(group(1), client, epoch(1))
    else {
        panic!("a new session is admitted");
    };
    let queued = cluster.session_admitted(
        group(1),
        incarnation,
        client,
        epoch(1),
        proposal_id,
        Ok(receipt(1)),
    );
    let Ok(SessionSubmitOutcome::Queued(held)) = queued else {
        panic!("the session is queued");
    };
    for _ in 0..2 {
        assert!(cluster.can_open_session(group(1), client, epoch(1)));
        assert_eq!(
            cluster.open_session(group(1), client, epoch(1)),
            SessionStep::Done(SessionSubmitOutcome::AlreadyQueued(held))
        );
    }
    let SessionStep::Admit {
        proposal_id: next, ..
    } = cluster.open_session(group(1), client, epoch(2))
    else {
        panic!("another session is admitted");
    };
    assert_eq!(next, proposal_id + 1);
}

fn submit(cluster: &mut ManagedCounterCluster, id: u32, number: u64, delta: i64, work: u64) -> u64 {
    let command = adding(delta);
    let identity = request(0, number, &command);
    let CounterStep::Admit {
        incarnation,
        proposal_id,
    } = cluster.submit(group(id), identity, command)
    else {
        panic!("a new request is admitted");
    };
    let outcome = cluster.counter_admitted(
        group(id),
        incarnation,
        identity,
        command,
        proposal_id,
        Ok(receipt(work)),
    );
    assert!(matches!(outcome, Ok(CounterSubmitOutcome::Queued(_))));
    proposal_id
}

#[test]
fn an_accepted_request_is_named_and_then_replayed() {
    let mut cluster = cluster_with(8);
    serve(&mut cluster, 1);
    open_client(&mut cluster, 1, 0, 1);
    let command = adding(5);
    let identity = request(0, 1, &command);
    let proposal = submit(&mut cluster, 1, 1, 5, 2);
    assert!(cluster.accepted_work_remains(group(1)));
    assert!(matches!(
        cluster.submit(group(1), identity, command),
        CounterStep::Done(CounterSubmitOutcome::AlreadyQueued(receipt)) if receipt.proposal_id == proposal
    ));
    assert_eq!(cluster.completed(proposal), None);
    let added = CounterApplyResult::Counter(CounterResult::Added { value: 5 });
    complete(&mut cluster, 1, proposal, added);
    assert_eq!(cluster.completed(proposal), Some(added));
    assert!(!cluster.accepted_work_remains(group(1)));
    assert!(matches!(
        cluster.submit(group(1), identity, command),
        CounterStep::Done(CounterSubmitOutcome::Replayed(CounterResult::Added { value: 5 }))
    ));
    assert_eq!(cluster.completed_proposals().len(), 2);
}

#[test]
fn failed_work_is_on_record_and_frees_its_session() {
    let mut cluster = cluster_with(8);
    serve(&mut cluster, 1);
    open_client(&mut cluster, 1, 0, 1);
    let proposal = submit(&mut cluster, 1, 1, 5, 2);
    cluster.record_failed_work(2, group(1), DriverErrorKind::DriverTransient);
    let failure = cluster.proposal_failure(proposal).expect("the failure is on record");
    assert_eq!(failure.group_id, group(1));
    assert_eq!(failure.kind, DriverErrorKind::DriverTransient);
    let second = submit(&mut cluster, 1, 1, 5, 3);
    assert_ne!(second, proposal);
}

#[test]
fn refusals_of_the_managed_host_are_handed_back() {
    let mut cluster = cluster_with(8);
    serve(&mut cluster, 1);
    open_client(&mut cluster, 1, 0, 1);
    let command = adding(5);
    let identity = request(0, 1, &command);
    let CounterStep::Admit {
        incarnation,
        proposal_id,
    } = cluster.submit(group(1), identity, command)
    else {
        panic!("a new request is admitted");
    };
    let reason = ManagedAdmissionRejection::GlobalQueueFull { bound: 3 };
    let refused = cluster
        .counter_admitted(
            group(1),
            incarnation,
            identity,
            command,
            proposal_id,
            Err(reason),
        )
        .expect_err("the host refused");
    assert_eq!(refused.reason, CounterAdmissionRejection::Managed(reason));
    assert_eq!(refused.proposal_id, proposal_id);
    assert!(!cluster.accepted_work_remains(group(1)));
    assert!(matches!(
        cluster.submit(group(2), identity, command),
        CounterStep::Refused(refused)
            if refused.reason == CounterAdmissionRejection::Policy(AdmissionRejection::GroupUnknown)
    ));
    assert!(matches!(
        cluster.submit_system(group(1), GroupIncarnation::first(), SystemClass::Bulk),
        Ok(WorkClass::Bulk)
    ));
    assert!(matches!(
        cluster.submit_fault(group(1), SystemClass::Control),
        FaultStep::Admit { .. }
    ));
}

#[test]
fn a_slot_is_created_drained_removed_and_created_again() {
    let mut cluster = cluster_with(8);
    serve(&mut cluster, 1);
    assert_eq!(
        cluster.group_identity(group(1)),
        Some((GroupIncarnation::first(), GroupLifecycle::Serving))
    );
    assert!(matches!(
        lifecycle(&mut cluster, LifecycleRequest::Drain, PhysicalOutcome::Unasked),
        Ok(LifecycleOutcome::Applied { .. })
    ));
    assert_eq!(
        lifecycle(
            &mut cluster,
            LifecycleRequest::Remove,
            PhysicalOutcome::Release(ReleaseOutcome::Queued { items: 2 })
        ),
        Ok(LifecycleOutcome::Rejected(
            LifecycleRejection::QueueNotDrained { pending: 2 }
        ))
    );
    assert!(matches!(
        lifecycle(
            &mut cluster,
            LifecycleRequest::Remove,
            PhysicalOutcome::Release(ReleaseOutcome::Released)
        ),
        Ok(LifecycleOutcome::Applied { .. })
    ));
    assert!(matches!(
        lifecycle(
            &mut cluster,
            LifecycleRequest::Create { quota: quota(4) },
            PhysicalOutcome::Opened
        ),
        Ok(LifecycleOutcome::Created { incarnation }) if incarnation.get() == 2
    ));
    assert_eq!(
        cluster.gate_work(group(1), GroupIncarnation::first(), WorkClass::Control),
        Err(AdmissionRejection::StaleIncarnation {
            current: GroupIncarnation::new(2).expect("nonzero")
        })
    );
    assert_eq!(
        cluster.register_group(group(1), 4, Ok(())),
        Err(AdapterError::GroupAlreadyRegistered(group(1)))
    );
    assert_eq!(
        cluster.registration_quota(group(2), 0),
        Err(AdapterError::QuotaOutOfRange(0))
    );
    assert!(matches!(
        cluster.serve_group(group(1)),
        Err(AdapterError::Lifecycle { .. })
    ));
}

#[test]
fn envelopes_are_bounded_and_routed_by_their_target() {
    let mut cluster = cluster_with(2);
    serve(&mut cluster, 1);
    let envelope = |to: u64| PeerEnvelope {
        group_id: group(1),
        from: 2,
        to,
        message: Message::TimeoutNow(TimeoutNow {
            term: Term(7),
            leader_id: NodeId(2),
        }),
    };
    let report = GroupReport {
        group_id: group(1),
        proposal_events: Vec::new(),
        applied: Vec::new(),
        peer_messages: VecDeque::from(vec![envelope(1), envelope(3), envelope(2)]),
    };
    let refused = cluster.collect_report(report).expect_err("the network is full");
    assert!(matches!(
        refused,
        AdapterError::NetworkFull { bound: 2, pending } if pending.len() == 1
    ));
    assert_eq!(cluster.pending_peers(), 2);
    let mut drive = DriveReport::new();
    assert!(matches!(
        cluster.route_next(&mut drive),
        RouteStep::Local(routed) if routed.envelope.to == 1
    ));
    assert!(matches!(
        cluster.route_next(&mut drive),
        RouteStep::Remote(routed) if routed.envelope.to == 3
    ));
    assert!(matches!(cluster.route_next(&mut drive), RouteStep::Idle));
    let late = RoutedPeerEnvelope {
        incarnation: GroupIncarnation::new(5).expect("nonzero"),
        envelope: envelope(1),
    };
    cluster.enqueue_peer(late).expect("there is room");
    assert!(matches!(cluster.route_next(&mut drive), RouteStep::Refused));
    assert_eq!(drive.refused_peer_traffic.len(), 1);
    cluster.remote_poisoned(group(1), &mut drive);
    assert_eq!(drive.remote_failures, 1);
    assert!(cluster.is_poisoned(group(1)));
}

#[test]
fn slow_groups_hold_their_dispatches_and_release_them_in_order() {
    let mut cluster = cluster_with(2);
    serve(&mut cluster, 1);
    serve(&mut cluster, 2);
    cluster.set_service_delay(group(1), 2);
    let mut report = DriveReport::new();
    assert!(!cluster.begin_turn(9, group(1), &mut report));
    assert!(!cluster.begin_turn(4, group(1), &mut report));
    assert!(cluster.begin_turn(5, group(2), &mut report));
    assert_eq!(report.opportunities, 3);
    assert!(cluster.has_delayed());
    assert!(cluster.progress_delayed().is_empty());
    assert_eq!(cluster.progress_delayed(), vec![4, 9]);
    assert!(!cluster.has_delayed());
    assert!(cluster.is_idle(false, false, 0));
    assert!(!cluster.is_idle(true, false, 0));
    assert!(!cluster.is_idle(false, false, 1));
}

#[test]
fn an_executed_turn_is_taken_in_item_by_item() {
    let mut cluster = cluster_with(2);
    serve(&mut cluster, 1);
    let fault = match cluster.submit_fault(group(1), SystemClass::Control) {
        FaultStep::Admit {
            incarnation,
            proposal_id,
        } => cluster
            .fault_admitted(group(1), incarnation, proposal_id, Ok(receipt(8)))
            .expect("the host accepted"),
        FaultStep::Refused(_) => panic!("the group serves"),
    };
    let mut report = DriveReport::new();
    let turn = ExecutedTurn {
        pass_id: 3,
        dispatch_id: 4,
        group_id: group(1),
        items: VecDeque::from(vec![
            TurnItem {
                work_id: 7,
                class: WorkClass::Control,
                result: Ok(GroupReport {
                    group_id: group(1),
                    proposal_events: Vec::new(),
                    applied: Vec::new(),
                    peer_messages: VecDeque::new(),
                }),
            },
            TurnItem {
                work_id: 8,
                class: WorkClass::Control,
                result: Err(DriverErrorKind::DriverPoisoned),
            },
        ]),
    };
    assert_eq!(cluster.record_turn(turn, &mut report), Ok(()));
    assert_eq!(report.serviced, 1);
    assert_eq!(report.failed, 1);
    assert_eq!(report.turns.len(), 1);
    assert_eq!(
        report.turns[0].items[1].disposition,
        DrivenDisposition::Failed {
            kind: DriverErrorKind::DriverPoisoned
        }
    );
    assert!(cluster.is_poisoned(group(1)));
    assert_eq!(cluster.completed(fault.proposal_id), None);
    assert!(cluster.proposal_failure(fault.proposal_id).is_some());
    let mut total = DriveReport::new();
    total.merge(report);
    assert_eq!(total.serviced, 1);
    assert_eq!(total.turns.len(), 1);
}

#[test]
fn a_checkpoint_restores_its_group() {
    let mut cluster = cluster_with(2);
    serve(&mut cluster, 1);
    open_client(&mut cluster, 1, 0, 1);
    let proposal = submit(&mut cluster, 1, 1, 5, 2);
    complete(
        &mut cluster,
        1,
        proposal,
        CounterApplyResult::Counter(CounterResult::Added { value: 5 }),
    );
    let checkpoint = cluster.checkpoint_group(group(1)).expect("the group exists");
    assert_eq!(checkpoint.lifecycle, GroupLifecycle::Serving);
    assert_eq!(checkpoint.sessions.len(), 1);
    let restored = checkpoint.restore(4).expect("the checkpoint restores");
    assert_eq!(restored.state_machine.view().value, 5);
    assert!(matches!(
        cluster.checkpoint_group(group(9)),
        Err(CheckpointError::UnknownGroup)
    ));
    let again = cluster.checkpoint_group(group(1)).expect("the group exists");
    assert!(matches!(
        cluster.restore_inactive_checkpoint(again, 4),
        Err(CheckpointError::GroupAlreadyPresent)
    ));
    let mut other = cluster_with(2);
    let active = cluster.checkpoint_group(group(1)).expect("the group exists");
    assert!(matches!(
        other.restore_inactive_checkpoint(active, 4),
        Err(CheckpointError::ActiveLifecycle(GroupLifecycle::Serving))
    ));
    let _ = cluster.lifecycle(group(1), LifecycleRequest::Drain, PhysicalOutcome::Unasked);
    let _ = cluster.lifecycle(
        group(1),
        LifecycleRequest::Remove,
        PhysicalOutcome::Release(ReleaseOutcome::Released),
    );
    let removed = cluster.checkpoint_group(group(1)).expect("the group exists");
    assert!(removed.sessions.is_empty());
    other
        .restore_inactive_checkpoint(removed, 4)
        .expect("a removed group restores");
    assert_eq!(
        other.group_identity(group(1)),
        Some((GroupIncarnation::first(), GroupLifecycle::Removed))
    );
}

// -------------------------------------------------------------------- drive

#[test]
fn a_run_goes_through_its_phases_and_ends_idle() {
    let mut drive = Drive::new(2);
    assert_eq!(drive.phase, DrivePhase::Restore);
    drive = drive.advance(DriveEvent::Progressed { held: true, due: 1 });
    assert_eq!(drive.phase, DrivePhase::Execute { left: 1 });
    drive = drive.advance(DriveEvent::Executed);
    assert_eq!(drive.phase, DrivePhase::Measure);
    drive = drive.advance(DriveEvent::Measured { envelopes: 2 });
    drive = drive.advance(DriveEvent::Routed);
    assert_eq!(drive.phase, DrivePhase::Route { left: 1 });
    drive = drive.advance(DriveEvent::Returned);
    assert_eq!(drive.phase, DrivePhase::Arm);
    drive = drive.advance(DriveEvent::Armed);
    drive = drive.advance(DriveEvent::Turned);
    drive = drive.advance(DriveEvent::PassEnded);
    assert_eq!(drive.phase, DrivePhase::Restore);
    assert_eq!(drive.left, 1);
    drive = drive.advance(DriveEvent::Progressed { held: false, due: 0 });
    drive = drive.advance(DriveEvent::Measured { envelopes: 0 });
    drive = drive.advance(DriveEvent::Nothing);
    let idle = drive.advance(DriveEvent::Settled { quiet: true });
    assert_eq!(idle.phase, DrivePhase::Ended { end: DriveEnd::Idle });
    let exhausted = drive.advance(DriveEvent::Settled { quiet: false });
    assert_eq!(
        exhausted.phase,
        DrivePhase::Ended {
            end: DriveEnd::Exhausted { rounds: 2 }
        }
    );
    assert_eq!(
        Drive::new(0).phase,
        DrivePhase::Ended {
            end: DriveEnd::Exhausted { rounds: 0 }
        }
    );
}

#[test]
fn a_single_round_ends_whatever_it_leaves() {
    let mut round = Drive::new(1);
    round = round.advance(DriveEvent::Progressed { held: true, due: 0 });
    round = round.advance(DriveEvent::Measured { envelopes: 0 });
    let failed = round.advance(DriveEvent::Failed);
    round = round.advance(DriveEvent::Armed);
    round = round.advance(DriveEvent::PassEnded);
    let DrivePhase::Ended { end } = round.phase else {
        panic!("one round was left");
    };
    assert_eq!(end, DriveEnd::Exhausted { rounds: 1 });
    assert!(end.completes_round());
    assert!(DriveEnd::Idle.completes_round());
    assert_eq!(
        failed.phase,
        DrivePhase::Ended {
            end: DriveEnd::Failed
        }
    );
    assert!(!DriveEnd::Failed.completes_round());
}

// -------------------------------------------------------------------- audit

fn turn(id: u32, items: Vec<(u64, WorkClass)>) -> DriveTurn {
    DriveTurn {
        pass_id: 1,
        dispatch_id: u64::from(id),
        group_id: group(id),
        items: items
            .into_iter()
            .map(|(work_id, class)| DrivenItem {
                work_id,
                class,
                disposition: DrivenDisposition::Serviced,
            })
            .collect(),
    }
}

fn expectation() -> AcceptanceExpectation {
    let mut quotas = Table::new();
    quotas.insert(1, 2);
    quotas.insert(2, 2);
    AcceptanceExpectation {
        ready: vec![group(1), group(2)],
        accepted: vec![
            ExpectedWork {
                work_id: 1,
                group_id: group(1),
                class: WorkClass::Command,
            },
            ExpectedWork {
                work_id: 2,
                group_id: group(2),
                class: WorkClass::Command,
            },
        ],
        quotas,
    }
}

fn metrics() -> ManagedMetrics {
    ManagedMetrics {
        queued: 0,
        in_flight_work: 0,
        occupied_workers: 0,
        admitted: 2,
        serviced: 2,
        failed: 0,
    }
}

fn report(turns: Vec<DriveTurn>) -> DriveReport {
    let mut report = DriveReport::new();
    report.plans.push(vec![group(1), group(2)]);
    report.turns = turns;
    report
}

#[test]
fn a_fair_run_is_accepted_with_its_numbers() {
    let report = report(vec![
        turn(1, vec![(1, WorkClass::Command)]),
        turn(2, vec![(2, WorkClass::Command)]),
    ]);
    let audit = audit_acceptance(&expectation(), &report, &metrics()).expect("the run is fair");
    assert_eq!(audit.passes, 1);
    assert_eq!(audit.opportunities, 2);
    assert_eq!(audit.ready_width, 2);
    assert_eq!(audit.widest_gap, 0);
    assert_eq!(audit.serviced, 2);
}

#[test]
fn unfair_runs_are_refused_with_their_fault() {
    let fair = || {
        vec![
            turn(1, vec![(1, WorkClass::Command)]),
            turn(2, vec![(2, WorkClass::Command)]),
        ]
    };
    let refuse = |report: DriveReport, metrics: ManagedMetrics| {
        audit_acceptance(&expectation(), &report, &metrics).expect_err("the run is unfair")
    };
    assert!(matches!(
        refuse(DriveReport::new(), metrics()),
        AcceptanceViolation::EmptyRun
    ));
    let mut other_plan = report(fair());
    other_plan.plans[0] = vec![group(1)];
    assert!(matches!(
        refuse(other_plan, metrics()),
        AcceptanceViolation::PlanMismatch { .. }
    ));
    let mut twice = fair();
    twice.push(turn(1, Vec::new()));
    assert!(matches!(
        refuse(report(twice), metrics()),
        AcceptanceViolation::DuplicateOpportunity { group_id } if group_id == group(1)
    ));
    assert!(matches!(
        refuse(report(vec![turn(1, vec![(1, WorkClass::Command)])]), metrics()),
        AcceptanceViolation::OpportunityGap { .. } | AcceptanceViolation::MissingDisposition { .. }
    ));
    assert!(matches!(
        refuse(
            report(vec![
                turn(
                    1,
                    vec![
                        (1, WorkClass::Command),
                        (3, WorkClass::Command),
                        (4, WorkClass::Command)
                    ]
                ),
                turn(2, vec![(2, WorkClass::Command)])
            ]),
            metrics()
        ),
        AcceptanceViolation::QuotaExceeded { quota: 2, actual: 3, .. }
    ));
    assert!(matches!(
        refuse(
            report(vec![
                turn(1, vec![(9, WorkClass::Command)]),
                turn(2, vec![(2, WorkClass::Command)])
            ]),
            metrics()
        ),
        AcceptanceViolation::UnknownWork { work_id: 9 }
            | AcceptanceViolation::MissingDisposition { .. }
    ));
    let mut lost = metrics();
    lost.serviced = 1;
    assert!(matches!(
        refuse(report(fair()), lost),
        AcceptanceViolation::Conservation { .. }
    ));
    let mut busy = metrics();
    busy.occupied_workers = 1;
    assert!(matches!(
        refuse(report(fair()), busy),
        AcceptanceViolation::WorkerStillOccupied { workers: 1 }
    ));
}

#[test]
fn a_session_bound_has_to_fit_a_snapshot() {
    assert!(!supports_session_bound(0));
    assert!(supports_session_bound(1));
    assert!(supports_session_bound(1724));
    assert!(!supports_session_bound(1725));
}

// -------------------------------------------------------------------- table

#[test]
fn a_table_is_walked_in_ascending_key_order() {
    let mut table = Table::new();
    for key in [7, 3, 9, 1, 5] {
        table.insert(key, key * 10);
    }
    table.insert(5, 90);
    assert_eq!(table.len(), 5);
    let rows: Vec<(u64, u64)> = (0..table.len()).map(|i| table.row(i)).collect();
    assert_eq!(rows, vec![(1, 10), (3, 30), (5, 90), (7, 70), (9, 90)]);
    assert_eq!(table.row_ref(3).key, 7);
    assert_eq!(*table.row_ref(3).value, 70);
    let copy = table.duplicate();
    assert_eq!(table.remove(7), Some(70));
    assert_eq!(table.remove(7), None);
    assert_eq!(table.get(7), None);
    assert_eq!(copy.get(7), Some(70));
    assert_eq!(copy.peek(8), None);
    table.remove_value(90);
    assert_eq!(table.len(), 2);
    table.insert(4, 40);
    table.remove_range(2, 3);
    let keys: Vec<u64> = (0..table.len()).map(|i| table.row(i).0).collect();
    assert_eq!(keys, vec![1, 4]);
}
