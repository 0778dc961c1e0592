//! Durable records, the client protocol, peer frames and the settings of the node.

use rafter::{
    ApplicationSnapshotKind, ApplicationSnapshotMetadata, ApplicationSnapshotVersion,
    InstallSnapshot, LogIndex, Message, NodeId, RaftSnapshotMetadata, SnapshotGroupId, Term,
    TimeoutNow,
};
use rafter_reference_sharded_counter::adapter::state_machine::{ApplyEntry, CounterStateMachineError};
use rafter_reference_sharded_counter::adapter::ReplicatedCounterCommand;
use rafter_reference_sharded_counter::node::app_store::{
    ApplicationRecord, DurableCounterStateMachine, ReserveOutcome,
};
use rafter_reference_sharded_counter::node::config::{
    directed_failpoint_armed, directed_io_failure, host_dir, Config, ConfigError, ProfileConfig,
    ProfileError, Setting,
};
use rafter_reference_sharded_counter::node::engine::desk::state::{
    AcceptedOperation, DurableOperationState,
};
use rafter_reference_sharded_counter::node::host_registry::{
    checksum_of, ActivationIntent, BootstrapIntent, HostRecord, HostRegistry, RegistryError,
    RetirementIntent, SlotRecord,
};
use rafter_reference_sharded_counter::node::peer_link::{
    admit_outbound, encode_frame, encode_frame_with, encode_preamble, read_frame, read_frame_checked,
    read_frame_length, read_preamble, receive_connection, transport_state, Diagnostics, FrameError,
    LinkCounters, LinkError, LinkStep, PeerFrame, PeerGroupCodecError, PeerGroupId, ReadEvent,
    TransportState,
};
use rafter_reference_sharded_counter::node::protocol::{
    admits_client, parse, serve_handed, serve_line, ConnectionStep, Handed, LineAnswer, LineRead,
    PressureClass, ProtocolError, Request,
};
use rafter_reference_sharded_counter::node::record::{
    decode, decode_checked, encode, Corruption, OutstandingPhase, StoreError, StoredRecord,
    TerminalFailure,
};
use rafter_reference_sharded_counter::node::render::{
    lifecycle_name, render_apply_rejection, render_apply_result, render_audit, render_counter_result,
    host_record_name, render_registry_error, render_session_status, render_store_error,
    render_terminal_failure, AuditReport, Refusal,
};
use rafter_reference_sharded_counter::profile::plan::ProfileName;
use rafter_reference_sharded_counter::adapter::{
    CounterApplyRejection, CounterApplyResult, SessionApplyResult,
};
use rafter_reference_sharded_counter::{
    ClientId, CounterCommand, CounterRejection, CounterResult, Delta, GroupId, GroupIncarnation,
    GroupLifecycle, RequestFingerprint, RequestIdentity, Sequence, SessionEpoch, WorkQuota,
};

fn group(id: u32) -> GroupId {
    GroupId::new(id)
}

fn incarnation(value: u32) -> GroupIncarnation {
    GroupIncarnation::new(value).expect("incarnation is nonzero")
}

fn quota(value: u32) -> WorkQuota {
    WorkQuota::new(value).expect("quota is nonzero")
}

fn adding(delta: i64) -> CounterCommand {
    CounterCommand::Add {
        delta: Delta::new(delta).expect("delta is nonzero"),
    }
}

fn identity(client: u32, command: &CounterCommand) -> RequestIdentity {
    RequestIdentity {
        client_id: ClientId::new(client),
        session_epoch: SessionEpoch::new(3).expect("epoch is nonzero"),
        sequence: Sequence::new(11).expect("sequence is nonzero"),
        fingerprint: RequestFingerprint::of(command),
    }
}

// ------------------------------------------------------------------ records

fn bootstrapped() -> ApplicationRecord {
    let staged = ApplicationRecord::bootstrap(8, quota(4));
    let (record, machine) = ApplicationRecord::from_record(staged, 8).expect("record bootstraps");
    assert_eq!(machine.view().value, 0);
    record
}

fn reopened(record: &ApplicationRecord) -> ApplicationRecord {
    let bytes = encode(record.record()).expect("record encodes");
    let stored = decode(&bytes).expect("record decodes");
    let (record, _) = ApplicationRecord::from_record(stored, 8).expect("retired record reopens");
    record
}

fn publish(record: &mut ApplicationRecord, staged: StoredRecord) {
    record.adopt(staged);
}

#[test]
fn terminal_poison_failure_survives_retirement_and_clears_on_reopen() {
    let mut record = bootstrapped();
    let command = adding(5);
    let request = identity(7, &command);

    let (outcome, staged) = record.reserve(request, command).expect("request reserves");
    assert_eq!(outcome, ReserveOutcome::Reserved);
    publish(&mut record, staged.expect("a reservation is published"));
    let staged = record.begin_draining(true);
    publish(&mut record, staged);
    assert!(matches!(
        record.retire(GroupLifecycle::Removed),
        Err(StoreError::OutstandingRemain { count: 1 })
    ));

    let staged = record
        .fail_poisoned_outstanding()
        .expect("terminal refusal publishes");
    publish(&mut record, staged);
    let staged = record
        .retire(GroupLifecycle::Removed)
        .expect("resolved record retires");
    publish(&mut record, staged);

    let mut record = reopened(&record);
    assert!(!record.policy().poisoned);
    assert_eq!(
        record
            .replay_terminal_failure(request, command)
            .expect("terminal lookup succeeds"),
        Some(TerminalFailure::GroupPoisoned)
    );
    let staged = record.reopen(quota(4), 8).expect("new incarnation opens");
    publish(&mut record, staged);
    assert_eq!(
        record
            .replay_terminal_failure(request, command)
            .expect("terminal lookup succeeds"),
        None
    );
    assert_eq!(record.policy().incarnation, incarnation(2));
}

#[test]
fn reservations_are_exact_and_bounded() {
    let staged = ApplicationRecord::bootstrap(1, quota(4));
    let (mut record, _) = ApplicationRecord::from_record(staged, 1).expect("record bootstraps");
    let command = adding(5);
    let request = identity(0, &command);
    let (_, staged) = record.reserve(request, command).expect("request reserves");
    publish(&mut record, staged.expect("a reservation is published"));
    let (outcome, staged) = record.reserve(request, command).expect("a retry is exact");
    assert_eq!(outcome, ReserveOutcome::ExactRetry);
    assert!(staged.is_none());
    let other = adding(6);
    assert!(matches!(
        record.reserve(identity(0, &other), other),
        Err(StoreError::ConflictingOutstanding { .. })
    ));
    assert!(matches!(
        record.reserve(identity(1, &command), command),
        Err(StoreError::OutstandingCapacity { bound: 1 })
    ));
    let staged = record
        .mark_entered_driver(request, command)
        .expect("the request is held")
        .expect("the phase moves");
    publish(&mut record, staged);
    let stored = record
        .policy()
        .outstanding
        .get(0)
        .expect("the request is held");
    assert_eq!(stored.phase, OutstandingPhase::EnteredDriver);
    let staged = record
        .cancel_reservation(request, command)
        .expect("the request is held");
    publish(&mut record, staged);
    assert!(record.policy().outstanding.get(0).is_none());
    assert!(record.cancel_reservation(request, command).is_none());
}

#[test]
fn a_session_request_takes_no_room_in_the_record() {
    let mut record = bootstrapped();
    let command = adding(5);
    let request = identity(0, &command);
    let session = AcceptedOperation::OpenSession {
        client_id: ClientId::new(0),
        epoch: request.session_epoch,
    };
    let counter = AcceptedOperation::Counter { request, command };
    for _ in 0..2 {
        let (outcome, staged) = record.reserve_operation(session).expect("it takes no room");
        assert_eq!(outcome, ReserveOutcome::Reserved);
        assert!(staged.is_none());
    }
    let (outcome, staged) = record.reserve_operation(counter).expect("there is room");
    assert_eq!(outcome, ReserveOutcome::Reserved);
    publish(&mut record, staged.expect("a reservation is published"));
    let (outcome, staged) = record.reserve_operation(session).expect("it takes no room");
    assert_eq!(outcome, ReserveOutcome::Reserved);
    assert!(staged.is_none());
    assert!(record
        .mark_operation_entered(session)
        .expect("there is nothing to mark")
        .is_none());
    assert!(record
        .fail_operation(session, TerminalFailure::ProcessRestarted)
        .expect("there is nothing to fail")
        .is_none());
    assert!(record.cancel_operation(session).is_none());
    let staged = record
        .mark_operation_entered(counter)
        .expect("the request is held")
        .expect("the phase moves");
    publish(&mut record, staged);
    let work = record.outstanding_work(GroupId::new(4), true);
    assert_eq!(work.len(), 1);
    assert_eq!(work[0].operation, counter);
    assert_eq!(work[0].group_id, GroupId::new(4));
    assert_eq!(work[0].phase, OutstandingPhase::EnteredDriver);
    assert!(work[0].driver && !work[0].poisoned);
    let staged = record
        .fail_operation(counter, TerminalFailure::ProcessRestarted)
        .expect("the request is held")
        .expect("the refusal is published");
    publish(&mut record, staged);
    assert!(record.outstanding_work(GroupId::new(4), true).is_empty());
    assert!(record.cancel_operation(counter).is_none());
    assert_eq!(
        record.durable_operation_state(counter),
        DurableOperationState::ExactTerminal {
            failure: TerminalFailure::ProcessRestarted
        }
    );
}

#[test]
fn a_result_the_replica_holds_releases_its_reservation() {
    let mut record = bootstrapped();
    let command = adding(5);
    let request = identity(0, &command);
    let (_, staged) = record.reserve(request, command).expect("there is room");
    publish(&mut record, staged.expect("a reservation is published"));
    let other = adding(6);
    assert!(record
        .reconcile_authoritative_completion(AcceptedOperation::Counter {
            request: identity(0, &other),
            command: other,
        })
        .is_none());
    assert!(record
        .reconcile_authoritative_completion(AcceptedOperation::OpenSession {
            client_id: ClientId::new(0),
            epoch: request.session_epoch,
        })
        .is_none());
    let operation = AcceptedOperation::Counter { request, command };
    let staged = record
        .reconcile_authoritative_completion(operation)
        .expect("the request is held");
    publish(&mut record, staged);
    assert!(record.policy().outstanding.get(0).is_none());
    assert!(record
        .reconcile_authoritative_completion(operation)
        .is_none());
}

#[test]
fn an_applied_batch_is_staged_with_its_record() {
    let mut record = bootstrapped();
    let (_, machine) = ApplicationRecord::from_record(ApplicationRecord::bootstrap(8, quota(4)), 8)
        .expect("record bootstraps");
    let durable = DurableCounterStateMachine::new(machine);
    let command = adding(5);
    let request = RequestIdentity {
        client_id: ClientId::new(0),
        session_epoch: SessionEpoch::new(1).expect("nonzero"),
        sequence: Sequence::first(),
        fingerprint: RequestFingerprint::of(&command),
    };
    let (_, staged) = record.reserve(request, command).expect("request reserves");
    publish(&mut record, staged.expect("a reservation is published"));
    let entries = vec![
        ApplyEntry {
            index: 1,
            term: 1,
            command: ReplicatedCounterCommand::OpenSession {
                client_id: ClientId::new(0),
                epoch: SessionEpoch::new(1).expect("nonzero"),
            },
            local_proposal_id: None,
        },
        ApplyEntry {
            index: 2,
            term: 1,
            command: ReplicatedCounterCommand::Counter { request, command },
            local_proposal_id: Some(9),
        },
    ];
    let staged = durable.apply_batch(&record, entries).expect("the batch applies");
    assert_eq!(staged.results.len(), 2);
    assert_eq!(staged.results[1].local_proposal_id, Some(9));
    assert_eq!(staged.machine.view().value, 5);
    publish(&mut record, staged.record);
    assert!(record.policy().outstanding.get(0).is_none());
    let again = reopened(&record);
    assert_eq!(again.record().application.applied_index, 2);
    let failing = vec![ApplyEntry {
        index: 1,
        term: 1,
        command: ReplicatedCounterCommand::Faulty,
        local_proposal_id: None,
    }];
    assert!(matches!(
        durable.apply_batch(&record, failing),
        Err(StoreError::Counter(CounterStateMachineError::InjectedFault))
    ));
    assert_eq!(durable.view().value, 0);
}

#[test]
fn damaged_records_are_refused() {
    let record = bootstrapped();
    let bytes = encode(record.record()).expect("record encodes");
    let mut flipped = bytes.clone();
    flipped[9] ^= 1;
    assert!(matches!(decode(&flipped), Err(StoreError::Checksum { .. })));
    assert!(matches!(
        decode(&bytes[..3]),
        Err(StoreError::Corrupt(Corruption::TruncatedEnvelope))
    ));
    let mut magic = bytes.clone();
    magic[0] ^= 1;
    let actual = checksum_of(&magic);
    let body = magic.len() - 4;
    magic.truncate(body);
    magic.extend_from_slice(&actual.to_le_bytes());
    assert!(matches!(
        decode_checked(&magic, actual),
        Err(StoreError::Corrupt(Corruption::WrongMagic))
    ));
    assert!(matches!(
        decode(&magic),
        Err(StoreError::Corrupt(Corruption::WrongMagic))
    ));
    assert!(!Corruption::WrongMagic.message().is_empty());
}

#[test]
fn the_checksum_is_the_ieee_polynomial() {
    // The last four bytes state the checksum and are not part of it.
    assert_eq!(checksum_of(b"123456789...."), 0xcbf4_3926);
}

#[test]
fn store_failures_are_described() {
    assert_eq!(
        render_store_error(StoreError::OutstandingCapacity { bound: 8 }),
        "outstanding request capacity 8 is exhausted"
    );
    assert_eq!(
        render_store_error(StoreError::Checksum {
            expected: 0xab,
            actual: 0x1234_5678
        }),
        "counter application record checksum mismatch: expected 0x000000ab, got 0x12345678"
    );
    assert_eq!(
        render_store_error(StoreError::OutstandingRemain { count: 2 }),
        "2 durable requests remain outstanding"
    );
    assert_eq!(
        render_store_error(StoreError::Counter(CounterStateMachineError::InjectedFault)),
        "counter state machine failed: consumer fault poisoned the counter group"
    );
    assert_eq!(
        render_store_error(StoreError::TooLarge { bytes: 9 }),
        "counter application record is 9 bytes, above 131072"
    );
    assert_eq!(
        render_store_error(StoreError::ConflictingOutstanding {
            client_id: ClientId::new(3)
        }),
        "client 3 already has a different request outstanding"
    );
}

// ----------------------------------------------------------------- registry

fn slots(count: u32) -> Vec<SlotRecord> {
    (1..=count)
        .map(|id| SlotRecord {
            group_id: group(id),
            incarnation: incarnation(1),
            lifecycle: GroupLifecycle::Serving,
            quota: quota(4),
        })
        .collect()
}

#[test]
fn the_registry_survives_its_encoding() {
    let registry = HostRegistry::create(&slots(3));
    let moved = SlotRecord {
        lifecycle: GroupLifecycle::Draining,
        ..registry.slot(group(2)).expect("the slot is there")
    };
    let registry = registry.publish(moved).expect("the slot is configured");
    let bytes = registry.encode().expect("the registry encodes");
    let read = HostRegistry::open(&bytes, 3).expect("the registry opens");
    assert_eq!(read.slot(group(2)), Ok(moved));
    assert_eq!(
        read.slot(group(4)),
        Err(RegistryError::NoSlot { group: group(4) })
    );
    assert!(matches!(
        HostRegistry::open(&bytes, 4),
        Err(RegistryError::SlotCount { found: 3, expected: 4 })
    ));
    let outside = SlotRecord {
        group_id: group(9),
        ..moved
    };
    assert!(matches!(
        read.publish(outside),
        Err(RegistryError::Unconfigured { .. })
    ));
    let mut flipped = bytes.clone();
    let last = flipped.len() - 5;
    flipped[last] ^= 1;
    assert!(matches!(
        HostRegistry::open(&flipped, 3),
        Err(RegistryError::Checksum { .. })
    ));
}

#[test]
fn intents_survive_their_encoding_and_are_told_apart() {
    let retirement = RetirementIntent {
        group_id: group(3),
        incarnation: incarnation(2),
    };
    let activation = ActivationIntent {
        group_id: group(3),
        previous_incarnation: incarnation(2),
        next_incarnation: incarnation(3),
        quota: quota(5),
    };
    let bootstrap = BootstrapIntent {
        group_count: 7,
        quota: quota(5),
    };
    assert_eq!(RetirementIntent::decode(&retirement.encode()), Ok(retirement));
    assert_eq!(ActivationIntent::decode(&activation.encode()), Ok(activation));
    assert_eq!(BootstrapIntent::decode(&bootstrap.encode()), Ok(bootstrap));
    assert_eq!(
        RetirementIntent::decode(&activation.encode()),
        Err(RegistryError::WrongMagic)
    );
    assert_eq!(
        RetirementIntent::decode(&[1, 2]),
        Err(RegistryError::Truncated)
    );
    let skipped = ActivationIntent {
        next_incarnation: incarnation(4),
        ..activation
    };
    assert_eq!(
        ActivationIntent::decode(&skipped.encode()),
        Err(RegistryError::NotConsecutive)
    );
}

// ----------------------------------------------------------------- protocol

#[test]
fn every_command_is_read() {
    let target = |id: u32| (group(id), incarnation(2));
    let (group_id, one) = target(4);
    for (line, request) in [
        ("STATUS", Request::Status),
        (" AUDIT \t", Request::Audit),
        ("PAUSE_PEERS", Request::PausePeers),
        ("RESUME_PEERS", Request::ResumePeers),
        ("PAUSE_RECOVERY", Request::PauseRecovery),
        ("RESUME_RECOVERY", Request::ResumeRecovery),
        ("SHUTDOWN", Request::Shutdown),
        (
            "VALUE 4 2",
            Request::Value {
                group_id,
                incarnation: one,
            },
        ),
        (
            "FAULT 4 2",
            Request::Fault {
                group_id,
                incarnation: one,
            },
        ),
        (
            "FAULT_CAPACITY 4 2",
            Request::CapacityFault {
                group_id,
                incarnation: one,
            },
        ),
        (
            "SNAPSHOT 4 2",
            Request::Snapshot {
                group_id,
                incarnation: one,
            },
        ),
        (
            "DRAIN 4 2",
            Request::Drain {
                group_id,
                incarnation: one,
            },
        ),
        (
            "REMOVE 4 2",
            Request::Remove {
                group_id,
                incarnation: one,
            },
        ),
        (
            "TOMBSTONE 4 2",
            Request::Tombstone {
                group_id,
                incarnation: one,
            },
        ),
        (
            "REOPEN 4 2 8",
            Request::Reopen {
                group_id,
                incarnation: one,
                quota: 8,
            },
        ),
        (
            "PEER_PROBE 3 4 2",
            Request::PeerProbe {
                group_id,
                incarnation: one,
                target: 3,
            },
        ),
        (
            "TRANSFER 4 2 3",
            Request::TransferLeadership {
                group_id,
                incarnation: one,
                target: 3,
            },
        ),
        (
            "PRESSURE 4 2 bulk 17",
            Request::Pressure {
                group_id,
                incarnation: one,
                class: PressureClass::Bulk,
                count: 17,
            },
        ),
        (
            "SLOW 4 250",
            Request::Slow {
                group_id,
                milliseconds: 250,
            },
        ),
        (
            "OPEN 4 2 1 6",
            Request::OpenSession {
                group_id,
                incarnation: one,
                client_id: ClientId::new(1),
                epoch: SessionEpoch::new(6).expect("nonzero"),
            },
        ),
        (
            "ADD 4 2 1 6 9 -12",
            Request::Counter {
                group_id,
                incarnation: one,
                client_id: ClientId::new(1),
                epoch: SessionEpoch::new(6).expect("nonzero"),
                sequence: Sequence::new(9).expect("nonzero"),
                command: adding(-12),
            },
        ),
        (
            "READ +4 2 1 6 9",
            Request::Counter {
                group_id,
                incarnation: one,
                client_id: ClientId::new(1),
                epoch: SessionEpoch::new(6).expect("nonzero"),
                sequence: Sequence::new(9).expect("nonzero"),
                command: CounterCommand::Read,
            },
        ),
    ] {
        assert_eq!(parse(line), Ok(request), "{line}");
        let ended = format!("{line}\r\n");
        assert_eq!(parse(&ended), Ok(request), "{line}");
    }
}

#[test]
fn malformed_requests_are_told_why() {
    for (line, error) in [
        ("", ProtocolError::Empty),
        ("STATUS now", ProtocolError::Unknown),
        ("status", ProtocolError::Unknown),
        ("VALUE x 1", ProtocolError::GroupNumber),
        ("VALUE 4294967296 1", ProtocolError::GroupNumber),
        ("VALUE 1 -", ProtocolError::IncarnationNumber),
        ("VALUE 1 0", ProtocolError::ZeroIncarnation),
        ("OPEN 1 1 x 1", ProtocolError::ClientNumber),
        ("OPEN 1 1 1 x", ProtocolError::EpochNumber),
        ("OPEN 1 1 1 0", ProtocolError::ZeroEpoch),
        ("READ 1 1 1 1 x", ProtocolError::SequenceNumber),
        ("READ 1 1 1 1 0", ProtocolError::ZeroSequence),
        ("ADD 1 1 1 1 1 9223372036854775808", ProtocolError::DeltaNumber),
        ("ADD x 1 1 1 1 0", ProtocolError::ZeroDelta),
        ("TRANSFER 1 1 x", ProtocolError::TargetNumber),
        ("REOPEN 1 1 x", ProtocolError::QuotaNumber),
        ("PRESSURE 1 1 other 1", ProtocolError::Class),
        ("PRESSURE 1 1 bulk -1", ProtocolError::CountNumber),
        ("SLOW 1 x", ProtocolError::DelayNumber),
    ] {
        assert_eq!(parse(line), Err(error), "{line}");
    }
    assert_eq!(ProtocolError::Empty.message(), "empty request");
    assert_eq!(ProtocolError::GroupNumber.message(), "group id is not a u32");
}

#[test]
fn a_connection_answers_what_it_cannot_hand_on() {
    assert_eq!(serve_line(&LineRead::Closed), ConnectionStep::Close);
    assert_eq!(serve_line(&LineRead::Failed), ConnectionStep::Close);
    let line = |text: &str, bytes: usize| LineRead::Line {
        line: text.to_string(),
        bytes,
    };
    assert_eq!(
        serve_line(&line("STATUS", 4097)),
        ConnectionStep::AnswerAndClose {
            answer: LineAnswer::TooLong
        }
    );
    assert_eq!(
        serve_line(&line("STATUS\n", 4096)),
        ConnectionStep::Submit {
            request: Request::Status
        }
    );
    assert_eq!(
        serve_line(&line("HELLO\n", 6)),
        ConnectionStep::Answer {
            answer: LineAnswer::Protocol {
                error: ProtocolError::Unknown
            }
        }
    );
    assert_eq!(
        LineAnswer::Protocol {
            error: ProtocolError::Unknown
        }
        .render(),
        "ERR PROTOCOL unknown command or wrong field count"
    );
    assert_eq!(LineAnswer::TooLong.render(), "ERR LINE_TOO_LONG 4096");
    assert_eq!(LineAnswer::ClientLimit.render(), "ERR CLIENT_LIMIT 64");
    assert_eq!(serve_handed(Handed::Accepted), ConnectionStep::Await);
    assert_eq!(serve_handed(Handed::Disconnected), ConnectionStep::Close);
    assert_eq!(
        serve_handed(Handed::Full),
        ConnectionStep::Answer {
            answer: LineAnswer::QueueFull
        }
    );
    assert_eq!(admits_client(63), None);
    assert_eq!(admits_client(64), Some(LineAnswer::ClientLimit));
}

// --------------------------------------------------------------- peer frames

fn message() -> Message {
    Message::TimeoutNow(TimeoutNow {
        term: Term(3),
        leader_id: NodeId(2),
    })
}

fn whole_snapshot() -> Message {
    let application = ApplicationSnapshotMetadata::new(
        ApplicationSnapshotKind::new("counter").expect("the kind is valid"),
        ApplicationSnapshotVersion::new(1).expect("the version is valid"),
    );
    Message::InstallSnapshot(InstallSnapshot {
        term: Term(3),
        leader_id: NodeId(2),
        metadata: RaftSnapshotMetadata::new(
            SnapshotGroupId::new("group").expect("the identity is valid"),
            NodeId(2),
            LogIndex(1),
            Term(1),
            Term(3),
            application,
        )
        .expect("the metadata is valid"),
        application_payload: Vec::new(),
    })
}

fn frame() -> PeerFrame {
    PeerFrame {
        group_id: group(5),
        incarnation: incarnation(2),
        from: 1,
        to: 3,
        message: message(),
    }
}

#[test]
fn frames_survive_the_wire() {
    let bytes = encode_frame(&frame()).expect("the frame encodes");
    let length = read_frame_length(&bytes[..4]).expect("the length is in bounds");
    assert_eq!(length, bytes.len() - 4);
    assert_eq!(&bytes[4..8], b"RCPE");
    let encoded = rafter_codec::encode_message(&message()).expect("the message encodes");
    assert_eq!(&bytes[37..bytes.len() - 4], &encoded[..]);
    let read = read_frame(&bytes[4..]).expect("the frame is read");
    assert_eq!(read.group_id, group(5));
    assert_eq!(read.incarnation, incarnation(2));
    assert_eq!(read.from, 1);
    assert_eq!(read.to, 3);
    assert_eq!(read.message, message());
}

#[test]
fn messages_without_a_wire_form_are_not_sent() {
    assert_eq!(
        encode_frame_with(&frame(), None),
        Err(LinkError::Unencodable)
    );
    let longest = vec![0; 8 * 1024 * 1024 - 37];
    assert!(encode_frame_with(&frame(), Some(longest.clone())).is_ok());
    let mut longer = longest;
    longer.push(0);
    assert_eq!(
        encode_frame_with(&frame(), Some(longer)),
        Err(LinkError::Unencodable)
    );
    let unsupported = PeerFrame {
        message: whole_snapshot(),
        ..frame()
    };
    assert_eq!(encode_frame(&unsupported), Err(LinkError::Unencodable));
}

#[test]
fn damaged_frames_are_refused() {
    let bytes = encode_frame(&frame()).expect("the frame encodes");
    let body = &bytes[4..];
    let mut flipped = body.to_vec();
    flipped[20] ^= 1;
    assert!(matches!(read_frame(&flipped), Err(FrameError::Checksum)));
    assert!(matches!(read_frame(&body[..5]), Err(FrameError::Short)));
    assert!(matches!(
        read_frame_length(&[255, 255, 255, 255]),
        Err(FrameError::TooLong)
    ));
    let bytes = encode_frame_with(&frame(), Some(vec![1, 2, 3])).expect("the frame encodes");
    assert!(matches!(read_frame(&bytes[4..]), Err(FrameError::Message)));
    let stated = u32::from_be_bytes([
        bytes[bytes.len() - 4],
        bytes[bytes.len() - 3],
        bytes[bytes.len() - 2],
        bytes[bytes.len() - 1],
    ]);
    assert!(matches!(
        read_frame_checked(&bytes[4..], stated, None),
        Err(FrameError::Message)
    ));
    let read = read_frame_checked(&bytes[4..], stated, Some(message())).expect("the frame is read");
    assert_eq!(read.message, message());
    assert_eq!(read.to, 3);
}

#[test]
fn only_frames_of_the_claimed_peer_are_delivered() {
    let preamble = encode_preamble(2, 1);
    assert_eq!(read_preamble(&preamble, 1), Some(2));
    assert_eq!(read_preamble(&preamble, 3), None);
    assert_eq!(
        receive_connection(ReadEvent::Frame { from: 2, to: 1 }, 2, 1),
        LinkStep::Deliver
    );
    assert_ne!(
        receive_connection(ReadEvent::Frame { from: 3, to: 1 }, 2, 1),
        LinkStep::Deliver
    );
    assert_ne!(
        receive_connection(ReadEvent::Frame { from: 2, to: 3 }, 2, 1),
        LinkStep::Deliver
    );
    assert_eq!(
        receive_connection(ReadEvent::TimedOut, 2, 1),
        LinkStep::Continue
    );
    assert_eq!(receive_connection(ReadEvent::Closed, 2, 1), LinkStep::Close);
    assert_eq!(admit_outbound(2, Some(3), 4), Ok(()));
    assert_eq!(
        admit_outbound(2, Some(4), 4),
        Err(LinkError::QueueFull { peer: 2, bound: 4 })
    );
    assert_eq!(
        admit_outbound(2, None, 4),
        Err(LinkError::UnknownPeer { peer: 2 })
    );
    assert_eq!(
        LinkError::UnknownPeer { peer: 2 }.render(),
        "peer 2 has no route"
    );
    assert_eq!(
        LinkError::QueueFull { peer: 2, bound: 4 }.render(),
        "peer 2 outbound queue reached its bound 4"
    );
}

#[test]
fn group_identities_survive_the_transport() {
    let id = PeerGroupId {
        group_id: group(9),
        incarnation: incarnation(3),
    };
    let bytes = id.encode();
    assert_eq!(bytes.len(), 8);
    assert_eq!(PeerGroupId::decode(&bytes), Ok(id));
    assert_eq!(
        PeerGroupId::decode(&bytes[..7]),
        Err(PeerGroupCodecError::InvalidLength { actual: 7 })
    );
    assert_eq!(
        PeerGroupId::decode(&[0, 0, 0, 9, 0, 0, 0, 0]),
        Err(PeerGroupCodecError::ZeroIncarnation)
    );
    assert_eq!(
        PeerGroupCodecError::InvalidLength { actual: 7 }.render(),
        "counter transport group identity must contain exactly eight bytes; got 7"
    );
}

#[test]
fn diagnostics_are_projected_onto_counters() {
    let counters = LinkCounters::from_diagnostics(Diagnostics {
        queue_full: 1,
        inbound_full: 2,
        malformed_frames: 3,
        frame_too_large: 4,
        unknown_certificates: 5,
        identity_mismatches: 6,
        cluster_mismatches: 7,
        version_mismatches: 8,
        unauthorized_frames: 9,
        retired_peer_frames: u64::MAX,
        connection_full: 10,
        tls_handshakes: 11,
        tls_failures: 12,
        stale_sessions: 13,
        active_outbound_connections: 14,
        active_inbound_connections: 15,
    });
    assert_eq!(counters.outbound_full, 1);
    assert_eq!(counters.inbound_full, 2);
    assert_eq!(counters.malformed, 7);
    assert_eq!(counters.identity_refused, u64::MAX);
    assert_eq!(counters.inbound_connection_full, 10);
    assert_eq!(counters.active_inbound_connections, 15);
    assert_eq!(transport_state(true, true), TransportState::Open);
    assert_eq!(transport_state(false, true), TransportState::Missing);
    assert_eq!(transport_state(false, false), TransportState::Create);
}

// ------------------------------------------------------------------ settings

fn arguments(line: &str) -> Vec<String> {
    line.split_whitespace().map(str::to_string).collect()
}

const SETTINGS: &str = "--id 2 --members 1,2,3 --groups 64 --max-sessions 8 --quota 4 \
     --cluster-dir /tmp/cluster --election-timeout-ticks 10 --tick-interval-ms 20 \
     --request-timeout-ms 2000 --workers 8 --max-group-queue 64 --max-global-queue 1024";

#[test]
fn settings_are_read_from_arguments() {
    let config = Config::parse(&arguments(SETTINGS)).expect("the settings are valid");
    assert_eq!(config.node_id, 2);
    assert_eq!(config.members, vec![1, 2, 3]);
    assert_eq!(config.cluster_dir, "/tmp/cluster");
    assert_eq!(config.group_count, 64);
    assert_eq!(config.election_timeout_ticks, 10);
    assert_eq!(config.tick_interval, 20);
    assert_eq!(config.request_timeout, 2000);
    assert_eq!(config.max_sessions, 8);
    assert_eq!(config.quota, quota(4));
    assert_eq!(config.workers, 8);
    assert_eq!(config.max_group_queue, 64);
    assert_eq!(config.max_global_queue, 1024);
    assert_eq!(host_dir(2), "host-2");
}

#[test]
fn bad_settings_are_refused_with_their_reason() {
    for (from, to, error, text) in [
        (
            "--id 2",
            "",
            ConfigError::Missing {
                setting: Setting::Id,
            },
            "missing required argument --id",
        ),
        (
            "--id 2",
            "--id x",
            ConfigError::Invalid {
                setting: Setting::Id,
            },
            "node id is invalid",
        ),
        (
            "1,2,3",
            "1,2",
            ConfigError::Members,
            "members must name exactly three nodes including this node",
        ),
        (
            "1,2,3",
            "1,3,4",
            ConfigError::Members,
            "members must name exactly three nodes including this node",
        ),
        (
            "1,2,3",
            "1,,3",
            ConfigError::Invalid {
                setting: Setting::Members,
            },
            "member id is invalid",
        ),
        (
            "--groups 64",
            "--groups 4097",
            ConfigError::GroupCount,
            "group count must be in 1..=4096",
        ),
        (
            "--quota 4",
            "--quota 0",
            ConfigError::Zero {
                setting: Setting::Quota,
            },
            "quota must be nonzero",
        ),
        (
            "--tick-interval-ms 20",
            "--tick-interval-ms 0",
            ConfigError::Zero {
                setting: Setting::TickInterval,
            },
            "tick interval must be nonzero",
        ),
        (
            "--max-global-queue 1024",
            "--max-global-queue",
            ConfigError::Missing {
                setting: Setting::MaxGlobalQueue,
            },
            "missing required argument --max-global-queue",
        ),
    ] {
        let line = SETTINGS.replace(from, to);
        let refused = Config::parse(&arguments(&line)).expect_err("the settings are refused");
        assert_eq!(refused, error, "{line}");
        assert_eq!(refused.render(), text);
    }
}

#[test]
fn profile_settings_are_read_from_arguments() {
    let config = ProfileConfig::parse(&arguments(
        "program --profile counter-fast --artifacts out --seed 7",
    ))
    .expect("the settings are valid");
    assert_eq!(config.profile.name, ProfileName::Fast);
    assert_eq!(config.seed, 7);
    assert_eq!(config.artifacts, "out");
    let config = ProfileConfig::parse(&arguments("--profile counter-weekly --artifacts out"))
        .expect("the settings are valid");
    assert_eq!(config.seed, 0xd0e8_9d2d_311e_9f41);
    for (line, error) in [
        ("--artifacts out", ProfileError::MissingProfile),
        ("--profile x --artifacts out", ProfileError::UnknownProfile),
        (
            "--profile counter-fast --seed x --artifacts out",
            ProfileError::Seed,
        ),
        ("--profile counter-fast", ProfileError::MissingArtifacts),
    ] {
        let refused = ProfileConfig::parse(&arguments(line)).expect_err("the settings are refused");
        assert_eq!(refused, error);
    }
    assert_eq!(
        ProfileError::UnknownProfile.render("x"),
        "unknown profile \"x\"; expected counter-fast, counter-nightly, or counter-weekly"
    );
}

#[test]
fn failure_points_are_armed_by_variable_or_file() {
    assert!(directed_failpoint_armed("before", Some("before"), None));
    assert!(!directed_failpoint_armed("before", Some("before "), None));
    assert!(directed_failpoint_armed("before", None, Some("  before\n")));
    assert!(!directed_failpoint_armed("before", Some("after"), Some("after")));
    assert!(!directed_failpoint_armed("before", None, None));
    assert_eq!(
        directed_io_failure("write", Some("write"), None),
        Err("directed I/O failure at write".to_string())
    );
    assert_eq!(directed_io_failure("write", None, None), Ok(()));
}

// ------------------------------------------------------------------- answers

#[test]
fn results_are_rendered_exactly() {
    assert_eq!(
        render_counter_result(CounterResult::Added { value: -3 }),
        "ADDED value=-3"
    );
    assert_eq!(
        render_counter_result(CounterResult::Value { value: i64::MIN }),
        "VALUE value=-9223372036854775808"
    );
    assert_eq!(
        render_counter_result(CounterResult::Rejected(CounterRejection::CounterOverflow {
            current: 7
        })),
        "REJECTED overflow current=7"
    );
    assert_eq!(
        render_apply_result(CounterApplyResult::Session(SessionApplyResult::Replaced)),
        "OK SESSION replaced"
    );
    assert_eq!(
        render_apply_result(CounterApplyResult::Counter(CounterResult::Added { value: 3 })),
        "OK ADDED value=3"
    );
    assert_eq!(
        render_apply_rejection(CounterApplyRejection::SequenceGap {
            expected: Sequence::new(4).expect("nonzero")
        }),
        "ERR SEQUENCE_GAP expected=4"
    );
    assert_eq!(
        render_terminal_failure(TerminalFailure::ProcessRestarted),
        "ERR NOT_COMMITTED PROCESS_RESTARTED"
    );
    assert_eq!(lifecycle_name(GroupLifecycle::Draining), "Draining");
    assert_eq!(Refusal::GroupUnknown.render(), "ERR GROUP_UNKNOWN");
    assert_eq!(
        Refusal::Incarnation {
            current: incarnation(3)
        }
        .render(),
        "ERR INCARNATION current=3"
    );
}

#[test]
fn the_audit_line_is_rendered_exactly() {
    let report = AuditReport {
        plans: 1,
        passes_completed: 2,
        certified_passes: 3,
        opportunities: 4,
        coverage: 5,
        widest_gap: 6,
        invalid_plans: 7,
        invalid_turns: 8,
        plan_digest: 0xab,
        turn_digest: 0xffff_ffff_ffff_ffff,
        admitted: 10,
        serviced: 4,
        failed: 3,
        queued: 2,
        in_flight: 1,
    };
    assert_eq!(
        render_audit(report),
        "OK AUDIT plans=1 passes_completed=2 certified_passes=3 opportunities=4 coverage=5 \
         widest_gap=6 invalid_plans=7 invalid_turns=8 plan_digest=00000000000000ab \
         turn_digest=ffffffffffffffff admitted=10 serviced=4 failed=3 queued=2 in_flight=1 \
         conserved=true"
    );
}

#[test]
fn the_record_says_how_far_an_operation_came() {
    let command = adding(5);
    let request = identity(1, &command);
    let operation = AcceptedOperation::Counter { request, command };
    let other = AcceptedOperation::Counter {
        request: identity(1, &adding(6)),
        command: adding(6),
    };
    let session = AcceptedOperation::OpenSession {
        client_id: ClientId::new(1),
        epoch: SessionEpoch::new(1).expect("epoch is nonzero"),
    };
    let mut record = bootstrapped();
    assert_eq!(
        record.durable_operation_state(operation),
        DurableOperationState::Absent
    );
    let (_, staged) = record.reserve(request, command).expect("there is room");
    publish(&mut record, staged.expect("the request is new"));
    assert_eq!(
        record.durable_operation_state(operation),
        DurableOperationState::ExactOutstanding {
            phase: OutstandingPhase::Queued
        }
    );
    assert_eq!(
        record.durable_operation_state(other),
        DurableOperationState::ConflictingOutstanding
    );
    assert_eq!(
        record.durable_operation_state(session),
        DurableOperationState::ConflictingOutstanding
    );
    let staged = record
        .fail_reservation(request, command, TerminalFailure::ProcessRestarted)
        .expect("the reservation is exact");
    publish(&mut record, staged.expect("the request was outstanding"));
    assert_eq!(
        record.durable_operation_state(operation),
        DurableOperationState::ExactTerminal {
            failure: TerminalFailure::ProcessRestarted
        }
    );
    assert_eq!(
        record.durable_operation_state(other),
        DurableOperationState::ConflictingTerminal
    );
}

#[test]
fn registry_failures_are_described() {
    let kinds = [
        (HostRecord::Registry, "host registry"),
        (HostRecord::Retirement, "retirement intent"),
        (HostRecord::Activation, "activation intent"),
        (HostRecord::Bootstrap, "bootstrap intent"),
    ];
    for (kind, name) in kinds {
        assert_eq!(host_record_name(kind), name);
        assert_eq!(
            render_registry_error(RegistryError::Truncated, kind),
            format!("{name} is truncated")
        );
        assert_eq!(
            render_registry_error(RegistryError::TrailingBytes, kind),
            format!("{name} contains trailing bytes")
        );
    }
    let registry = |error| render_registry_error(error, HostRecord::Registry);
    assert_eq!(
        registry(RegistryError::Checksum {
            expected: 0xab,
            actual: 0xcbf4_3926
        }),
        "host registry checksum mismatch: expected 0x000000ab, got 0xcbf43926"
    );
    assert_eq!(
        registry(RegistryError::SlotCount {
            found: 3,
            expected: 4
        }),
        "host registry has 3 slots, expected 4"
    );
    assert_eq!(
        registry(RegistryError::UnknownLifecycle { value: 9 }),
        "host registry has unknown lifecycle 9"
    );
    assert_eq!(
        registry(RegistryError::Unconfigured { group: group(7) }),
        "host registry cannot add unconfigured group 7"
    );
    assert_eq!(
        registry(RegistryError::TruncatedField),
        "durable host record is truncated"
    );
}

#[test]
fn an_authenticated_link_adds_its_sessions_to_the_status() {
    let counters = LinkCounters {
        outbound_full: 0,
        inbound_full: 0,
        malformed: 0,
        identity_refused: 0,
        inbound_connection_full: 0,
        tls_handshakes: 3,
        tls_failures: 1,
        stale_sessions: 2,
        active_outbound_connections: 4,
        active_inbound_connections: 5,
    };
    assert_eq!(
        render_session_status(counters),
        " link_tls_handshakes=3 link_tls_failures=1 link_stale_sessions=2 link_active_outbound=4 \
         link_active_inbound=5"
    );
}
