//! The engine of the node: admission, completion, recovery, lifecycle and its own audit.

use std::collections::VecDeque;

use rafter_reference_sharded_counter::adapter::audit::ManagedMetrics;
use rafter_reference_sharded_counter::adapter::state_machine::CounterAdmissionDecision;
use rafter_reference_sharded_counter::adapter::{CounterApplyResult, ReplicatedCounterCommand};
use rafter_reference_sharded_counter::node::app_store::ReserveOutcome;
use rafter_reference_sharded_counter::node::engine::audit::{
    Audit, DispatchedItem, ObservedCompletion, ObservedDispatch,
};
use rafter_reference_sharded_counter::node::engine::board::{
    Board, ItemClient, ItemOutcome, RetiredClient, WorkKind,
};
use rafter_reference_sharded_counter::node::engine::cycle::{Cycle, CycleEvent, CyclePhase};
use rafter_reference_sharded_counter::node::engine::desk::state::{
    AcceptedOperation, AdmissionAnswer, AdmissionStep, CandidateAction, DurableOperationState,
    OutstandingWork, ProceedStep, RecordAction, RecoveryStep,
};
use rafter_reference_sharded_counter::node::engine::desk::{
    finish_proceeding_admission, finish_reserved_admission, render_barrier_failure, Desk,
    ProposalRefusal, Reservation, ReservationStep, ReservedStep,
};
use rafter_reference_sharded_counter::node::engine::lifecycle::{
    admit_peer_frame, archive_raft, bootstrap_slots, compaction_boundary, drain, open_slot,
    read_entry, reconcile_registry, reconcile_retirement, registry_source, remove, reopen,
    tombstone, ArchiveStep, CompactionFault, DrainPublication, DrainStep, EntryFault, GroupFacts,
    HostRemoval, InstallStep, ProtocolStep, RegistrySource, RemoveStep, ReopenStep, StartupFault,
};
use rafter_reference_sharded_counter::node::engine::report::{
    take_ordered_consumer_events, AppliedEntry, ConsumerReportEvent, ProposalOutcome, ReadOutcome,
    StepReport,
};
use rafter_reference_sharded_counter::node::engine::{
    Engine, GroupRole, GroupSummary, JobAnswer, JobStep, ReportStep,
};
use rafter_reference_sharded_counter::node::host_registry::{RetirementIntent, SlotRecord};
use rafter_reference_sharded_counter::node::peer_link::LinkCounters;
use rafter_reference_sharded_counter::node::protocol::{PressureClass, Request};
use rafter_reference_sharded_counter::node::record::{OutstandingPhase, TerminalFailure};
use rafter_reference_sharded_counter::node::render::Refusal;
use rafter_reference_sharded_counter::{
    ClientId, CounterCommand, CounterResult, Delta, GroupId, GroupIncarnation, GroupLifecycle,
    RequestFingerprint, RequestIdentity, Sequence, SessionEpoch, WorkClass, WorkQuota,
};

fn group(id: u32) -> GroupId {
    GroupId::new(id)
}

fn first() -> GroupIncarnation {
    GroupIncarnation::first()
}

fn facts() -> GroupFacts {
    GroupFacts {
        incarnation: first(),
        lifecycle: GroupLifecycle::Serving,
        poisoned: false,
        runtime_poisoned: false,
        outstanding: 0,
        driver: true,
        ready: true,
        raft_present: true,
    }
}

fn operation(client: u32, sequence: u64, delta: i64) -> AcceptedOperation {
    let command = CounterCommand::Add {
        delta: Delta::new(delta).expect("delta is nonzero"),
    };
    AcceptedOperation::Counter {
        request: RequestIdentity {
            client_id: ClientId::new(client),
            session_epoch: SessionEpoch::new(1).expect("nonzero"),
            sequence: Sequence::new(sequence).expect("nonzero"),
            fingerprint: RequestFingerprint::of(&command),
        },
        command,
    }
}

// -------------------------------------------------------------------- audit

#[test]
fn a_plan_cannot_certify_by_omitting_an_independently_ready_group() {
    let mut audit = Audit::new();
    let first = group(1);
    let second = group(2);
    for group in [first, second] {
        audit.register_group(group);
        audit.set_available(group, true);
    }
    let [first_work, second_work] = [1, 2];
    audit.observe_admission(first, first_work, WorkClass::Command);
    audit.observe_admission(second, second_work, WorkClass::Command);

    audit.observe_plan(1, &vec![first]);

    assert_eq!(audit.invalid_plans(), 1);
}

#[test]
fn an_exact_shadow_ready_set_is_a_valid_plan() {
    let mut audit = Audit::new();
    let ready = group(1);
    let unavailable = group(2);
    for group in [ready, unavailable] {
        audit.register_group(group);
    }
    audit.set_available(ready, true);
    let [ready_work, unavailable_work] = [1, 2];
    audit.observe_admission(ready, ready_work, WorkClass::Command);
    audit.observe_admission(unavailable, unavailable_work, WorkClass::Control);

    audit.observe_plan(1, &vec![ready]);

    assert_eq!(audit.invalid_plans(), 0);
}

#[test]
fn a_pass_is_certified_when_every_opportunity_was_used() {
    let mut audit = Audit::new();
    audit.register_group(group(1));
    audit.set_available(group(1), true);
    audit.observe_admission(group(1), 5, WorkClass::Command);
    audit.observe_plan(1, &vec![group(1)]);
    audit.observe_dispatch(&ObservedDispatch {
        pass_id: 1,
        dispatch_id: 1,
        group_id: group(1),
        items: vec![DispatchedItem {
            work_id: 5,
            class: WorkClass::Command,
        }],
    });
    audit.observe_completion(ObservedCompletion {
        pass_id: 1,
        planned: 1,
        dispatched: 1,
        skipped: 0,
    });
    audit.observe_dispatch_completion(group(1), &vec![5], false);
    assert_eq!(audit.plans(), 1);
    assert_eq!(audit.opportunities(), 1);
    assert_eq!(audit.certified_passes(), 1);
    assert_eq!(audit.invalid_plans(), 0);
    assert_eq!(audit.invalid_turns(), 0);
    assert_eq!(audit.fairness(), (1, 0));
    audit.observe_dispatch_completion(group(1), &vec![5], false);
    assert_eq!(audit.invalid_turns(), 1);
}

// ------------------------------------------------------------------- report

#[test]
fn co_emitted_terminal_bookkeeping_precedes_the_read_grant() {
    let proposal_id = 7;
    let result = CounterApplyResult::Counter(CounterResult::Added { value: 3 });
    let mut report = StepReport {
        applied: VecDeque::from(vec![AppliedEntry {
            index: 3,
            term: 1,
            result,
            proposal: Some(proposal_id),
        }]),
        proposal_events: VecDeque::from(vec![ProposalOutcome::Applied {
            id: proposal_id,
            index: 3,
            term: 1,
            result,
        }]),
        read_events: VecDeque::from(vec![ReadOutcome::Granted { read_id: 8 }]),
    };

    let events = take_ordered_consumer_events(&mut report);
    assert!(matches!(
        events.as_slice(),
        [
            ConsumerReportEvent::Proposal(ProposalOutcome::Applied { .. }),
            ConsumerReportEvent::Applied(AppliedEntry {
                proposal: Some(id),
                ..
            }),
            ConsumerReportEvent::Read(ReadOutcome::Granted { .. })
        ] if *id == proposal_id
    ));
    assert!(report.read_events.is_empty());
}

// --------------------------------------------------------------------- desk

fn begin(desk: &mut Desk, now: u64, operation: AcceptedOperation, reply: u64) -> AdmissionStep {
    desk.begin_authoritative_admission(
        now,
        Some(facts()),
        group(1),
        first(),
        operation,
        reply,
        DurableOperationState::Absent,
    )
}

fn propose(desk: &mut Desk, now: u64, operation: AcceptedOperation, reply: u64) -> u64 {
    let AdmissionStep::Barrier { read_id } = begin(desk, now, operation, reply) else {
        panic!("a new operation waits for a barrier");
    };
    let waiting = desk.admission(read_id).expect("the barrier is known");
    assert_eq!(waiting.group_id, group(1));
    assert_eq!(waiting.client_id, operation.client_id());
    let granted = desk.finish_granted_admission(
        read_id,
        None,
        &vec![CounterAdmissionDecision::Proceed],
    );
    assert_eq!(desk.admission(read_id), None);
    assert_eq!(granted.len(), 1);
    assert_eq!(granted[0].action, CandidateAction::Proceed);
    let replies = granted[0].candidate.replies.clone();
    assert_eq!(
        desk.proceed_admission(
            now,
            group(1),
            operation,
            &replies,
            DurableOperationState::Absent
        ),
        ProceedStep::Reserve
    );
    let id = desk.next_proposal_id().expect("identities are left");
    assert_eq!(
        desk.admit_client_proposal(now, group(1), Some(operation), &replies, true),
        Ok(id)
    );
    id
}

#[test]
fn an_operation_is_answered_once_it_is_applied() {
    let mut desk = Desk::new(100, 4);
    let id = propose(&mut desk, 0, operation(0, 1, 5), 40);
    assert!(desk.is_in_progress(group(1), ClientId::new(0)));
    assert!(desk.has_pending(group(1)));
    assert_eq!(begin(&mut desk, 1, operation(0, 1, 5), 41), AdmissionStep::Attached);
    assert_eq!(
        desk.begin_authoritative_admission(
            1,
            Some(facts()),
            group(1),
            first(),
            operation(0, 2, 5),
            42,
            DurableOperationState::ConflictingTerminal
        ),
        AdmissionStep::Answer {
            answer: AdmissionAnswer::Conflicting
        }
    );
    let taken = desk.complete_applied(id).expect("the operation is pending");
    assert_eq!(taken.replies, vec![40, 41]);
    assert_eq!(taken.action, RecordAction::Nothing);
    assert!(desk.complete_applied(id).is_none());
    assert!(!desk.is_in_progress(group(1), ClientId::new(0)));
    assert_eq!(desk.counts().client_admitted, 1);
}

#[test]
fn refused_operations_wait_for_nothing() {
    let mut desk = Desk::new(100, 4);
    assert_eq!(
        begin(&mut desk, 0, operation(4, 1, 5), 1),
        AdmissionStep::Answer {
            answer: AdmissionAnswer::ClientOutOfRange
        }
    );
    let mut draining = facts();
    draining.lifecycle = GroupLifecycle::Draining;
    assert!(matches!(
        desk.begin_authoritative_admission(
            0,
            Some(draining),
            group(1),
            first(),
            operation(0, 1, 5),
            1,
            DurableOperationState::Absent
        ),
        AdmissionStep::Answer { .. }
    ));
    assert!(matches!(
        desk.begin_authoritative_admission(
            0,
            Some(facts()),
            group(1),
            first(),
            operation(0, 1, 5),
            1,
            DurableOperationState::ExactTerminal {
                failure: TerminalFailure::GroupPoisoned
            }
        ),
        AdmissionStep::Answer {
            answer: AdmissionAnswer::Terminal {
                failure: TerminalFailure::GroupPoisoned
            }
        }
    ));
    assert_eq!(desk.counts().admissions, 0);
}

#[test]
fn a_refused_proposal_changes_nothing() {
    let mut desk = Desk::new(100, 4);
    let refused = desk.admit_client_proposal(0, group(1), Some(operation(0, 1, 5)), &vec![1], false);
    assert_eq!(refused, Err(ProposalRefusal::Backpressure));
    assert!(!desk.has_pending(group(1)));
    assert_eq!(
        ProposalRefusal::Backpressure.render("full"),
        "ERR BACKPRESSURE full"
    );
    assert_eq!(
        ProposalRefusal::Exhausted.render(""),
        "ERR PROPOSAL_ID_EXHAUSTED"
    );
    assert_eq!(
        finish_proceeding_admission(operation(0, 1, 5), Reservation::Reserved),
        ReservationStep::Propose {
            class: WorkClass::Command
        }
    );
    assert_eq!(
        finish_proceeding_admission(operation(0, 1, 5), Reservation::Uncertain),
        ReservationStep::Stop
    );
    assert_eq!(
        finish_proceeding_admission(operation(0, 1, 5), Reservation::Rejected),
        ReservationStep::Answer
    );
    assert_eq!(
        finish_reserved_admission(ReserveOutcome::ExactRetry, ProposalRefusal::Backpressure),
        ReservedStep::Remains
    );
    assert_eq!(
        finish_reserved_admission(ReserveOutcome::Reserved, ProposalRefusal::Backpressure),
        ReservedStep::Cancel { managed: true }
    );
    assert_eq!(
        finish_reserved_admission(ReserveOutcome::Reserved, ProposalRefusal::Exhausted),
        ReservedStep::Cancel { managed: false }
    );
}

#[test]
fn deadlines_end_barriers_and_answer_clients() {
    let mut desk = Desk::new(100, 4);
    let _ = begin(&mut desk, 0, operation(0, 1, 5), 1);
    assert!(desk.has_admission(group(1)));
    assert!(desk.expire_admission_reads(99).is_empty());
    let closed = desk.expire_admission_reads(100);
    assert_eq!(closed.len(), 1);
    assert_eq!(closed[0].candidates[0].replies, vec![1]);
    assert!(!desk.has_admission(group(1)));
    assert_eq!(
        render_barrier_failure(false, "admission barrier deadline elapsed"),
        "ERR NOT_COMMITTED admission barrier deadline elapsed"
    );
    let id = propose(&mut desk, 200, operation(1, 1, 5), 2);
    assert!(desk.expire_clients(299).is_empty());
    let expired = desk.expire_clients(300);
    assert_eq!(expired.len(), 1);
    assert_eq!(expired[0].id, id);
    assert_eq!(expired[0].replies, vec![2]);
    assert!(desk.expire_clients(400).is_empty());
    assert!(desk.is_in_progress(group(1), ClientId::new(1)));
}

#[test]
fn completions_tell_the_record_what_to_do() {
    let mut desk = Desk::new(100, 4);
    let rejected = propose(&mut desk, 0, operation(0, 1, 5), 1);
    let taken = desk.complete_rejected(1, rejected).expect("pending");
    assert_eq!(
        taken.action,
        RecordAction::Cancel {
            operation: operation(0, 1, 5)
        }
    );
    let poisoned = propose(&mut desk, 2, operation(0, 2, 5), 2);
    let taken = desk.complete_poisoned_dispatch(poisoned).expect("pending");
    assert_eq!(
        taken.action,
        RecordAction::Fail {
            operation: operation(0, 2, 5),
            failure: TerminalFailure::GroupPoisonedUnknown
        }
    );
    let queued = propose(&mut desk, 3, operation(0, 3, 5), 3);
    let taken = desk
        .complete_not_committed(queued, TerminalFailure::GroupPoisoned)
        .expect("pending");
    assert_eq!(
        taken.action,
        RecordAction::Fail {
            operation: operation(0, 3, 5),
            failure: TerminalFailure::GroupPoisoned
        }
    );
    let unknown = propose(&mut desk, 4, operation(0, 4, 5), 4);
    let taken = desk.complete_unknown(5, unknown).expect("pending");
    assert_eq!(taken.action, RecordAction::Nothing);
}

#[test]
fn recorded_operations_are_recovered_or_failed() {
    let mut desk = Desk::new(100, 4);
    let work = |phase, poisoned, lifecycle, client| OutstandingWork {
        group_id: group(1),
        lifecycle,
        poisoned,
        driver: true,
        operation: operation(client, 1, 5),
        phase,
    };
    let steps = desk.recover_outstanding(
        0,
        &vec![
            work(OutstandingPhase::Queued, true, GroupLifecycle::Serving, 0),
            work(OutstandingPhase::EnteredDriver, true, GroupLifecycle::Serving, 1),
            work(OutstandingPhase::Queued, false, GroupLifecycle::Draining, 2),
            work(OutstandingPhase::EnteredDriver, false, GroupLifecycle::Draining, 3),
        ],
    );
    assert_eq!(
        steps,
        vec![
            RecoveryStep::Fail {
                failure: TerminalFailure::GroupPoisoned
            },
            RecoveryStep::Fail {
                failure: TerminalFailure::GroupPoisonedUnknown
            },
            RecoveryStep::Fail {
                failure: TerminalFailure::ProcessRestarted
            },
            RecoveryStep::Propose,
        ]
    );
    desk.admit_recovered_outstanding(0, group(1), operation(3, 1, 5), false);
    assert_eq!(desk.counts().recovery_refused, 1);
    let again = vec![work(OutstandingPhase::EnteredDriver, false, GroupLifecycle::Serving, 3)];
    assert_eq!(desk.recover_outstanding(1999, &again), vec![RecoveryStep::Leave]);
    assert_eq!(desk.recover_outstanding(2000, &again), vec![RecoveryStep::Propose]);
    desk.admit_recovered_outstanding(2000, group(1), operation(3, 1, 5), true);
    assert!(desk.is_in_progress(group(1), ClientId::new(3)));
    assert_eq!(desk.recover_outstanding(2001, &again), vec![RecoveryStep::Leave]);
}

#[test]
fn the_stop_answers_everyone() {
    let mut desk = Desk::new(100, 4);
    let _ = propose(&mut desk, 0, operation(0, 1, 5), 1);
    let _ = begin(&mut desk, 0, operation(1, 1, 5), 2);
    let closed = desk.close_admissions();
    assert_eq!(closed.len(), 1);
    let ended = desk.end_operations();
    assert_eq!(ended.len(), 1);
    assert_eq!(ended[0].replies, vec![1]);
    assert!(!desk.has_pending(group(1)));
    assert!(!desk.has_admission(group(1)));
}

// -------------------------------------------------------------------- board

#[test]
fn items_tell_their_clients() {
    let mut board = Board::new();
    board.record_work(group(1), 1, WorkKind::Tick);
    assert!(board.is_ticking(group(1)));
    board.record_work(group(1), 2, WorkKind::Proposal { id: 9 });
    board.record_work(group(1), 3, WorkKind::Snapshot { reply: 7 });
    assert_eq!(board.proposal_of(2), Some(9));
    let step = board.settle_item(group(1), 1, ItemOutcome::Reported);
    assert!(step.collect && !step.poison && !step.stop);
    assert!(!board.is_ticking(group(1)));
    let step = board.settle_item(group(1), 2, ItemOutcome::Poisoned);
    assert!(step.poison);
    assert_eq!(step.client, ItemClient::Poisoned { id: 9 });
    let step = board.settle_item(group(1), 3, ItemOutcome::Reported);
    assert_eq!(step.client, ItemClient::Compact { reply: 7 });
    board.record_work(group(1), 4, WorkKind::Peer);
    assert!(board.settle_item(group(1), 4, ItemOutcome::DurabilityFailed).stop);
    board.record_work(group(1), 5, WorkKind::Proposal { id: 10 });
    assert_eq!(
        board.retire_item(group(1), 5),
        RetiredClient::NotCommitted { id: 10 }
    );
    board.poison(group(1));
    assert!(board.is_poisoned(group(1)));
    assert_eq!(board.poisoned_count(), 1);
    board.forget_group(group(1));
    assert!(!board.is_poisoned(group(1)));
}

#[test]
fn slow_groups_delay_all_but_control_traffic() {
    let mut board = Board::new();
    board.set_slow(group(1), 250);
    assert_eq!(
        board.dispatch_delay(group(1), &vec![WorkClass::Control, WorkClass::Bulk]),
        Some(250)
    );
    assert_eq!(board.dispatch_delay(group(1), &vec![WorkClass::Control]), None);
    assert_eq!(board.dispatch_delay(group(2), &vec![WorkClass::Bulk]), None);
    board.delay_dispatch(100, 8, 250);
    board.delay_dispatch(100, 3, 250);
    assert!(board.release_delayed(349).is_empty());
    assert_eq!(board.release_delayed(350), vec![3, 8]);
    board.set_slow(group(1), 0);
    assert_eq!(board.dispatch_delay(group(1), &vec![WorkClass::Bulk]), None);
}

// ---------------------------------------------------------------- lifecycle

#[test]
fn a_group_drains_is_removed_reopened_and_tombstoned() {
    assert_eq!(
        drain(Some(facts()), first()),
        DrainStep::Proceed {
            publication: DrainPublication::BeginDraining { poisoned: false },
            fail_queued: false
        }
    );
    assert_eq!(drain(None, first()), DrainStep::Unknown);
    let mut draining = facts();
    draining.lifecycle = GroupLifecycle::Draining;
    draining.outstanding = 2;
    assert_eq!(
        remove(Some(draining), group(1), first(), HostRemoval::Removable),
        RemoveStep::Refused {
            refusal: Refusal::Outstanding { count: 2 }
        }
    );
    draining.outstanding = 0;
    assert_eq!(
        remove(Some(draining), group(1), first(), HostRemoval::Busy),
        RemoveStep::Busy
    );
    assert_eq!(
        remove(Some(draining), group(1), first(), HostRemoval::Removable),
        RemoveStep::Proceed {
            intent: RetirementIntent {
                group_id: group(1),
                incarnation: first()
            },
            managed: true
        }
    );
    let mut removed = draining;
    removed.lifecycle = GroupLifecycle::Removed;
    removed.driver = false;
    removed.raft_present = false;
    assert!(matches!(
        reopen(Some(removed), group(1), first(), 4),
        ReopenStep::Proceed { intent } if intent.next_incarnation.get() == 2
    ));
    assert!(matches!(
        reopen(Some(removed), group(1), first(), 0),
        ReopenStep::Refused {
            refusal: Refusal::ZeroQuota
        }
    ));
    removed.raft_present = true;
    assert_eq!(
        reopen(Some(removed), group(1), first(), 4),
        ReopenStep::ActiveRaft
    );
    assert_eq!(tombstone(Some(removed), first()), None);
    assert!(tombstone(Some(facts()), first()).is_some());
}

#[test]
fn protocol_input_reaches_live_groups_only() {
    assert_eq!(
        admit_peer_frame(Some(facts()), first(), false, false),
        ProtocolStep::Managed
    );
    assert_eq!(
        admit_peer_frame(Some(facts()), first(), false, true),
        ProtocolStep::Direct
    );
    assert_eq!(
        admit_peer_frame(None, first(), false, false),
        ProtocolStep::Refuse
    );
    let mut poisoned = facts();
    poisoned.runtime_poisoned = true;
    assert_eq!(
        admit_peer_frame(Some(poisoned), first(), true, true),
        ProtocolStep::Refuse
    );
}

fn slot(lifecycle: GroupLifecycle) -> SlotRecord {
    SlotRecord {
        group_id: group(1),
        incarnation: first(),
        lifecycle,
        quota: WorkQuota::new(4).expect("nonzero"),
    }
}

#[test]
fn an_interrupted_removal_is_completed_at_the_restart() {
    let intent = Some(RetirementIntent {
        group_id: group(1),
        incarnation: first(),
    });
    let draining = slot(GroupLifecycle::Draining);
    let plan = open_slot(intent, draining, draining, true, true, false).expect("the group comes up");
    let repair = plan.repair.expect("the intent is carried out");
    assert!(repair.rename && repair.retire && plan.publish);
    assert_eq!(plan.install, InstallStep::Rest);
    let removed = slot(GroupLifecycle::Removed);
    let plan = open_slot(intent, draining, removed, false, false, true).expect("the group comes up");
    let repair = plan.repair.expect("the intent is carried out");
    assert!(!repair.rename && !repair.retire && plan.publish);
    assert_eq!(
        reconcile_retirement(intent, group(1), first(), GroupLifecycle::Draining, true, true),
        Err(StartupFault::BothDirectories)
    );
    assert_eq!(
        reconcile_retirement(intent, group(2), first(), GroupLifecycle::Draining, true, false),
        Err(StartupFault::IntentMismatch)
    );
    assert_eq!(
        open_slot(intent, draining, slot(GroupLifecycle::Serving), false, true, false),
        Err(StartupFault::IntentConflict {
            state: GroupLifecycle::Serving
        })
    );
    assert_eq!(archive_raft(false, false), ArchiveStep::Neither);
}

#[test]
fn a_group_comes_up_as_it_is_on_disk() {
    let serving = slot(GroupLifecycle::Serving);
    let plan = open_slot(None, serving, serving, false, true, false).expect("the group comes up");
    assert_eq!(plan.install, InstallStep::Open);
    assert!(!plan.publish);
    let plan = open_slot(None, serving, serving, true, true, false).expect("the group comes up");
    assert_eq!(plan.install, InstallStep::Quarantine);
    let draining = slot(GroupLifecycle::Draining);
    let plan = open_slot(None, serving, draining, false, true, false).expect("the registry lags");
    assert!(plan.publish);
    assert_eq!(
        open_slot(None, draining, serving, false, true, false),
        Err(StartupFault::RegistryConflict)
    );
    assert_eq!(
        open_slot(None, serving, serving, false, false, false),
        Err(StartupFault::Presence { active: false })
    );
    let removed = slot(GroupLifecycle::Removed);
    assert_eq!(
        open_slot(None, removed, removed, false, false, false),
        Err(StartupFault::NoArchive)
    );
    assert_eq!(reconcile_registry(serving, serving), Ok(false));
}

#[test]
fn the_registry_comes_from_disk_boot_or_records() {
    let name = |text: &str| Some(text.to_string());
    assert_eq!(
        registry_source(true, &vec![name("x")], 4),
        Ok(RegistrySource::Disk)
    );
    assert_eq!(
        registry_source(false, &Vec::new(), 4),
        Ok(RegistrySource::Bootstrap)
    );
    assert_eq!(
        registry_source(false, &vec![name("1"), name("4")], 4),
        Ok(RegistrySource::Records)
    );
    assert_eq!(
        registry_source(false, &vec![name("1"), name("5")], 4),
        Err((1, EntryFault::Unconfigured))
    );
    assert_eq!(
        registry_source(false, &vec![None], 4),
        Err((0, EntryFault::Unexpected))
    );
    assert_eq!(read_entry("3", 4), Ok(group(3)));
    assert_eq!(read_entry("registry", 4), Err(EntryFault::Unexpected));
    let slots = bootstrap_slots(2, WorkQuota::new(4).expect("nonzero"));
    assert_eq!(slots.len(), 2);
    assert_eq!(slots[1].group_id, group(2));
    assert_eq!(
        compaction_boundary(0, Some(1)),
        Err(CompactionFault::NothingApplied)
    );
    assert_eq!(compaction_boundary(5, None), Err(CompactionFault::NoBoundary));
    assert_eq!(compaction_boundary(5, Some(2)), Ok((5, 2)));
}

// ------------------------------------------------------------------- engine

#[test]
fn a_new_engine_holds_nothing() {
    let engine = Engine::new(3, 64, 100, 4);
    assert!(!engine.peers_paused());
    assert!(!engine.recovery_paused());
    assert!(!engine.is_stopping());
    assert!(engine.desk().admission(1).is_none());
    assert!(engine.desk().waiting_operations(1).is_empty());
    assert!(engine.mark_dispatch_entered(&vec![1, 2]).is_empty());
}

#[test]
fn requests_become_steps() {
    let mut engine = Engine::new(3, 64, 100, 4);
    assert_eq!(engine.handle_job(0, Request::Status, None), JobStep::Status);
    assert_eq!(
        engine.handle_job(0, Request::PausePeers, None),
        JobStep::Answer {
            answer: JobAnswer::PeersPaused
        }
    );
    assert!(engine.peers_paused());
    assert_eq!(
        engine.handle_job(0, Request::PauseRecovery, None),
        JobStep::Answer {
            answer: JobAnswer::RecoveryPaused
        }
    );
    assert!(engine.recovery_paused());
    let value = Request::Value {
        group_id: group(1),
        incarnation: first(),
    };
    assert_eq!(
        engine.handle_job(0, value, None),
        JobStep::Answer {
            answer: JobAnswer::Refused {
                refusal: Refusal::GroupUnknown
            }
        }
    );
    assert_eq!(
        engine.handle_job(0, value, Some(facts())),
        JobStep::ReadValue {
            group_id: group(1),
            incarnation: first()
        }
    );
    assert_eq!(
        engine.handle_job(
            0,
            Request::Pressure {
                group_id: group(1),
                incarnation: first(),
                class: PressureClass::Bulk,
                count: 65
            },
            Some(facts())
        ),
        JobStep::Answer {
            answer: JobAnswer::PressureLimit { limit: 64 }
        }
    );
    assert_eq!(
        engine.handle_job(
            0,
            Request::Fault {
                group_id: group(1),
                incarnation: first()
            },
            Some(facts())
        ),
        JobStep::Propose {
            group_id: group(1),
            command: ReplicatedCounterCommand::Faulty
        }
    );
    assert_eq!(
        engine.handle_job(
            0,
            Request::Slow {
                group_id: group(1),
                milliseconds: 30_001
            },
            Some(facts())
        ),
        JobStep::Answer {
            answer: JobAnswer::SlowLimit
        }
    );
    assert!(!engine.is_stopping());
    assert_eq!(
        engine.handle_job(0, Request::Shutdown, None),
        JobStep::Stop {
            answer: JobAnswer::Shutdown { node_id: 3 }
        }
    );
    assert!(engine.is_stopping());
    assert_eq!(JobAnswer::Shutdown { node_id: 3 }.render(), "OK SHUTDOWN 3");
    assert_eq!(JobAnswer::SlowLimit.render(), "ERR SLOW_LIMIT 30000");
    assert_eq!(
        JobAnswer::Pressured {
            accepted: 3,
            refused: 2
        }
        .render(),
        "OK PRESSURE accepted=3 refused=2"
    );
}

#[test]
fn reports_complete_operations_and_answer_with_their_text() {
    let mut engine = Engine::new(1, 64, 100, 4);
    let id = propose(engine.desk_mut(), 0, operation(0, 1, 5), 11);
    let result = CounterApplyResult::Counter(CounterResult::Added { value: 5 });
    let step = engine.collect_report(
        1,
        ConsumerReportEvent::Applied(AppliedEntry {
            index: 2,
            term: 1,
            result,
            proposal: Some(id),
        }),
    );
    assert!(matches!(
        step,
        ReportStep::Completed { taken, text } if taken.replies == vec![11] && text == "OK ADDED value=5"
    ));
    assert!(matches!(
        engine.collect_report(1, ConsumerReportEvent::Read(ReadOutcome::Granted { read_id: 4 })),
        ReportStep::Granted { read_id: 4 }
    ));
    assert!(matches!(
        engine.collect_report(1, ConsumerReportEvent::Proposal(ProposalOutcome::Other)),
        ReportStep::Nothing
    ));
}

#[test]
fn the_status_line_is_rendered_exactly() {
    let engine = Engine::new(1, 64, 100, 4);
    let metrics = ManagedMetrics {
        queued: 1,
        in_flight_work: 2,
        occupied_workers: 3,
        admitted: 9,
        serviced: 5,
        failed: 1,
    };
    let link = LinkCounters {
        outbound_full: 1,
        inbound_full: 2,
        malformed: 3,
        identity_refused: 4,
        inbound_connection_full: 5,
        tls_handshakes: 0,
        tls_failures: 0,
        stale_sessions: 0,
        active_outbound_connections: 0,
        active_inbound_connections: 0,
    };
    let groups = vec![GroupSummary {
        group_id: group(1),
        facts: facts(),
    }];
    let roles = vec![GroupRole {
        group_id: group(1),
        leader: true,
    }];
    assert_eq!(
        engine.status_line(&groups, &roles, metrics, 7, link),
        "OK STATUS ready=true groups=1 leaders=1 leader_groups=1 poisoned=0 queued=1 in_flight=2 \
         workers=3 admitted=9 client_admitted=0 serviced=5 failed=1 passes=7 pending_proposals=0 \
         admission_reads=0 admission_candidates=0 admission_successors=0 admission_barriers=0 \
         durable_outstanding=0 recovery_deferred=0 recovery_refused=0 refused_peer=0 \
         link_outbound_full=1 link_inbound_full=2 link_malformed=3 link_identity_refused=4 \
         link_inbound_connection_full=5"
    );
    assert!(Engine::all_active_ready(&groups));
    assert_eq!(engine.active_group_count(&groups), 1);
}

// --------------------------------------------------------------------- cycle

#[test]
fn the_process_works_in_bounded_cycles_until_it_is_told_to_stop() {
    let mut cycle = Cycle::new(20, 100);
    cycle = cycle.advance(CycleEvent::Done);
    assert_eq!(cycle.phase, CyclePhase::Receive { left: 64 });
    cycle = cycle.advance(CycleEvent::Handled { stopping: false });
    assert_eq!(cycle.phase, CyclePhase::Receive { left: 63 });
    let stopped = cycle.advance(CycleEvent::Handled { stopping: true });
    assert_eq!(stopped.phase, CyclePhase::Finish);
    cycle = cycle.advance(CycleEvent::Empty);
    assert_eq!(cycle.phase, CyclePhase::Peers);
    cycle = cycle.advance(CycleEvent::Done);
    assert!(cycle.takes_time(105));
    assert!(!cycle.takes_time(u64::MAX));
    cycle = cycle.advance(CycleEvent::Time { now: 105 });
    assert_eq!(cycle.phase, CyclePhase::Ticks);
    assert_eq!(cycle.next_tick, 125);
    for expected in [CyclePhase::Expire, CyclePhase::Release, CyclePhase::Arm] {
        cycle = cycle.advance(CycleEvent::Done);
        assert_eq!(cycle.phase, expected);
    }
    cycle = cycle.advance(CycleEvent::Done);
    assert_eq!(cycle.phase, CyclePhase::Dispatch { left: 512 });
    cycle = cycle.advance(CycleEvent::Turned);
    cycle = cycle.advance(CycleEvent::PassEnded);
    assert_eq!(cycle.phase, CyclePhase::Announce);
    cycle = cycle.advance(CycleEvent::Looked {
        ready: true,
        recovering: false,
    });
    assert!(cycle.announced);
    assert_eq!(cycle.phase, CyclePhase::Receive { left: 64 });
}
