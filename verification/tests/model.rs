//! The managed scheduler, step by step.

use rafter_reference_sharded_counter::{
    AdmissionOutcome, AdmissionRejection, ClientId, CounterCommand, CounterRejection,
    CounterResult, Delta, GroupId, GroupIncarnation, GroupLifecycle, LifecycleOutcome,
    LifecycleRejection, LifecycleRequest, ManagedScheduler, OfferOutcome, PassIndex, PassProgress,
    PassSuspension, ReadinessSignal, RequestFingerprint, RequestIdentity, SchedulerConfig,
    SchedulerConfigError, Sequence, ServiceCost, SessionEpoch, SessionOutcome, SkipReason,
    SystemClass, TickIndex, Work, WorkClass, WorkFailure, WorkId, WorkQuota, WORK_CLASS_ORDER,
};

fn group(id: u32) -> GroupId {
    GroupId::new(id)
}

fn first() -> GroupIncarnation {
    GroupIncarnation::first()
}

fn epoch(value: u64) -> SessionEpoch {
    SessionEpoch::new(value).expect("epoch is nonzero")
}

fn cost(value: u32) -> ServiceCost {
    ServiceCost::new(value).expect("cost is nonzero")
}

fn scheduler(workers: u32) -> ManagedScheduler {
    ManagedScheduler::new(SchedulerConfig::new(4, workers, 2, 4, 6).expect("bounds are valid"))
}

fn serve(scheduler: &mut ManagedScheduler, id: u32, quota: u32) {
    let quota = WorkQuota::new(quota).expect("quota is nonzero");
    for request in [
        LifecycleRequest::Create { quota },
        LifecycleRequest::Recover,
        LifecycleRequest::Serve,
    ] {
        let transition = scheduler.lifecycle(group(id), request);
        assert!(!matches!(
            transition.outcome,
            LifecycleOutcome::Rejected(_)
        ));
    }
}

fn add(client: u32, sequence: u64, delta: i64) -> Work {
    let command = CounterCommand::Add {
        delta: Delta::new(delta).expect("delta is nonzero"),
    };
    Work::Counter {
        request: RequestIdentity {
            client_id: ClientId::new(client),
            session_epoch: epoch(1),
            sequence: Sequence::new(sequence).expect("sequence is nonzero"),
            fingerprint: RequestFingerprint::of(&command),
        },
        command,
        cost: cost(1),
    }
}

fn system(class: SystemClass, price: u32) -> Work {
    Work::System {
        class,
        cost: cost(price),
    }
}

#[test]
fn configurations_without_room_are_refused() {
    assert_eq!(
        SchedulerConfig::new(0, 1, 1, 1, 1),
        Err(SchedulerConfigError::ZeroGroups)
    );
    assert_eq!(
        SchedulerConfig::new(1, 0, 1, 1, 1),
        Err(SchedulerConfigError::ZeroWorkers)
    );
    assert_eq!(
        SchedulerConfig::new(1, 1, 0, 1, 1),
        Err(SchedulerConfigError::ZeroClients)
    );
    assert_eq!(
        SchedulerConfig::new(1, 1, 1, 0, 1),
        Err(SchedulerConfigError::ZeroGroupQueue)
    );
    assert_eq!(
        SchedulerConfig::new(1, 1, 1, 2, 1),
        Err(SchedulerConfigError::GlobalQueueBelowGroupQueue)
    );
    let config = SchedulerConfig::new(3, 2, 5, 7, 9).expect("bounds are valid");
    assert_eq!(config.max_groups(), 3);
    assert_eq!(config.workers(), 2);
    assert_eq!(config.max_clients_per_group(), 5);
    assert_eq!(config.max_group_queue(), 7);
    assert_eq!(config.max_global_queue(), 9);
}

#[test]
fn identities_reject_zero_and_stop_at_their_end() {
    assert!(GroupIncarnation::new(0).is_none());
    assert!(SessionEpoch::new(0).is_none());
    assert!(Sequence::new(0).is_none());
    assert!(WorkId::new(0).is_none());
    assert!(PassIndex::new(0).is_none());
    assert!(ServiceCost::new(0).is_none());
    assert!(WorkQuota::new(0).is_none());
    assert!(Delta::new(0).is_none());
    assert_eq!(Delta::new(-4).map(Delta::get), Some(-4));
    assert_eq!(
        GroupIncarnation::first().successor().map(GroupIncarnation::get),
        Some(2)
    );
    assert!(GroupIncarnation::new(u32::MAX)
        .expect("nonzero")
        .successor()
        .is_none());
    assert!(Sequence::new(u64::MAX).expect("nonzero").successor().is_none());
    assert_eq!(TickIndex::zero().get(), 0);
}

#[test]
fn fingerprints_tell_commands_apart() {
    let five = CounterCommand::Add {
        delta: Delta::new(5).expect("delta is nonzero"),
    };
    let six = CounterCommand::Add {
        delta: Delta::new(6).expect("delta is nonzero"),
    };
    assert_eq!(RequestFingerprint::of(&five), RequestFingerprint::of(&five));
    assert_ne!(RequestFingerprint::of(&five), RequestFingerprint::of(&six));
    assert_ne!(
        RequestFingerprint::of(&five),
        RequestFingerprint::of(&CounterCommand::Read)
    );
    assert_eq!(RequestFingerprint::from_digest(7).get(), 7);
}

#[test]
fn classes_are_ordered_by_urgency() {
    assert_eq!(
        WORK_CLASS_ORDER,
        [
            WorkClass::Control,
            WorkClass::Command,
            WorkClass::Snapshot,
            WorkClass::Bulk
        ]
    );
    for (rank, class) in WORK_CLASS_ORDER.iter().enumerate() {
        assert_eq!(class.rank(), rank);
    }
}

#[test]
fn a_turn_takes_the_most_urgent_work_up_to_its_quota() {
    let mut scheduler = scheduler(2);
    serve(&mut scheduler, 1, 2);
    assert_eq!(
        scheduler.open_session(group(1), first(), ClientId::new(0), epoch(1)),
        SessionOutcome::Opened {
            session_epoch: epoch(1)
        }
    );
    for item in [
        system(SystemClass::Bulk, 2),
        add(0, 1, 5),
        system(SystemClass::Control, 3),
    ] {
        assert!(matches!(
            scheduler.submit(group(1), first(), item),
            AdmissionOutcome::Queued { .. }
        ));
    }
    let report = scheduler.step(&[]);
    assert_eq!(report.armed, Some(vec![group(1)]));
    assert_eq!(report.offers.len(), 1);
    assert_eq!(
        report.offers[0].outcome,
        OfferOutcome::Dispatched {
            serviced: 2,
            cost: 4
        }
    );
    assert_eq!(report.serviced.len(), 2);
    assert_eq!(report.serviced[0].class, WorkClass::Control);
    assert_eq!(
        report.serviced[1].result,
        Some(CounterResult::Added { value: 5 })
    );
    assert_eq!(report.progress, PassProgress::Completed);
    assert_eq!(scheduler.counter(group(1)), Some(5));
    assert!(scheduler.group(group(1)).expect("group exists").servicing);
    assert!(scheduler.ready_groups().is_empty());
    for _ in 0..3 {
        assert!(scheduler.step(&[]).released.is_empty());
    }
    assert_eq!(scheduler.step(&[]).released, vec![group(1)]);
}

#[test]
fn every_ready_group_has_a_turn_within_one_pass() {
    let mut scheduler = scheduler(1);
    for id in 0..3 {
        serve(&mut scheduler, id, 1);
        let _ = scheduler.submit(group(id), first(), system(SystemClass::Control, 1));
    }
    let report = scheduler.step(&[]);
    assert_eq!(report.armed, Some(vec![group(0), group(1), group(2)]));
    assert_eq!(
        report.progress,
        PassProgress::Suspended(PassSuspension::NoFreeWorker)
    );
    assert_eq!(report.pass, Some(PassIndex::first()));
    let mut offered = report.offers.len();
    for _ in 0..2 {
        let report = scheduler.step(&[]);
        assert_eq!(report.armed, None);
        offered += report.offers.len();
    }
    assert_eq!(offered, 3);
    assert_eq!(scheduler.summary().serviced, 3);
    assert_eq!(scheduler.open_pass(), None);
}

#[test]
fn a_group_that_stalls_after_arming_is_skipped() {
    let mut scheduler = scheduler(1);
    for id in 0..2 {
        serve(&mut scheduler, id, 1);
        let _ = scheduler.submit(group(id), first(), system(SystemClass::Control, 1));
    }
    assert_eq!(scheduler.step(&[]).offers.len(), 1);
    let report = scheduler.step(&[ReadinessSignal::stalled(group(1))]);
    assert_eq!(report.offers.len(), 1);
    assert_eq!(
        report.offers[0].outcome,
        OfferOutcome::Skipped(SkipReason::Stalled)
    );
    assert!(scheduler.group(group(1)).expect("group exists").stalled);
    let report = scheduler.step(&[ReadinessSignal::available(group(1))]);
    assert_eq!(report.armed, Some(vec![group(1)]));
}

#[test]
fn retries_are_named_replayed_or_refused() {
    let mut scheduler = scheduler(2);
    serve(&mut scheduler, 1, 4);
    let item = add(0, 1, 5);
    assert_eq!(
        scheduler.submit(group(1), first(), item),
        AdmissionOutcome::Rejected(AdmissionRejection::SessionNotOpen)
    );
    let _ = scheduler.open_session(group(1), first(), ClientId::new(0), epoch(1));
    let AdmissionOutcome::Queued { work } = scheduler.submit(group(1), first(), item) else {
        panic!("a new request is queued");
    };
    assert_eq!(
        scheduler.submit(group(1), first(), item),
        AdmissionOutcome::AlreadyQueued { work }
    );
    assert_eq!(
        scheduler.submit(group(1), first(), add(0, 1, 6)),
        AdmissionOutcome::Rejected(AdmissionRejection::ConflictingRetry)
    );
    assert_eq!(
        scheduler.submit(group(1), first(), add(0, 3, 6)),
        AdmissionOutcome::Rejected(AdmissionRejection::SequenceGap {
            expected: Sequence::first()
        })
    );
    let _ = scheduler.step(&[]);
    assert_eq!(
        scheduler.submit(group(1), first(), item),
        AdmissionOutcome::Replayed {
            result: CounterResult::Added { value: 5 }
        }
    );
    assert!(matches!(
        scheduler.submit(group(1), first(), add(0, 2, 1)),
        AdmissionOutcome::Queued { .. }
    ));
    for _ in 0..2 {
        let _ = scheduler.step(&[]);
    }
    assert_eq!(
        scheduler.submit(group(1), first(), item),
        AdmissionOutcome::Rejected(AdmissionRejection::StaleSequence {
            highest: Sequence::new(2).expect("nonzero")
        })
    );
    assert_eq!(scheduler.summary().admitted, 2);
}

#[test]
fn bounds_push_back_and_change_nothing() {
    let mut scheduler = scheduler(1);
    serve(&mut scheduler, 0, 1);
    serve(&mut scheduler, 1, 1);
    for _ in 0..4 {
        let _ = scheduler.submit(group(0), first(), system(SystemClass::Bulk, 1));
    }
    assert_eq!(
        scheduler.submit(group(0), first(), system(SystemClass::Bulk, 1)),
        AdmissionOutcome::Rejected(AdmissionRejection::GroupQueueFull { limit: 4 })
    );
    for _ in 0..2 {
        let _ = scheduler.submit(group(1), first(), system(SystemClass::Bulk, 1));
    }
    assert_eq!(
        scheduler.submit(group(1), first(), system(SystemClass::Bulk, 1)),
        AdmissionOutcome::Rejected(AdmissionRejection::GlobalQueueFull { limit: 6 })
    );
    assert_eq!(scheduler.summary().queued, 6);
    assert_eq!(
        scheduler.submit(group(9), first(), system(SystemClass::Bulk, 1)),
        AdmissionOutcome::Rejected(AdmissionRejection::GroupOutOfRange)
    );
    assert_eq!(
        scheduler.submit(group(2), first(), system(SystemClass::Bulk, 1)),
        AdmissionOutcome::Rejected(AdmissionRejection::GroupUnknown)
    );
}

#[test]
fn a_poisoned_group_fails_its_queue_when_it_drains() {
    let mut scheduler = scheduler(2);
    serve(&mut scheduler, 1, 4);
    serve(&mut scheduler, 2, 4);
    let faulty = Work::Faulty {
        class: SystemClass::Control,
        cost: cost(1),
    };
    let _ = scheduler.submit(group(1), first(), faulty);
    let _ = scheduler.submit(group(1), first(), system(SystemClass::Bulk, 1));
    let _ = scheduler.submit(group(2), first(), system(SystemClass::Bulk, 1));
    let report = scheduler.step(&[]);
    assert_eq!(report.serviced.len(), 2);
    assert!(scheduler.group(group(1)).expect("group exists").poisoned);
    assert!(!scheduler.group(group(2)).expect("group exists").poisoned);
    assert_eq!(
        scheduler.submit(group(1), first(), system(SystemClass::Bulk, 1)),
        AdmissionOutcome::Rejected(AdmissionRejection::GroupPoisoned)
    );
    let transition = scheduler.lifecycle(group(1), LifecycleRequest::Drain);
    assert_eq!(transition.failed.len(), 1);
    assert_eq!(transition.failed[0].reason, WorkFailure::GroupPoisoned);
    let summary = scheduler.summary();
    assert_eq!(
        summary.admitted,
        summary.serviced + summary.failed + u64::from(summary.queued)
    );
}

#[test]
fn lifecycle_moves_forward_and_a_tombstone_is_final() {
    let mut scheduler = scheduler(2);
    let quota = WorkQuota::new(2).expect("quota is nonzero");
    serve(&mut scheduler, 1, 2);
    assert_eq!(
        scheduler.lifecycle(group(1), LifecycleRequest::Serve).outcome,
        LifecycleOutcome::Idempotent {
            state: GroupLifecycle::Serving,
            incarnation: first()
        }
    );
    assert_eq!(
        scheduler.lifecycle(group(1), LifecycleRequest::Remove).outcome,
        LifecycleOutcome::Rejected(LifecycleRejection::Conflict {
            current: GroupLifecycle::Serving,
            requested: GroupLifecycle::Removed
        })
    );
    let _ = scheduler.submit(group(1), first(), system(SystemClass::Bulk, 1));
    let _ = scheduler.lifecycle(group(1), LifecycleRequest::Drain);
    assert_eq!(
        scheduler.lifecycle(group(1), LifecycleRequest::Remove).outcome,
        LifecycleOutcome::Rejected(LifecycleRejection::QueueNotDrained { pending: 1 })
    );
    let _ = scheduler.step(&[]);
    assert!(matches!(
        scheduler.lifecycle(group(1), LifecycleRequest::Remove).outcome,
        LifecycleOutcome::Applied { .. }
    ));
    assert_eq!(
        scheduler
            .lifecycle(group(1), LifecycleRequest::Create { quota })
            .outcome,
        LifecycleOutcome::Created {
            incarnation: first().successor().expect("a second incarnation")
        }
    );
    assert!(matches!(
        scheduler.submit(group(1), first(), system(SystemClass::Control, 1)),
        AdmissionOutcome::Rejected(AdmissionRejection::StaleIncarnation { .. })
    ));
    for request in [
        LifecycleRequest::Recover,
        LifecycleRequest::Serve,
        LifecycleRequest::Drain,
        LifecycleRequest::Remove,
        LifecycleRequest::Tombstone,
    ] {
        let _ = scheduler.lifecycle(group(1), request);
    }
    for request in [
        LifecycleRequest::Create { quota },
        LifecycleRequest::Recover,
        LifecycleRequest::Serve,
    ] {
        assert_eq!(
            scheduler.lifecycle(group(1), request).outcome,
            LifecycleOutcome::Rejected(LifecycleRejection::GroupTombstoned)
        );
    }
    assert_eq!(
        scheduler.lifecycle(group(9), LifecycleRequest::Serve).outcome,
        LifecycleOutcome::Rejected(LifecycleRejection::GroupOutOfRange)
    );
    assert_eq!(
        scheduler.lifecycle(group(3), LifecycleRequest::Serve).outcome,
        LifecycleOutcome::Rejected(LifecycleRejection::GroupUnknown)
    );
}

#[test]
fn an_overflowing_addition_is_rejected_and_leaves_the_counter() {
    let mut scheduler = scheduler(2);
    serve(&mut scheduler, 1, 4);
    let _ = scheduler.open_session(group(1), first(), ClientId::new(0), epoch(1));
    let _ = scheduler.submit(group(1), first(), add(0, 1, i64::MAX));
    let _ = scheduler.step(&[]);
    let _ = scheduler.submit(group(1), first(), add(0, 2, 1));
    let _ = scheduler.step(&[]);
    let report = scheduler.step(&[]);
    let serviced = report.serviced.first().copied();
    let counter = scheduler.counter(group(1));
    assert_eq!(counter, Some(i64::MAX));
    assert!(serviced.is_none_or(|record| record.result
        == Some(CounterResult::Rejected(CounterRejection::CounterOverflow {
            current: i64::MAX
        }))));
    assert_eq!(scheduler.summary().serviced, 2);
}
