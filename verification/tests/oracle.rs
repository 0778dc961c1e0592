//! The history judged by the reference scheduler.

use rafter_reference_sharded_counter::{
    AdmissionOutcome, ClientId, CounterCommand, CounterResult, Delta, FaultSite, GroupAvailability,
    GroupId, GroupIncarnation, GroupLifecycle, HistoryEvent, LifecycleOutcome, LifecycleRequest,
    OfferOutcome, Operation, OperationId, OperationOutcome, PassIndex, ReferenceScheduler,
    RequestFingerprint, RequestIdentity, SchedulerConfig, SchedulingViolation, Sequence,
    ServiceCost, SessionEpoch, SkipReason, SystemClass, TickIndex, Work, WorkId, WorkQuota,
};

fn config() -> SchedulerConfig {
    SchedulerConfig::new(8, 2, 4, 16, 64).expect("bounds are valid")
}

fn group(id: u32) -> GroupId {
    GroupId::new(id)
}

fn pass(index: u64) -> PassIndex {
    PassIndex::new(index).expect("pass is nonzero")
}

fn work(id: u64) -> WorkId {
    WorkId::new(id).expect("work is nonzero")
}

fn system(cost: u32) -> Work {
    Work::System {
        class: SystemClass::Control,
        cost: ServiceCost::new(cost).expect("cost is nonzero"),
    }
}

struct Recorder {
    scheduler: ReferenceScheduler,
    next: u64,
}

impl Recorder {
    fn with(config: SchedulerConfig) -> Self {
        Self {
            scheduler: ReferenceScheduler::new(config),
            next: 1,
        }
    }

    fn new() -> Self {
        Self::with(config())
    }

    fn event(mut self, event: HistoryEvent) -> Self {
        self.scheduler.observe(event);
        self
    }

    fn invoke(mut self, operation: Operation) -> Self {
        let operation_id = OperationId::new(self.next);
        self.next += 1;
        self.event(HistoryEvent::Invoked {
            operation_id,
            operation,
        })
    }

    fn lifecycle(self, id: u32, request: LifecycleRequest) -> Self {
        self.invoke(Operation::Lifecycle {
            group: group(id),
            request,
        })
    }

    fn serving(self, id: u32, quota: u32) -> Self {
        let quota = WorkQuota::new(quota).expect("quota is nonzero");
        self.lifecycle(id, LifecycleRequest::Create { quota })
            .lifecycle(id, LifecycleRequest::Recover)
            .lifecycle(id, LifecycleRequest::Serve)
    }

    fn submit(self, id: u32, item: Work) -> Self {
        self.invoke(Operation::Submit {
            group: group(id),
            incarnation: GroupIncarnation::first(),
            work: item,
        })
    }

    fn available(self, tick: u64, id: u32, availability: GroupAvailability) -> Self {
        self.event(HistoryEvent::AvailabilityReported {
            tick: TickIndex::new(tick),
            group: group(id),
            availability,
        })
    }

    fn armed(self, index: u64, tick: u64, plan: &[u32]) -> Self {
        self.event(HistoryEvent::PassArmed {
            pass: pass(index),
            tick: TickIndex::new(tick),
            plan: plan.iter().map(|id| group(*id)).collect(),
        })
    }

    fn offered(self, index: u64, tick: u64, id: u32, outcome: OfferOutcome) -> Self {
        self.event(HistoryEvent::GroupOffered {
            pass: pass(index),
            tick: TickIndex::new(tick),
            group: group(id),
            outcome,
        })
    }

    fn dispatched(self, index: u64, tick: u64, id: u32, serviced: u32, cost: u64) -> Self {
        self.offered(index, tick, id, OfferOutcome::Dispatched { serviced, cost })
    }

    fn serviced(self, index: u64, id: u32, item: u64) -> Self {
        self.event(HistoryEvent::WorkServiced {
            pass: pass(index),
            group: group(id),
            work: work(item),
        })
    }

    fn completed(self, index: u64, tick: u64) -> Self {
        self.event(HistoryEvent::PassCompleted {
            pass: pass(index),
            tick: TickIndex::new(tick),
        })
    }

    fn released(self, tick: u64, id: u32) -> Self {
        self.event(HistoryEvent::WorkerReleased {
            tick: TickIndex::new(tick),
            group: group(id),
        })
    }

    /// One group with two items of cost two, dispatched in the first pass at tick one.
    fn one_turn() -> Self {
        Self::new()
            .serving(1, 4)
            .submit(1, system(2))
            .submit(1, system(2))
            .armed(1, 1, &[1])
            .dispatched(1, 1, 1, 2, 4)
            .serviced(1, 1, 1)
            .serviced(1, 1, 2)
    }

    fn fault(self) -> Option<FaultSite> {
        self.scheduler.replay().fault
    }
}

/// A history that breaks exactly the rule that the site names.
fn violator(site: FaultSite) -> Recorder {
    let stalled = GroupAvailability::Stalled;
    match site {
        FaultSite::ClockWalkedBackwards => Recorder::one_turn().completed(1, 0),
        FaultSite::OccupancyOutlivedItsCost => Recorder::one_turn()
            .completed(1, 1)
            .available(6, 1, stalled),
        FaultSite::ReleaseWithoutOccupancy => Recorder::one_turn().completed(1, 1).released(2, 2),
        FaultSite::ReleaseBeforeDue => Recorder::one_turn().completed(1, 1).released(4, 1),
        FaultSite::ReleaseAfterDue => Recorder::one_turn().completed(1, 1).released(6, 1),
        FaultSite::ArmedOverAnOpenPass => Recorder::one_turn().armed(2, 2, &[]),
        FaultSite::ArmedOutOfOrder => Recorder::new().serving(1, 4).armed(2, 1, &[]),
        FaultSite::ArmedTickReused => Recorder::new().armed(1, 1, &[]).completed(1, 1).armed(2, 1, &[]),
        FaultSite::PlanRepeatedAGroup => Recorder::new()
            .serving(1, 4)
            .submit(1, system(1))
            .armed(1, 1, &[1, 1]),
        FaultSite::PlanNamedAnUnreadyGroup => Recorder::new().serving(1, 4).armed(1, 1, &[1]),
        FaultSite::OfferOutsideThePlan => Recorder::new()
            .serving(1, 4)
            .submit(1, system(1))
            .armed(1, 1, &[1])
            .dispatched(1, 1, 2, 1, 1),
        FaultSite::OfferedTwiceInOnePass => Recorder::one_turn().dispatched(1, 1, 1, 2, 4),
        FaultSite::SkippedWhileAvailable => Recorder::new()
            .serving(1, 4)
            .submit(1, system(1))
            .armed(1, 1, &[1])
            .offered(1, 1, 1, OfferOutcome::Skipped(SkipReason::Stalled)),
        FaultSite::DispatchedWhileUnready => Recorder::new()
            .serving(1, 4)
            .submit(1, system(1))
            .armed(1, 1, &[1])
            .available(1, 1, stalled)
            .dispatched(1, 1, 1, 1, 1),
        FaultSite::DispatchOverQuota => Recorder::new()
            .serving(1, 1)
            .submit(1, system(1))
            .submit(1, system(1))
            .armed(1, 1, &[1])
            .dispatched(1, 1, 1, 2, 2),
        FaultSite::DispatchOverWorkerPool => {
            Recorder::with(SchedulerConfig::new(8, 1, 4, 16, 64).expect("bounds are valid"))
                .serving(1, 4)
                .serving(2, 4)
                .submit(1, system(3))
                .submit(2, system(3))
                .armed(1, 1, &[1, 2])
                .dispatched(1, 1, 1, 1, 3)
                .serviced(1, 1, 1)
                .dispatched(1, 1, 2, 1, 3)
                .serviced(1, 2, 2)
        }
        FaultSite::TurnLeftWorkQueued => Recorder::new()
            .serving(1, 4)
            .submit(1, system(1))
            .submit(1, system(1))
            .armed(1, 1, &[1])
            .dispatched(1, 1, 1, 1, 1)
            .serviced(1, 1, 1)
            .completed(1, 1),
        FaultSite::TurnMiscountedItsWork => Recorder::new()
            .serving(1, 4)
            .submit(1, system(1))
            .armed(1, 1, &[1])
            .dispatched(1, 1, 1, 2, 1)
            .serviced(1, 1, 1),
        FaultSite::TurnMispricedItsWork => Recorder::new()
            .serving(1, 4)
            .submit(1, system(1))
            .armed(1, 1, &[1])
            .dispatched(1, 1, 1, 1, 9)
            .serviced(1, 1, 1),
        FaultSite::ServiceOutsideATurn => Recorder::new()
            .serving(1, 4)
            .submit(1, system(1))
            .serviced(1, 1, 1),
        FaultSite::ServicePastTheTurnsWork => Recorder::one_turn().serviced(1, 1, 3),
        FaultSite::ServiceOutOfOrder => Recorder::new()
            .serving(1, 4)
            .submit(1, system(1))
            .submit(1, system(1))
            .armed(1, 1, &[1])
            .dispatched(1, 1, 1, 2, 2)
            .serviced(1, 1, 2)
            .serviced(1, 1, 1),
        FaultSite::RetiredTickReused => Recorder::new()
            .armed(1, 1, &[])
            .completed(1, 2)
            .armed(2, 2, &[])
            .completed(2, 2),
        FaultSite::RetiredWithNoPassOpen => Recorder::new().completed(1, 1),
        FaultSite::RetiredADifferentPass => Recorder::one_turn().completed(2, 1),
        FaultSite::RetiredWithATurnOwing => Recorder::new()
            .serving(1, 4)
            .submit(1, system(1))
            .armed(1, 1, &[1])
            .completed(1, 1),
        FaultSite::WidestOpportunityGap => Recorder::new()
            .serving(1, 4)
            .serving(2, 4)
            .submit(1, system(1))
            .submit(2, system(1))
            .armed(1, 1, &[1])
            .dispatched(1, 1, 1, 1, 1)
            .serviced(1, 1, 1)
            .completed(1, 1),
        FaultSite::OfferedAnUnknownGroup | FaultSite::WorkUnaccountedFor | FaultSite::EndOfSites => {
            unreachable!("no history reports this site first")
        }
    }
}

#[test]
fn every_fault_site_is_raised_by_exactly_one_check() {
    assert_eq!(FaultSite::ALL.len(), FaultSite::COUNT);
    let mut reported = 0;
    for (index, site) in FaultSite::ALL.iter().enumerate() {
        let named = FaultSite::ALL
            .iter()
            .filter(|other| format!("{other:?}") == format!("{site:?}"))
            .count();
        assert_eq!(named, 1, "{site:?} must be named once");
        assert_eq!(site.next(), FaultSite::ALL.get(index + 1).copied());
        // A planned group is always known, and no item is ever lost, so these two checks only ever
        // follow another one.
        if matches!(
            site,
            FaultSite::OfferedAnUnknownGroup | FaultSite::WorkUnaccountedFor
        ) {
            continue;
        }
        reported += 1;
        assert_eq!(violator(*site).fault(), Some(*site), "{site:?} has its check");
    }
    assert_eq!(reported, FaultSite::COUNT - 2);
    assert!(
        !FaultSite::ALL.contains(&FaultSite::EndOfSites),
        "the end marker is not a site, and no check may raise it"
    );
    assert_eq!(FaultSite::EndOfSites.next(), None);
}

#[test]
fn a_plan_that_names_an_unknown_group_is_faulted_before_its_offer() {
    let recorder = Recorder::new().armed(1, 1, &[3]).dispatched(1, 1, 3, 0, 0);
    let replay = recorder.scheduler.replay();
    assert_eq!(replay.fault, Some(FaultSite::PlanNamedAnUnreadyGroup));
    assert_eq!(
        replay.fairness,
        Err(SchedulingViolation::PlanIncludedUnreadyGroup {
            pass: pass(1),
            group: group(3)
        })
    );
}

#[test]
fn a_fair_history_is_certified_with_its_numbers() {
    let recorder = Recorder::one_turn().completed(1, 1).released(5, 1);
    let replay = recorder.scheduler.replay();
    assert_eq!(replay.fault, None);
    let report = replay.fairness.expect("the history is fair");
    assert_eq!(report.passes_armed, 1);
    assert_eq!(report.passes_completed, 1);
    assert_eq!(report.opportunities, 1);
    assert_eq!(report.serviced, 2);
    assert_eq!(report.widest_plan, 1);
    assert_eq!(report.widest_gap, 0);
    assert_eq!(replay.summary.admitted, 2);
    assert_eq!(replay.summary.serviced, 2);
    assert_eq!(replay.summary.queued, 0);
    assert_eq!(replay.services.len(), 2);
    assert_eq!(replay.services[0].work, work(1));
    assert_eq!(recorder.scheduler.audit(), Ok(report));
    assert_eq!(recorder.scheduler.view(), replay.view);
    assert_eq!(recorder.scheduler.summary(), replay.summary);
    assert_eq!(recorder.scheduler.len(), recorder.scheduler.history().len());
    assert!(!recorder.scheduler.is_empty());
}

#[test]
fn the_first_fault_stands_whatever_follows() {
    let recorder = Recorder::new()
        .completed(1, 1)
        .armed(7, 1, &[3])
        .completed(9, 0);
    assert_eq!(recorder.fault(), Some(FaultSite::RetiredWithNoPassOpen));
}

#[test]
fn an_omitted_ready_group_is_reported_with_its_widest_gap() {
    let mut recorder = Recorder::new()
        .serving(1, 4)
        .serving(2, 4)
        .submit(2, system(1));
    for index in 1..=3 {
        recorder = recorder
            .submit(1, system(1))
            .armed(index, 2 * index, &[1])
            .dispatched(index, 2 * index, 1, 1, 1)
            .serviced(index, 1, index + 1)
            .completed(index, 2 * index)
            .released(2 * index + 1, 1);
    }
    assert_eq!(
        recorder.scheduler.audit(),
        Err(SchedulingViolation::OpportunityGap {
            group: group(2),
            from_pass: pass(1),
            denied_passes: 3
        })
    );
}

#[test]
fn observations_are_not_folded() {
    let plain = Recorder::one_turn().completed(1, 1);
    let observed = Recorder::one_turn()
        .event(HistoryEvent::Unknown {
            operation_id: OperationId::new(5),
        })
        .event(HistoryEvent::NotAdmitted {
            operation_id: OperationId::new(6),
        })
        .event(HistoryEvent::Completed {
            operation_id: OperationId::new(4),
            outcome: OperationOutcome::Serviced(None),
        })
        .completed(1, 1);
    let a = plain.scheduler.replay();
    let b = observed.scheduler.replay();
    assert_eq!(a.view, b.view);
    assert_eq!(a.summary, b.summary);
    assert_eq!(a.fairness, b.fairness);
    assert_eq!(a.fault, b.fault);
}

#[test]
fn the_replay_answers_every_operation() {
    let command = CounterCommand::Add {
        delta: Delta::new(5).expect("delta is nonzero"),
    };
    let request = RequestIdentity {
        client_id: ClientId::new(1),
        session_epoch: SessionEpoch::new(1).expect("epoch is nonzero"),
        sequence: Sequence::first(),
        fingerprint: RequestFingerprint::of(&command),
    };
    let add = Work::Counter {
        request,
        command,
        cost: ServiceCost::new(1).expect("cost is nonzero"),
    };
    let recorder = Recorder::new()
        .serving(1, 2)
        .invoke(Operation::OpenSession {
            group: group(1),
            incarnation: GroupIncarnation::first(),
            client_id: ClientId::new(1),
            session_epoch: SessionEpoch::new(1).expect("epoch is nonzero"),
        })
        .submit(1, add)
        .submit(1, add)
        .armed(1, 1, &[1])
        .dispatched(1, 1, 1, 1, 1)
        .serviced(1, 1, 1)
        .completed(1, 1)
        .submit(1, add);
    let replay = recorder.scheduler.replay();
    assert_eq!(replay.fault, None);
    assert_eq!(replay.outcomes.len(), 7);
    assert!(matches!(
        replay.outcomes[0],
        OperationOutcome::Lifecycle(LifecycleOutcome::Created { .. })
    ));
    assert_eq!(
        replay.outcomes[4],
        OperationOutcome::Admission(AdmissionOutcome::Queued { work: work(1) })
    );
    assert_eq!(
        replay.outcomes[5],
        OperationOutcome::Admission(AdmissionOutcome::AlreadyQueued { work: work(1) })
    );
    assert_eq!(
        replay.outcomes[6],
        OperationOutcome::Admission(AdmissionOutcome::Replayed {
            result: CounterResult::Added { value: 5 }
        })
    );
    assert_eq!(replay.view.groups[0].counter, 5);
    assert_eq!(replay.view.groups[0].state, GroupLifecycle::Serving);
    assert!(replay.view.groups[0].servicing);
}

#[test]
fn a_faulty_item_poisons_its_group_in_the_replay() {
    let faulty = Work::Faulty {
        class: SystemClass::Control,
        cost: ServiceCost::new(1).expect("cost is nonzero"),
    };
    let recorder = Recorder::new()
        .serving(1, 4)
        .submit(1, faulty)
        .submit(1, system(1))
        .armed(1, 1, &[1])
        .dispatched(1, 1, 1, 1, 1)
        .serviced(1, 1, 1)
        .completed(1, 1)
        .lifecycle(1, LifecycleRequest::Drain);
    let replay = recorder.scheduler.replay();
    assert_eq!(replay.fault, None);
    assert_eq!(replay.summary.poisoned_groups, 1);
    assert_eq!(replay.failures.len(), 1);
    assert_eq!(replay.failures[0].work, work(2));
    assert_eq!(replay.summary.failed, 1);
    assert_eq!(replay.summary.admitted, 2);
}

#[test]
fn a_stall_broken_between_armings_is_owed_the_next_plan() {
    let recorder = Recorder::new()
        .serving(1, 4)
        .submit(1, system(1))
        .available(1, 1, GroupAvailability::Stalled)
        .available(1, 1, GroupAvailability::Available)
        .available(1, 1, GroupAvailability::Stalled)
        .armed(1, 1, &[])
        .completed(1, 1);
    assert_eq!(recorder.fault(), Some(FaultSite::WidestOpportunityGap));
    let held = Recorder::new()
        .serving(1, 4)
        .submit(1, system(1))
        .available(1, 1, GroupAvailability::Stalled)
        .armed(1, 1, &[])
        .completed(1, 1);
    assert_eq!(held.fault(), None);
}

#[test]
fn a_recorded_history_is_judged_like_one_observed_event_by_event() {
    let invoked = HistoryEvent::Invoked {
        operation_id: OperationId::new(1),
        operation: Operation::Lifecycle {
            group: group(1),
            request: LifecycleRequest::Recover,
        },
    };
    let unknown = HistoryEvent::Unknown {
        operation_id: OperationId::new(1),
    };
    assert!(invoked.is_request() && !invoked.is_observation());
    assert!(!unknown.is_request() && unknown.is_observation());
    let mut whole = ReferenceScheduler::new(config());
    whole.observe_all(vec![invoked.clone(), unknown.clone()]);
    let mut single = ReferenceScheduler::new(config());
    single.observe(invoked);
    single.observe(unknown);
    assert_eq!(whole.history(), single.history());
    assert_eq!(whole.len(), 2);
}

#[test]
fn no_group_is_denied_more_often_than_plans_were_armed() {
    let mut recorder = Recorder::new().serving(1, 4).submit(1, system(1));
    for plans in 1..6 {
        recorder = recorder.armed(plans, plans, &[]).completed(plans, plans);
        let replay = recorder.scheduler.replay();
        assert_eq!(
            replay.fairness,
            Err(SchedulingViolation::OpportunityGap {
                group: group(1),
                from_pass: pass(1),
                denied_passes: plans as u32,
            })
        );
        assert_eq!(replay.view, recorder.scheduler.view());
        assert_eq!(replay.summary, recorder.scheduler.summary());
        assert_eq!(replay.fairness, recorder.scheduler.audit());
    }
}
