//! The managed scheduler and the reference scheduler that judges its recorded history.

use rafter_reference_sharded_counter::{
    AdmissionOutcome, ClientId, CounterCommand, CounterResult, Delta, FailureRecord, FaultSite,
    GroupId, GroupIncarnation, HistoryEvent, LifecycleOutcome, LifecycleRequest, ManagedScheduler,
    OfferOutcome, Operation, OperationId, OperationOutcome, PassProgress, ReadinessSignal,
    ReferenceScheduler, RequestFingerprint, RequestIdentity, SchedulerConfig, Sequence,
    ServiceCost, ServiceRecord, SessionEpoch, SkipReason, SystemClass, TickReport, Work, WorkId,
    WorkQuota,
};

fn group(id: u32) -> GroupId {
    GroupId::new(id)
}

fn first() -> GroupIncarnation {
    GroupIncarnation::first()
}

fn epoch() -> SessionEpoch {
    SessionEpoch::new(1).expect("epoch is nonzero")
}

fn work(id: u64) -> WorkId {
    WorkId::new(id).expect("work is nonzero")
}

fn system(class: SystemClass, cost: u32) -> Work {
    Work::System {
        class,
        cost: ServiceCost::new(cost).expect("cost is nonzero"),
    }
}

fn faulty() -> Work {
    Work::Faulty {
        class: SystemClass::Control,
        cost: ServiceCost::new(1).expect("cost is nonzero"),
    }
}

fn add(client: u32, sequence: u64, delta: i64) -> Work {
    let command = CounterCommand::Add {
        delta: Delta::new(delta).expect("delta is nonzero"),
    };
    Work::Counter {
        request: RequestIdentity {
            client_id: ClientId::new(client),
            session_epoch: epoch(),
            sequence: Sequence::new(sequence).expect("sequence is nonzero"),
            fingerprint: RequestFingerprint::of(&command),
        },
        command,
        cost: ServiceCost::new(1).expect("cost is nonzero"),
    }
}

/// A scheduler whose every call is recorded.
struct Recorded {
    scheduler: ManagedScheduler,
    events: Vec<HistoryEvent>,
    answers: Vec<OperationOutcome>,
    services: Vec<ServiceRecord>,
    failures: Vec<FailureRecord>,
    config: SchedulerConfig,
}

impl Recorded {
    fn new(workers: u32) -> Self {
        let config = SchedulerConfig::new(4, workers, 2, 4, 6).expect("bounds are valid");
        Self {
            scheduler: ManagedScheduler::new(config),
            events: Vec::new(),
            answers: Vec::new(),
            services: Vec::new(),
            failures: Vec::new(),
            config,
        }
    }

    fn invoke(&mut self, operation: Operation) -> OperationOutcome {
        self.events.push(HistoryEvent::Invoked {
            operation_id: OperationId::new(self.answers.len() as u64),
            operation,
        });
        let answer = match operation {
            Operation::Lifecycle { group, request } => {
                let transition = self.scheduler.lifecycle(group, request);
                self.failures.extend(transition.failed);
                OperationOutcome::Lifecycle(transition.outcome)
            }
            Operation::OpenSession {
                group,
                incarnation,
                client_id,
                session_epoch,
            } => OperationOutcome::Session(self.scheduler.open_session(
                group,
                incarnation,
                client_id,
                session_epoch,
            )),
            Operation::Submit {
                group,
                incarnation,
                work,
            } => OperationOutcome::Admission(self.scheduler.submit(group, incarnation, work)),
        };
        self.answers.push(answer);
        answer
    }

    fn lifecycle(&mut self, id: u32, request: LifecycleRequest) -> OperationOutcome {
        self.invoke(Operation::Lifecycle {
            group: group(id),
            request,
        })
    }

    fn serve(&mut self, id: u32, quota: u32) {
        let quota = WorkQuota::new(quota).expect("quota is nonzero");
        for request in [
            LifecycleRequest::Create { quota },
            LifecycleRequest::Recover,
            LifecycleRequest::Serve,
        ] {
            let answer = self.lifecycle(id, request);
            assert!(!matches!(
                answer,
                OperationOutcome::Lifecycle(LifecycleOutcome::Rejected(_))
            ));
        }
    }

    fn open(&mut self, id: u32, client: u32) {
        let _ = self.invoke(Operation::OpenSession {
            group: group(id),
            incarnation: first(),
            client_id: ClientId::new(client),
            session_epoch: epoch(),
        });
    }

    fn submit(&mut self, id: u32, work: Work) -> AdmissionOutcome {
        let answer = self.invoke(Operation::Submit {
            group: group(id),
            incarnation: first(),
            work,
        });
        match answer {
            OperationOutcome::Admission(outcome) => outcome,
            _ => panic!("a submission is answered at the admission gate"),
        }
    }

    fn step(&mut self, signals: &[ReadinessSignal]) -> TickReport {
        let report = self.scheduler.step(signals);
        let tick = report.tick;
        for signal in signals {
            self.events.push(HistoryEvent::AvailabilityReported {
                tick,
                group: signal.group,
                availability: signal.availability,
            });
        }
        for group in &report.released {
            self.events.push(HistoryEvent::WorkerReleased {
                tick,
                group: *group,
            });
        }
        if let (Some(pass), Some(plan)) = (report.pass, &report.armed) {
            self.events.push(HistoryEvent::PassArmed {
                pass,
                tick,
                plan: plan.clone(),
            });
        }
        let mut serviced = report.serviced.iter();
        for offer in &report.offers {
            let pass = report.pass.expect("a turn belongs to a pass");
            self.events.push(HistoryEvent::GroupOffered {
                pass,
                tick,
                group: offer.group,
                outcome: offer.outcome,
            });
            if let OfferOutcome::Dispatched { serviced: n, .. } = offer.outcome {
                for _ in 0..n {
                    let record = serviced.next().expect("every serviced item is reported");
                    self.events.push(HistoryEvent::WorkServiced {
                        pass,
                        group: record.group,
                        work: record.work,
                    });
                }
            }
        }
        if report.progress == PassProgress::Completed {
            self.events.push(HistoryEvent::PassCompleted {
                pass: report.pass.expect("a pass completed"),
                tick,
            });
        }
        self.services.extend(report.serviced.iter().copied());
        report
    }

    fn judge(&self) -> ReferenceScheduler {
        let mut judge = ReferenceScheduler::new(self.config);
        judge.observe_all(self.events.clone());
        judge
    }

    /// The judge derives everything the scheduler said.
    fn agrees(&self) {
        let replay = self.judge().replay();
        assert_eq!(replay.view, self.scheduler.view());
        assert_eq!(replay.summary, self.scheduler.summary());
        assert_eq!(replay.outcomes, self.answers);
        assert_eq!(replay.services, self.services);
        assert_eq!(replay.failures, self.failures);
    }

    /// A run that uses every operation, stalls a group and loses work to poison.
    fn busy() -> Self {
        let mut run = Self::new(1);
        for id in 0..3 {
            run.serve(id, 2);
            run.open(id, 0);
        }
        assert!(matches!(
            run.submit(0, add(0, 1, 5)),
            AdmissionOutcome::Queued { .. }
        ));
        let _ = run.submit(0, system(SystemClass::Bulk, 3));
        let _ = run.submit(1, faulty());
        let _ = run.submit(1, system(SystemClass::Bulk, 1));
        let _ = run.submit(2, system(SystemClass::Control, 1));
        run
    }
}

#[test]
fn the_judge_follows_the_scheduler_call_by_call() {
    let mut run = Recorded::busy();
    run.agrees();
    let _ = run.step(&[]);
    run.agrees();
    assert_eq!(run.scheduler.counter(group(0)), Some(5));
    let _ = run.step(&[ReadinessSignal::stalled(group(2))]);
    run.agrees();
    for _ in 0..8 {
        let _ = run.step(&[]);
        run.agrees();
    }
    let _ = run.step(&[ReadinessSignal::available(group(2))]);
    run.agrees();
    let _ = run.lifecycle(1, LifecycleRequest::Drain);
    run.agrees();
    for _ in 0..6 {
        let _ = run.step(&[]);
        run.agrees();
    }
    assert_eq!(run.failures.len(), 1);
    assert_eq!(run.judge().replay().fault, None);
    let report = run.judge().audit().expect("the run is certified");
    assert_eq!(report.serviced, run.services.len() as u64);
}

#[test]
fn a_new_judge_agrees_with_a_new_scheduler() {
    let run = Recorded::new(2);
    run.agrees();
    assert!(run.judge().audit().is_ok());
}

#[test]
fn a_relapse_is_the_one_thing_the_judge_counts_against_the_scheduler() {
    let mut run = Recorded::new(1);
    run.serve(1, 1);
    let _ = run.submit(1, system(SystemClass::Control, 1));
    let report = run.step(&[
        ReadinessSignal::stalled(group(1)),
        ReadinessSignal::available(group(1)),
        ReadinessSignal::stalled(group(1)),
    ]);
    assert_eq!(report.armed, None);
    run.agrees();
    for _ in 0..3 {
        run.serve_one_elsewhere();
    }
    run.agrees();
    assert_eq!(
        run.judge().replay().fault,
        Some(FaultSite::WidestOpportunityGap)
    );
}

impl Recorded {
    /// A pass over a group of its own, which leaves a stalled group out.
    fn serve_one_elsewhere(&mut self) {
        if self.scheduler.group(group(2)).is_none() {
            self.serve(2, 1);
        }
        let _ = self.submit(2, system(SystemClass::Control, 1));
        let _ = self.step(&[]);
        let _ = self.step(&[]);
    }
}

#[test]
fn a_pass_offers_its_plan_in_order_over_many_ticks() {
    let mut run = Recorded::new(1);
    for id in 0..3 {
        run.serve(id, 1);
        let _ = run.submit(id, system(SystemClass::Control, 2));
    }
    let armed = run.step(&[]);
    let plan = armed.armed.clone().expect("a plan is armed");
    assert_eq!(plan, vec![group(0), group(1), group(2)]);
    let mut offers = armed.offers;
    let mut ticks = 1;
    let mut end = armed.progress;
    while end != PassProgress::Completed {
        let signals = if ticks == 1 {
            vec![ReadinessSignal::stalled(group(2))]
        } else {
            Vec::new()
        };
        let report = run.step(&signals);
        assert_eq!(report.armed, None);
        assert_eq!(report.pass, armed.pass);
        offers.extend(report.offers);
        end = report.progress;
        ticks += 1;
    }
    assert!(ticks > 1);
    let turns: Vec<GroupId> = offers.iter().map(|offer| offer.group).collect();
    assert_eq!(turns, plan);
    assert_eq!(
        offers[2].outcome,
        OfferOutcome::Skipped(SkipReason::Stalled)
    );
    run.agrees();
}

#[test]
fn a_request_takes_effect_once_however_often_it_is_retried() {
    let mut run = Recorded::new(1);
    run.serve(0, 1);
    run.open(0, 0);
    let item = add(0, 1, 7);
    let queued = run.submit(0, item);
    assert_eq!(queued, AdmissionOutcome::Queued { work: work(1) });
    for _ in 0..3 {
        assert_eq!(
            run.submit(0, item),
            AdmissionOutcome::AlreadyQueued { work: work(1) }
        );
    }
    let _ = run.step(&[]);
    for _ in 0..3 {
        assert_eq!(
            run.submit(0, item),
            AdmissionOutcome::Replayed {
                result: CounterResult::Added { value: 7 }
            }
        );
        let _ = run.step(&[]);
    }
    assert_eq!(run.scheduler.counter(group(0)), Some(7));
    assert_eq!(run.scheduler.summary().admitted, 1);
    assert_eq!(run.services.len(), 1);
    run.agrees();
}

#[test]
fn the_kth_item_queued_has_the_kth_identifier() {
    let mut run = Recorded::new(2);
    run.serve(0, 2);
    run.serve(1, 2);
    let mut queued = 0;
    for k in 0..12 {
        match run.submit(k % 3, system(SystemClass::Bulk, 1)) {
            AdmissionOutcome::Queued { work: id } => {
                queued += 1;
                assert_eq!(id, work(queued));
            }
            AdmissionOutcome::Rejected(_) => {}
            other => panic!("a system item is queued or refused: {other:?}"),
        }
        if k % 4 == 3 {
            let _ = run.step(&[]);
        }
    }
    assert!(queued > 4);
    assert_eq!(run.scheduler.summary().admitted, queued);
    run.agrees();
}

#[test]
fn what_callers_concluded_changes_no_replay() {
    let mut run = Recorded::busy();
    for _ in 0..4 {
        let _ = run.step(&[]);
    }
    let plain = run.judge().replay();
    let mut told = ReferenceScheduler::new(run.config);
    for (k, event) in run.events.iter().enumerate() {
        told.observe(HistoryEvent::Unknown {
            operation_id: OperationId::new(k as u64),
        });
        told.observe(event.clone());
        told.observe(HistoryEvent::Completed {
            operation_id: OperationId::new(k as u64),
            outcome: OperationOutcome::Serviced(None),
        });
    }
    let other = told.replay();
    assert_eq!(plain.view, other.view);
    assert_eq!(plain.summary, other.summary);
    assert_eq!(plain.outcomes, other.outcomes);
    assert_eq!(plain.services, other.services);
    assert_eq!(plain.failures, other.failures);
    assert_eq!(plain.fairness, other.fairness);
    assert_eq!(plain.fault, other.fault);
}

#[test]
fn a_fault_is_named_exactly_where_the_audit_fails() {
    let mut run = Recorded::busy();
    for _ in 0..4 {
        let _ = run.step(&[]);
    }
    for n in 0..=run.events.len() {
        let mut judge = ReferenceScheduler::new(run.config);
        judge.observe_all(run.events[..n].to_vec());
        let replay = judge.replay();
        assert_eq!(replay.fault.is_some(), judge.audit().is_err());
        assert_eq!(replay.fairness, judge.audit());
    }
}

#[test]
fn a_reported_fault_is_final() {
    let mut run = Recorded::busy();
    run.events.push(HistoryEvent::WorkerReleased {
        tick: run.scheduler.tick(),
        group: group(0),
    });
    let before = run.judge().replay();
    assert!(before.fault.is_some());
    assert_ne!(before.fault, Some(FaultSite::WidestOpportunityGap));
    for _ in 0..4 {
        let _ = run.step(&[]);
        let after = run.judge().replay();
        assert_eq!(after.fault, before.fault);
        assert_eq!(after.fairness, before.fairness);
    }
}

#[test]
fn the_books_of_a_replay_balance() {
    let mut run = Recorded::busy();
    for _ in 0..6 {
        let _ = run.step(&[]);
    }
    let _ = run.lifecycle(1, LifecycleRequest::Drain);
    let replay = run.judge().replay();
    let queued = replay
        .outcomes
        .iter()
        .filter(|outcome| {
            matches!(
                outcome,
                OperationOutcome::Admission(AdmissionOutcome::Queued { .. })
            )
        })
        .count() as u64;
    assert_eq!(replay.summary.admitted, queued);
    assert_eq!(replay.summary.serviced, replay.services.len() as u64);
    assert_eq!(replay.summary.failed, replay.failures.len() as u64);
    assert_eq!(
        replay.summary.admitted,
        replay.summary.serviced + replay.summary.failed + u64::from(replay.summary.queued)
    );
    let mut settled: Vec<WorkId> = replay
        .services
        .iter()
        .map(|record| record.work)
        .chain(replay.failures.iter().map(|record| record.work))
        .collect();
    settled.sort();
    let n = settled.len();
    settled.dedup();
    assert_eq!(settled.len(), n);
    assert!(n > 0 && !replay.failures.is_empty());
}
