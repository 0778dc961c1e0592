//! Replayable profiles: what they submit, and what they check.

use std::collections::VecDeque;

use rafter_reference_sharded_counter::adapter::audit::{AcceptanceAuditReport, ManagedMetrics};
use rafter_reference_sharded_counter::adapter::cluster::{
    AdmissionReceipt, AppliedItem, GroupReport,
};
use rafter_reference_sharded_counter::adapter::{
    CounterApplyResult, CounterSubmitOutcome, DriveReport, DriveTurn, DrivenDisposition,
    DrivenItem, ExpectedWork, ManagedCounterCluster, NetworkConfig, ProposalReceipt,
};
use rafter_reference_sharded_counter::profile::mixed::{audit_mixed, MixedAudit, MixedFault};
use rafter_reference_sharded_counter::profile::plan::{
    plan_workload, random_delta, replay_history, round_budget, selected_group, PlannedAdd,
    Profile, ProfileName, Rng,
};
use rafter_reference_sharded_counter::profile::script::{
    judge_conservation, judge_lifecycle, judge_poison, run, run_bounds, Expected, RunAction,
};
use rafter_reference_sharded_counter::profile::workload::{
    check_history, render_conservation, render_fairness, render_history, render_profile,
    render_summary, HistoryFault, Workload,
};
use rafter_reference_sharded_counter::{
    ClientId, CounterResult, GroupId, GroupIncarnation, LifecycleOutcome, LifecycleRejection,
    LifecycleRequest, SystemClass, WorkClass,
};

fn group(id: u32) -> GroupId {
    GroupId::new(id)
}

#[test]
fn profiles_have_their_documented_shapes() {
    let fast = Profile::named("counter-fast").expect("the profile exists");
    assert_eq!(fast.groups, 64);
    assert_eq!(fast.budget_ms, 30_000);
    assert_eq!(fast.default_seed, 0x6d5a_56da_6a51_7472);
    assert_eq!(
        Profile::named("counter-nightly").map(|profile| profile.groups),
        Some(1_024)
    );
    assert_eq!(
        Profile::named("counter-weekly").map(|profile| profile.groups),
        Some(4_096)
    );
    assert!(Profile::named("counter").is_none());
    assert_eq!(ProfileName::Nightly.as_str(), "counter-nightly");
}

#[test]
fn the_generator_is_the_xorshift_of_its_seed() {
    let mut rng = Rng::new(1);
    let reference = |mut state: u64| {
        state ^= state << 13;
        state ^= state >> 7;
        state ^= state << 17;
        state
    };
    let first = reference(1);
    assert_eq!(rng.next(), first);
    assert_eq!(rng.next(), reference(first));
    let mut rng = Rng::new(0x6d5a_56da_6a51_7472);
    for _ in 0..1000 {
        let delta = random_delta(&mut rng);
        assert!(delta != 0 && (-9..=9).contains(&delta));
    }
}

#[test]
fn groups_are_selected_and_rounds_bounded() {
    assert_eq!(selected_group(64, 0, 0, 7_919), group(1));
    assert_eq!(selected_group(64, 65, 1, 7_919), group((1 + 7_919) % 64 + 1));
    assert_eq!(round_budget(1), 256);
    assert_eq!(round_budget(4_096), 16_384);
}

#[test]
fn a_plan_is_a_function_of_its_profile_and_seed() {
    let fast = ProfileName::Fast.profile();
    let a = plan_workload(fast, 7);
    let b = plan_workload(fast, 7);
    let c = plan_workload(fast, 8);
    assert_eq!(a.baseline, b.baseline);
    assert_eq!(a.bursts, b.bursts);
    assert_eq!(a.slow, b.slow);
    assert_ne!(a.baseline, c.baseline);
    assert_eq!(a.baseline.len(), 64);
    assert_eq!(a.bursts.len(), 32);
    assert_eq!(a.pressure.len(), 8);
    assert_eq!(replay_history(&a), replay_history(&b));
    let text = replay_history(&a);
    assert!(text.starts_with("kind\tgroup\tclient\tsequence\tdetail\nadd\t1\t0\t1\tdelta="));
    assert!(text.ends_with("\t-\t-\tdrain,remove,tombstone,recreate-refusal\n"));
    assert_eq!(text.lines().count(), 1 + 64 + 32 + 16 + 2 + 2);
}

#[test]
fn a_run_submits_what_the_replay_history_lists() {
    let fast = ProfileName::Fast.profile();
    let plan = plan_workload(fast, 7);
    let script = run(fast, &plan);
    let submitted: Vec<PlannedAdd> = script
        .iter()
        .filter_map(|action| match action {
            RunAction::Add { add } => Some(*add),
            _ => None,
        })
        .collect();
    let mut listed = plan.baseline.clone();
    listed.extend(plan.bursts.iter().copied());
    assert_eq!(submitted, listed);
    assert_eq!(
        script[0],
        RunAction::Register { group_id: group(1) }
    );
    assert_eq!(script.last(), Some(&RunAction::Conservation));
    assert!(script.contains(&RunAction::Lifecycle {
        group_id: plan.tombstone,
        request: LifecycleRequest::Tombstone,
        expected: Expected::Accepted
    }));
    let bounds = run_bounds(fast).expect("the bounds fit");
    assert_eq!(bounds.global_queue, 64 * 16 + 128);
    assert_eq!(bounds.pending_messages, 64 * 128);
    assert_eq!(bounds.sessions, 5);
}

#[test]
fn outcomes_are_judged() {
    let created = LifecycleOutcome::Created {
        incarnation: GroupIncarnation::first(),
    };
    let tombstoned = LifecycleOutcome::Rejected(LifecycleRejection::GroupTombstoned);
    assert!(judge_lifecycle(Expected::Accepted, created));
    assert!(!judge_lifecycle(Expected::Accepted, tombstoned));
    assert!(judge_lifecycle(Expected::Tombstoned, tombstoned));
    assert!(!judge_lifecycle(
        Expected::Tombstoned,
        LifecycleOutcome::Rejected(LifecycleRejection::GroupUnknown)
    ));
    assert!(judge_poison(true, false));
    assert!(!judge_poison(true, true));
    let metrics = ManagedMetrics {
        queued: 1,
        in_flight_work: 2,
        occupied_workers: 0,
        admitted: 10,
        serviced: 4,
        failed: 3,
    };
    assert!(judge_conservation(metrics));
    assert!(!judge_conservation(ManagedMetrics {
        admitted: 11,
        ..metrics
    }));
    assert!(!judge_conservation(ManagedMetrics {
        occupied_workers: 1,
        ..metrics
    }));
}

fn queued(proposal_id: u64, work_id: u64) -> CounterSubmitOutcome {
    CounterSubmitOutcome::Queued(ProposalReceipt {
        admission: AdmissionReceipt {
            work_id,
            group_queue_depth: 1,
            global_queue_depth: 1,
        },
        proposal_id,
    })
}

fn add(id: u32, client: u32, delta: i64) -> PlannedAdd {
    PlannedAdd {
        group_id: group(id),
        client_id: ClientId::new(client),
        delta,
    }
}

#[test]
fn a_workload_expects_the_running_sum() {
    let mut workload = Workload::new();
    for (proposal, planned) in [(1, add(1, 0, 5)), (2, add(2, 0, 7)), (3, add(1, 0, -2))] {
        assert!(workload.takes(planned));
        let (request, _) = workload.next_request(planned);
        assert_eq!(request.session_epoch.get(), 1);
        workload
            .admit_add(planned, queued(proposal, proposal + 10))
            .expect("a fresh request is queued");
    }
    let history = workload.history();
    assert_eq!(history.len(), 3);
    assert_eq!(history[0].expected, 5);
    assert_eq!(history[1].expected, 7);
    assert_eq!(history[2].expected, 3);
    assert_eq!(history[2].sequence.get(), 2);
    assert_eq!(
        render_history(history).lines().nth(3),
        Some("3\t1\t0\t2\t-2\t3\tmatch")
    );
    let replayed = CounterSubmitOutcome::Replayed(CounterResult::Added { value: 1 });
    assert_eq!(workload.admit_add(add(1, 0, 1), replayed), Err(replayed));
    assert_eq!(workload.next_request(add(1, 0, 1)).0.sequence.get(), 4);
    workload.admit_system(group(2), SystemClass::Bulk, 99);
    let expectation = workload.expectation(2);
    assert_eq!(expectation.ready, vec![group(1), group(2)]);
    assert_eq!(expectation.accepted.len(), 4);
    assert_eq!(expectation.accepted[3].class, WorkClass::Bulk);
    assert_eq!(expectation.quotas.get(2), Some(4));
    assert!(workload.accepted().is_empty());
}

#[test]
fn a_history_is_checked_against_its_completions() {
    let mut cluster = ManagedCounterCluster::new(NetworkConfig {
        max_pending_messages: 4,
        max_sessions_per_group: 4,
    });
    assert_eq!(
        check_history(&cluster, &Vec::new()),
        Err(HistoryFault::Empty)
    );
    let mut workload = Workload::new();
    workload
        .admit_add(add(1, 0, 5), queued(8, 1))
        .expect("a fresh request is queued");
    assert!(matches!(
        check_history(&cluster, workload.history()),
        Err(HistoryFault::Mismatch { observed: None, entry }) if entry.proposal == 8
    ));
    let report = GroupReport {
        group_id: group(1),
        proposal_events: Vec::new(),
        applied: vec![AppliedItem {
            index: 1,
            result: CounterApplyResult::Counter(CounterResult::Added { value: 5 }),
            local_proposal_id: Some(8),
        }],
        peer_messages: VecDeque::new(),
    };
    assert_eq!(cluster.collect_report(report), Ok(()));
    assert_eq!(check_history(&cluster, workload.history()), Ok(()));
}

fn mixed_report() -> (Vec<ExpectedWork>, DriveReport) {
    let accepted = vec![
        ExpectedWork {
            work_id: 1,
            group_id: group(1),
            class: WorkClass::Command,
        },
        ExpectedWork {
            work_id: 2,
            group_id: group(2),
            class: WorkClass::Bulk,
        },
    ];
    let mut report = DriveReport::new();
    report.plans.push(vec![group(1), group(2)]);
    for work in &accepted {
        report.turns.push(DriveTurn {
            pass_id: 1,
            dispatch_id: work.work_id,
            group_id: work.group_id,
            items: vec![DrivenItem {
                work_id: work.work_id,
                class: work.class,
                disposition: DrivenDisposition::Serviced,
            }],
        });
    }
    (accepted, report)
}

#[test]
fn a_mixed_run_is_audited_with_its_numbers() {
    let (accepted, report) = mixed_report();
    let audit = audit_mixed(&accepted, &report).expect("the run is fair");
    assert_eq!(
        audit,
        MixedAudit {
            passes: 1,
            opportunities: 2,
            ready_width: 2,
            widest_gap: 0,
            observed_work: 2
        }
    );
}

#[test]
fn mixed_faults_are_told_apart() {
    let (accepted, report) = mixed_report();
    assert_eq!(
        audit_mixed(&Vec::new(), &report),
        Err(MixedFault::NoWork)
    );
    assert_eq!(
        audit_mixed(&accepted, &DriveReport::new()),
        Err(MixedFault::NoPass)
    );
    let mut other = mixed_report().1;
    other.plans[0] = vec![group(2), group(1)];
    assert_eq!(audit_mixed(&accepted, &other), Err(MixedFault::PlanMismatch));
    let mut idle = mixed_report().1;
    idle.turns.clear();
    assert_eq!(audit_mixed(&accepted, &idle), Err(MixedFault::NoTurns));
    let mut twice = mixed_report().1;
    let repeated = twice.turns[0].clone();
    twice.turns.push(repeated);
    assert_eq!(
        audit_mixed(&accepted, &twice),
        Err(MixedFault::OfferedTwice { group_id: group(1) })
    );
    let mut moved = mixed_report().1;
    moved.turns[0].items[0].class = WorkClass::Bulk;
    assert_eq!(
        audit_mixed(&accepted, &moved),
        Err(MixedFault::RouteChanged { work_id: 1 })
    );
    let mut lost = mixed_report().1;
    lost.turns[1].items.clear();
    assert_eq!(
        audit_mixed(&accepted, &lost),
        Err(MixedFault::Disappeared {
            accepted: 2,
            observed: 1
        })
    );
    let mut unordered = mixed_report().1;
    unordered.turns[0].items.insert(
        0,
        DrivenItem {
            work_id: 77,
            class: WorkClass::Bulk,
            disposition: DrivenDisposition::Serviced,
        },
    );
    assert_eq!(
        audit_mixed(&accepted, &unordered),
        Err(MixedFault::ClassOrder { group_id: group(1) })
    );
}

#[test]
fn artifacts_are_rendered_exactly() {
    let baseline = AcceptanceAuditReport {
        passes: 1,
        opportunities: 2,
        widest_gap: 0,
        ready_width: 2,
        admitted: 2,
        serviced: 2,
        failed: 0,
        queued: 0,
        in_flight: 0,
    };
    let mixed = MixedAudit {
        passes: 3,
        opportunities: 4,
        ready_width: 5,
        widest_gap: 0,
        observed_work: 6,
    };
    assert_eq!(
        render_fairness(baseline, mixed),
        "baseline_passes=1\nbaseline_opportunities=2\nbaseline_ready_width=2\n\
         baseline_widest_gap=0\nmixed_passes=3\nmixed_opportunities=4\nmixed_ready_width=5\n\
         mixed_widest_gap=0\nmixed_observed_work=6\n"
    );
    let metrics = ManagedMetrics {
        queued: 0,
        in_flight_work: 0,
        occupied_workers: 0,
        admitted: 5,
        serviced: 4,
        failed: 1,
    };
    assert_eq!(
        render_conservation(metrics),
        "admitted=5\nserviced=4\nfailed=1\nqueued=0\nin_flight=0\noccupied_workers=0\n\
         conserved=true\n"
    );
    let fast = ProfileName::Fast.profile();
    assert_eq!(
        render_summary(fast, 9, 10, 11),
        "status=green\nprofile=counter-fast\nseed=9\ngroups=64\nhistory_entries=10\n\
         completed_proposals=11\n"
    );
    assert_eq!(
        render_profile(fast),
        "name=counter-fast\ngroups=64\nhot_groups=8\nburst=4\npressure_groups=8\nslow_groups=2\n\
         workers=8\nbudget_ms=30000\n"
    );
}
