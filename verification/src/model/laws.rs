//! Laws of the managed scheduler, stated over its mathematical model.

use vstd::prelude::*;

use crate::model::reachable::{
    core_inv, group_ok, held, holds, inv, lemma_all_signalled_inv, lemma_awake_inv,
    lemma_core_frame, lemma_ids_where, lemma_plan_order, lemma_served, lemma_total_bounds,
    lemma_turn_len, owed, plan_ok, queue_ok, total_queued,
};
use crate::model::state::{
    failure_records, find_session, first_free, is_session_of, lemma_service_order,
    lemma_session_found, session_answer, ClassQueues, Completed, Dispatch, GroupState, PlanState,
    QueuedWork, ReportState, SchedulerState, Session,
};
use crate::types::{
    fingerprint_of, AdmissionOutcome, AdmissionRejection, ClientId, CounterCommand,
    GroupAvailability, GroupId, GroupIncarnation, GroupLifecycle, LifecycleOutcome,
    LifecycleRejection, LifecycleRequest, Offer, OfferOutcome, ReadinessSignal, RequestIdentity,
    SchedulerConfig, ServiceCost, SessionEpoch, SessionOutcome, SkipReason, Work, WorkClass,
    WorkQuota,
};

verus! {

/// A new scheduler is in a reachable state.
pub proof fn law_initial_state_reachable(config: SchedulerConfig)
    requires
        config.valid(),
    ensures
        inv(SchedulerState::initial(config)),
{
}

/// Accepted work is never lost: every admitted item has been serviced, was reported as failed, or
/// is still queued in exactly one group.
pub proof fn law_work_conserved(s: SchedulerState)
    requires
        inv(s),
    ensures
        s.admitted == s.serviced + s.failed + s.queued,
        s.queued == total_queued(s.slots),
{
}

/// Queue bounds hold in every state, for each group and for the host.
pub proof fn law_queues_bounded(s: SchedulerState, group: GroupId)
    requires
        inv(s),
    ensures
        s.queued <= s.config.global_queue_bound(),
        s.slot(group) is Some ==> s.slot(group)->0.queue.len() <= s.config.group_queue_bound(),
{
}

/// A pass armed now is owed to every ready group exactly once and to nobody else.
pub proof fn law_plan_is_the_ready_set(s: SchedulerState)
    requires
        inv(s),
    ensures
        forall|group: GroupId| #[trigger] s.plan_order().contains(group) <==> s.ready(group@ as int),
        forall|i: int, j: int|
            0 <= i < j < s.plan_order().len() ==> s.plan_order()[i] != s.plan_order()[j],
{
    lemma_plan_order(s);
    assert forall|group: GroupId| #[trigger] s.plan_order().contains(group) <==> s.ready(
        group@ as int,
    ) by {
        assert(group == GroupId::at(group@ as int));
        if s.plan_order().contains(group) {
            let i = choose|i: int| 0 <= i < s.plan_order().len() && s.plan_order()[i] == group;
            assert(s.ready(s.plan_order()[i]@ as int));
        }
    }
}

/// Groups the offers of a report went to.
pub open spec fn offered_groups(offers: Seq<Offer>) -> Seq<GroupId> {
    Seq::new(offers.len(), |i: int| offers[i].group)
}

/// A pass hands out turns in plan order, one per entry, and stops only at the end of the plan or
/// when no worker is free: the turns of this tick are the plan's entries from where it stood to
/// where it stands.
pub proof fn law_turns_follow_the_plan(s: SchedulerState, plan: PlanState, report: ReportState)
    requires
        plan.next <= plan.entries.len(),
    ensures
        ({
            let (after, told) = s.traversed(plan, report);
            let reached = if told.progress is Completed {
                plan.entries.len() as int
            } else {
                after.plan->0.next as int
            };
            &&& plan.next <= reached <= plan.entries.len()
            &&& offered_groups(told.offers) == offered_groups(report.offers)
                + plan.entries.subrange(plan.next as int, reached)
            &&& told.progress is Completed || told.progress is Suspended
            &&& told.progress is Completed ==> after.plan is None
            &&& told.progress is Suspended ==> {
                &&& after.plan == Some(PlanState { next: reached as nat, ..plan })
                &&& reached < plan.entries.len()
                &&& first_free(after.workers, 0) is None
            }
        }),
    decreases plan.entries.len() - plan.next,
{
    if plan.next >= plan.entries.len() {
        assert(plan.entries.subrange(plan.next as int, plan.entries.len() as int)
            =~= Seq::<GroupId>::empty());
        assert(offered_groups(report.offers) + Seq::<GroupId>::empty() =~= offered_groups(
            report.offers,
        ));
    } else {
        match first_free(s.workers, 0) {
            None => {
                assert(plan.entries.subrange(plan.next as int, plan.next as int) =~= Seq::<
                    GroupId,
                >::empty());
                assert(offered_groups(report.offers) + Seq::<GroupId>::empty() =~= offered_groups(
                    report.offers,
                ));
            },
            Some(worker) => {
                let group = plan.entries[plan.next as int];
                let next = PlanState { next: plan.next + 1, ..plan };
                let more = ReportState {
                    offers: report.offers.push(Offer { group, outcome: s.offer_outcome(group) }),
                    serviced: report.serviced + s.offer_records(group),
                    ..report
                };
                law_turns_follow_the_plan(s.offered(group, worker), next, more);
                let (after, told) = s.traversed(plan, report);
                let reached = if told.progress is Completed {
                    plan.entries.len() as int
                } else {
                    after.plan->0.next as int
                };
                assert(offered_groups(more.offers) =~= offered_groups(report.offers).push(group));
                assert(offered_groups(report.offers).push(group) + plan.entries.subrange(
                    plan.next as int + 1,
                    reached,
                ) =~= offered_groups(report.offers) + plan.entries.subrange(
                    plan.next as int,
                    reached,
                ));
            },
        }
    }
}

/// A pass in progress is finished before another is armed, and keeps its order while it is
/// suspended.
pub proof fn law_open_pass_is_resumed(s: SchedulerState, signals: Seq<ReadinessSignal>)
    requires
        inv(s),
        s.tick < u64::MAX,
        s.plan is Some,
    ensures
        ({
            let (after, told) = s.stepped(signals);
            let plan = s.plan->0;
            &&& told.armed is None
            &&& told.pass == Some(plan.pass)
            &&& after.next_pass == s.next_pass
            &&& told.progress is Suspended ==> after.plan is Some && after.plan->0.pass == plan.pass
                && after.plan->0.entries == plan.entries && after.plan->0.next >= plan.next
            &&& told.progress is Completed ==> offered_groups(told.offers) == plan.entries.skip(
                plan.next as int,
            )
        }),
{
    lemma_awake_inv(s, signals);
    let awake = s.awake(signals);
    let plan = awake.plan->0;
    let idle = SchedulerState { plan: None, ..awake };
    let report = ReportState { pass: Some(plan.pass), ..s.opening_report(signals) };
    law_turns_follow_the_plan(idle, plan, report);
    lemma_traversal_frame(idle, plan, report);
    let (after, told) = idle.traversed(plan, report);
    assert(offered_groups(report.offers) =~= Seq::<GroupId>::empty());
    if told.progress is Completed {
        assert(plan.entries.subrange(plan.next as int, plan.entries.len() as int)
            =~= plan.entries.skip(plan.next as int));
        assert(Seq::<GroupId>::empty() + plan.entries.skip(plan.next as int)
            =~= plan.entries.skip(plan.next as int));
    }
}

/// Traversing a pass changes neither its identity in the report nor what will be armed next.
pub proof fn lemma_traversal_frame(s: SchedulerState, plan: PlanState, report: ReportState)
    ensures
        ({
            let (after, told) = s.traversed(plan, report);
            &&& told.pass == report.pass
            &&& told.armed == report.armed
            &&& told.tick == report.tick
            &&& told.released == report.released
            &&& after.next_pass == s.next_pass
            &&& after.config == s.config
            &&& after.tick == s.tick
            &&& after.admitted == s.admitted
            &&& after.failed == s.failed
            &&& after.next_work == s.next_work
        }),
    decreases plan.entries.len() - plan.next,
{
    if plan.next < plan.entries.len() {
        match first_free(s.workers, 0) {
            None => {},
            Some(worker) => {
                let group = plan.entries[plan.next as int];
                lemma_traversal_frame(
                    s.offered(group, worker),
                    PlanState { next: plan.next + 1, ..plan },
                    ReportState {
                        offers: report.offers.push(
                            Offer { group, outcome: s.offer_outcome(group) },
                        ),
                        serviced: report.serviced + s.offer_records(group),
                        ..report
                    },
                );
            },
        }
    }
}

/// A group whose turn comes takes it unless an external report stalled it: the turn services at
/// least one item, never more than the quota, and costs exactly what its items cost.
pub proof fn law_turn_is_taken_unless_stalled(s: SchedulerState, plan: PlanState)
    requires
        core_inv(s),
        plan_ok(s, plan),
        plan.next < plan.entries.len(),
    ensures
        ({
            let group = plan.entries[plan.next as int];
            let slot = s.slot(group)->0;
            match s.offer_outcome(group) {
                OfferOutcome::Skipped(reason) => slot.stalled && reason == SkipReason::Stalled,
                OfferOutcome::Dispatched { serviced, cost } => {
                    &&& !slot.stalled
                    &&& 0 < serviced <= slot.quota@
                    &&& serviced == slot.turn_len()
                    &&& cost == slot.served_cost(slot.turn_len())
                    &&& serviced <= cost
                    &&& s.offer_records(group).len() == serviced
                },
            }
        }),
{
    let group = plan.entries[plan.next as int];
    let slot = s.slot(group)->0;
    assert(owed(slot));
    assert(group_ok(slot, s.config, s.next_work));
    if !slot.stalled {
        lemma_turn_len(slot, 0, s.config, s.next_work);
        let n = slot.turn_len();
        lemma_served(slot, group, n, s.config, s.next_work);
        assert(n * 0xffff_ffff <= 0xffff_ffff * 0xffff_ffff) by (nonlinear_arith)
            requires
                n <= 0xffff_ffff,
        ;
    }
}

/// The turn of one group reads and changes nothing of any other: a hot, slow, or poisoned group
/// costs its neighbours neither state nor work.
pub proof fn law_turn_is_isolated(s: SchedulerState, group: GroupId, worker: int, other: GroupId)
    requires
        s.slot(group) is Some,
        other != group,
    ensures
        s.offered(group, worker).slot(other) == s.slot(other),
{
}

/// Admission and administration of one group change no other group.
pub proof fn law_requests_are_isolated(
    s: SchedulerState,
    group: GroupId,
    incarnation: GroupIncarnation,
    client: ClientId,
    epoch: SessionEpoch,
    work: Work,
    request: LifecycleRequest,
    other: GroupId,
)
    requires
        other != group,
    ensures
        s.submit(group, incarnation, work).slot(other) == s.slot(other),
        s.open_session(group, incarnation, client, epoch).slot(other) == s.slot(other),
        s.lifecycle(group, request).0.slot(other) == s.slot(other),
{
}

/// A quota decides how much a group does with its turn, never who is given one.
pub proof fn law_quota_does_not_move_the_plan(s: SchedulerState, group: GroupId, quota: WorkQuota)
    requires
        s.slots.len() <= u32::MAX,
        s.slot(group) is Some,
    ensures
        s.with_slot(group, GroupState { quota, ..s.slot(group)->0 }).plan_order()
            == s.plan_order(),
{
    let t = s.with_slot(group, GroupState { quota, ..s.slot(group)->0 });
    lemma_same_ready(s, t);
}

/// The number of workers, and which of them are held, never change who is given a turn.
pub proof fn law_workers_do_not_move_the_plan(s: SchedulerState, workers: Seq<Option<Dispatch>>)
    ensures
        (SchedulerState { workers, ..s }).plan_order() == s.plan_order(),
{
    lemma_same_ready(s, SchedulerState { workers, ..s });
}

/// States that agree on who is ready and where the cursor stands arm the same plan.
pub proof fn lemma_same_ready(s: SchedulerState, t: SchedulerState)
    requires
        s.slots.len() == t.slots.len(),
        s.cursor == t.cursor,
        forall|id: int| #[trigger] s.ready(id) == t.ready(id),
    ensures
        s.plan_order() == t.plan_order(),
{
    let left = |id: int| s.ready(id);
    let right = |id: int| t.ready(id);
    assert(left =~= right) by {
        assert forall|id: int| #[trigger] left(id) == right(id) by {
            assert(s.ready(id) == t.ready(id));
        }
    }
}

/// Readiness reports are applied before a plan is armed: a group whose last report at this tick
/// is a stall is not in a plan armed at this tick.
pub proof fn law_stalled_group_is_not_armed(
    s: SchedulerState,
    signals: Seq<ReadinessSignal>,
    group: GroupId,
)
    requires
        inv(s),
        s.tick < u64::MAX,
        signals.len() > 0,
        signals.last() == (ReadinessSignal { group, availability: GroupAvailability::Stalled }),
    ensures
        !s.awake(signals).plan_order().contains(group),
        s.awake(signals).slot(group) is Some ==> s.awake(signals).slot(group)->0.stalled,
{
    let ticked = SchedulerState { tick: (s.tick + 1) as u64, ..s };
    lemma_core_frame(s, ticked);
    lemma_all_signalled_inv(ticked, signals.drop_last());
    lemma_awake_inv(s, signals);
    let awake = s.awake(signals);
    lemma_plan_order(awake);
    if awake.plan_order().contains(group) {
        let i = choose|i: int| 0 <= i < awake.plan_order().len() && awake.plan_order()[i] == group;
        assert(awake.ready(awake.plan_order()[i]@ as int));
    }
}

/// A worker is given back exactly when its cost is paid, and its group with it.
pub proof fn law_release_is_exact(s: SchedulerState)
    requires
        inv(s),
    ensures
        forall|w: int|
            0 <= w < s.workers.len() ==> #[trigger] s.released().workers[w] == (if s.worker_due(w) {
                None
            } else {
                s.workers[w]
            }),
        forall|id: int|
            0 <= id < s.slots.len() && (#[trigger] s.released().slots[id]) is Some
                && s.slots[id]->0.servicing && !s.released().slots[id]->0.servicing
                ==> s.group_due(id),
        forall|group: GroupId| #[trigger] s.due_ids().contains(group) <==> s.group_due(group@ as int),
{
    let pred = |id: int| s.group_due(id);
    lemma_ids_where(0, s.slots.len() as int, pred);
    assert forall|group: GroupId| #[trigger] s.due_ids().contains(group) <==> s.group_due(
        group@ as int,
    ) by {
        assert(group == GroupId::at(group@ as int));
        if s.due_ids().contains(group) {
            let i = choose|i: int| 0 <= i < s.due_ids().len() && s.due_ids()[i] == group;
            assert(pred(s.due_ids()[i]@ as int));
        }
        if s.group_due(group@ as int) {
            let w = choose|w: int|
                #[trigger] s.worker_due(w) && s.workers[w]->0.group@ == group@;
            assert(s.workers[w] is Some);
            assert(pred(group@ as int));
        }
    }
}

/// Nobody holds two workers, and a group that holds one is in no plan until it is released.
pub proof fn law_one_worker_per_group(s: SchedulerState, group: GroupId)
    requires
        inv(s),
        s.slot(group) is Some,
    ensures
        s.slot(group)->0.servicing <==> held(s, group@ as int),
        s.slot(group)->0.servicing ==> !s.ready(group@ as int),
        forall|v: int, w: int|
            holds(s, v, group@ as int) && holds(
                s,
                w,
                group@ as int,
            ) ==> v == w,
{
    if held(s, group@ as int) {
        let w = choose|w: int| holds(s, w, group@ as int);
        assert(s.workers[w] is Some);
    }
}

// -------------------------------------------------------------------- admission

/// A submission that takes no queue slot changes nothing, and consumes neither a sequence nor an
/// identifier.
pub proof fn law_refused_submission_changes_nothing(
    s: SchedulerState,
    group: GroupId,
    incarnation: GroupIncarnation,
    work: Work,
)
    ensures
        !(s.submit_outcome(group, incarnation, work) is Queued) ==> s.submit(
            group,
            incarnation,
            work,
        ) == s,
{
}

/// A session request that opens nothing changes nothing.
pub proof fn law_refused_session_changes_nothing(
    s: SchedulerState,
    group: GroupId,
    incarnation: GroupIncarnation,
    client: ClientId,
    epoch: SessionEpoch,
)
    ensures
        ({
            let outcome = s.session_outcome(group, incarnation, client, epoch);
            outcome is Rejected || outcome is AlreadyOpen ==> s.open_session(
                group,
                incarnation,
                client,
                epoch,
            ) == s
        }),
{
}

/// Admission spends identifiers one at a time and never reuses one.
pub proof fn law_identifiers_rise(
    s: SchedulerState,
    group: GroupId,
    incarnation: GroupIncarnation,
    work: Work,
)
    requires
        inv(s),
        s.submit_outcome(group, incarnation, work) is Queued,
        s.next_work < u64::MAX,
    ensures
        s.submit_outcome(group, incarnation, work)->Queued_work@ == s.next_work,
        s.submit(group, incarnation, work).next_work == s.next_work + 1,
        forall|id: int, class: WorkClass, i: int|
            0 <= id < s.slots.len() && s.slots[id] is Some && 0 <= i
                < s.slots[id]->0.queue.of_class(class).len() ==> (
            #[trigger] s.slots[id]->0.queue.of_class(class)[i]).id@ < s.next_work,
{
    assert forall|id: int, class: WorkClass, i: int|
        0 <= id < s.slots.len() && s.slots[id] is Some && 0 <= i
            < s.slots[id]->0.queue.of_class(class).len() implies (
    #[trigger] s.slots[id]->0.queue.of_class(class)[i]).id@ < s.next_work by {
        assert(group_ok(s.slots[id]->0, s.config, s.next_work));
    }
}

/// Traffic that names a retired incarnation is refused, whatever state the slot is in, and leaves
/// no trace; traffic that names a later one is refused too.
pub proof fn law_incarnation_gates_traffic(
    s: SchedulerState,
    group: GroupId,
    incarnation: GroupIncarnation,
    work: Work,
    client: ClientId,
    epoch: SessionEpoch,
)
    requires
        inv(s),
        s.slot(group) is Some,
        !(s.slot(group)->0.state is Tombstoned),
        incarnation@ != s.slot(group)->0.incarnation@,
    ensures
        ({
            let current = s.slot(group)->0.incarnation;
            let refusal = if incarnation@ < current@ {
                AdmissionRejection::StaleIncarnation { current }
            } else {
                AdmissionRejection::FutureIncarnation { current }
            };
            &&& s.submit_outcome(group, incarnation, work) == AdmissionOutcome::Rejected(refusal)
            &&& s.submit(group, incarnation, work) == s
            &&& s.session_outcome(group, incarnation, client, epoch) == SessionOutcome::Rejected(
                refusal,
            )
            &&& s.open_session(group, incarnation, client, epoch) == s
        }),
{
}

/// Reopening a removed slot carries a strictly greater incarnation, so what was addressed to the
/// old one never lands on its replacement.
pub proof fn law_reopened_slot_refuses_late_traffic(
    s: SchedulerState,
    group: GroupId,
    quota: WorkQuota,
    work: Work,
)
    requires
        inv(s),
        quota.valid(),
        s.slot(group) is Some,
        s.slot(group)->0.state is Removed,
        s.slot(group)->0.incarnation@ < u32::MAX,
    ensures
        ({
            let old = s.slot(group)->0.incarnation;
            let t = s.lifecycle(group, LifecycleRequest::Create { quota }).0;
            &&& t.slot(group) is Some
            &&& t.slot(group)->0.incarnation@ == old@ + 1
            &&& t.submit_outcome(group, old, work) == AdmissionOutcome::Rejected(
                AdmissionRejection::StaleIncarnation { current: t.slot(group)->0.incarnation },
            )
            &&& t.submit(group, old, work) == t
        }),
{
}

/// An exact retry of a queued request is answered with the item that holds the slot, and takes no
/// second one.
pub proof fn law_exact_retry_takes_no_slot(
    s: SchedulerState,
    group: GroupId,
    incarnation: GroupIncarnation,
    request: RequestIdentity,
    command: CounterCommand,
    cost: ServiceCost,
    again: ServiceCost,
)
    requires
        inv(s),
        s.next_work < u64::MAX,
        s.submit_outcome(group, incarnation, Work::Counter { request, command, cost }) is Queued,
    ensures
        ({
            let first = Work::Counter { request, command, cost };
            let retry = Work::Counter { request, command, cost: again };
            let t = s.submit(group, incarnation, first);
            &&& t.submit_outcome(group, incarnation, retry) == AdmissionOutcome::AlreadyQueued {
                work: s.submit_outcome(group, incarnation, first)->Queued_work,
            }
            &&& t.submit(group, incarnation, retry) == t
        }),
{
    let first = Work::Counter { request, command, cost };
    let slot = s.slot(group)->0;
    let t = s.submit(group, incarnation, first);
    let next = t.slot(group)->0;
    let i = find_session(slot.sessions, request.client_id)->0;
    assert(is_session_of(slot.sessions, request.client_id, i));
    assert(is_session_of(next.sessions, request.client_id, i));
    lemma_session_found(next.sessions, request.client_id, i);
}

/// A completed request is confirmed from the session cache, whatever the queues hold: also when
/// every queue is full.
pub proof fn law_completed_request_is_replayed(
    s: SchedulerState,
    group: GroupId,
    request: RequestIdentity,
    command: CounterCommand,
    cost: ServiceCost,
    i: int,
)
    requires
        inv(s),
        s.slot(group) is Some,
        s.slot(group)->0.state is Serving,
        !s.slot(group)->0.poisoned,
        is_session_of(s.slot(group)->0.sessions, request.client_id, i),
        s.slot(group)->0.sessions[i].epoch == request.session_epoch,
        request.fingerprint@ == fingerprint_of(command),
        s.slot(group)->0.sessions[i].completed matches Some(done) && done.sequence
            == request.sequence && done.command == command,
    ensures
        s.submit_outcome(
            group,
            s.slot(group)->0.incarnation,
            Work::Counter { request, command, cost },
        ) == (AdmissionOutcome::Replayed {
            result: s.slot(group)->0.sessions[i].completed->0.result,
        }),
        s.submit(
            group,
            s.slot(group)->0.incarnation,
            Work::Counter { request, command, cost },
        ) == s,
{
    lemma_session_found(s.slot(group)->0.sessions, request.client_id, i);
}

/// Servicing a request the session still waits for settles the session with the exact result the
/// service reported.
pub proof fn law_service_settles_the_session(
    g: GroupState,
    group: GroupId,
    item: QueuedWork,
    i: int,
)
    requires
        item.work is Counter,
        is_session_of(g.sessions, item.work->Counter_request.client_id, i),
        g.sessions[i].epoch == item.work->Counter_request.session_epoch,
        g.sessions[i].outstanding is Some,
        g.sessions[i].outstanding->0.work == item.id,
    ensures
        ({
            let after = g.applied(item).sessions[i];
            let record = g.record_of(group, item);
            &&& after.outstanding is None
            &&& after.completed == Some(
                Completed {
                    sequence: item.work->Counter_request.sequence,
                    command: item.work->Counter_command,
                    result: record.result->0,
                },
            )
        }),
{
    lemma_session_found(g.sessions, item.work->Counter_request.client_id, i);
}

/// No session refuses a request for an exhausted sequence space: the only request past the last
/// sequence would have to name a greater number than there is.
pub proof fn law_sequence_space_never_refuses(
    session: Session,
    request: RequestIdentity,
    command: CounterCommand,
)
    ensures
        session_answer(session, request, command) != Some(
            AdmissionOutcome::Rejected(AdmissionRejection::SequenceExhausted),
        ),
{
}

/// A greater session epoch forgets what the session knew and keeps what the group accepted.
pub proof fn law_replaced_session_keeps_work(
    s: SchedulerState,
    group: GroupId,
    incarnation: GroupIncarnation,
    client: ClientId,
    epoch: SessionEpoch,
)
    requires
        s.session_outcome(group, incarnation, client, epoch) is Replaced,
    ensures
        ({
            let t = s.open_session(group, incarnation, client, epoch);
            let i = find_session(s.slot(group)->0.sessions, client)->0;
            &&& t.slot(group)->0.queue == s.slot(group)->0.queue
            &&& t.slot(group)->0.counter == s.slot(group)->0.counter
            &&& t.slot(group)->0.sessions[i] == (Session {
                client_id: client,
                epoch,
                outstanding: None,
                completed: None,
            })
        }),
{
    let sessions = s.slot(group)->0.sessions;
    assert(is_session_of(sessions, client, find_session(sessions, client)->0));
}

// -------------------------------------------------------------------- lifecycle

/// A refused lifecycle request changes no slot, retires nothing, and issues nothing.
pub proof fn law_refused_transition_changes_nothing(
    s: SchedulerState,
    group: GroupId,
    request: LifecycleRequest,
    other: GroupId,
)
    requires
        s.lifecycle(group, request).1 is Rejected,
    ensures
        s.lifecycle(group, request).0.slot(other) == s.slot(other),
        s.lifecycle(group, request).2.len() == 0,
        s.lifecycle(group, request).0.queued == s.queued,
        s.lifecycle(group, request).0.failed == s.failed,
        s.lifecycle(group, request).0.plan == s.plan,
{
}

/// No request moves an incarnation backwards, and only a reopening moves it at all.
pub proof fn law_incarnation_only_rises(s: SchedulerState, group: GroupId, request: LifecycleRequest)
    requires
        s.slot(group) is Some,
    ensures
        ({
            let t = s.lifecycle(group, request).0;
            &&& t.slot(group) is Some
            &&& s.slot(group)->0.incarnation@ <= t.slot(group)->0.incarnation@
            &&& t.slot(group)->0.incarnation != s.slot(group)->0.incarnation ==> {
                &&& request is Create
                &&& s.slot(group)->0.state is Removed
                &&& t.slot(group)->0.incarnation@ == s.slot(group)->0.incarnation@ + 1
            }
        }),
{
}

/// A tombstone is permanent: no request changes the slot again.
pub proof fn law_tombstone_is_permanent(
    s: SchedulerState,
    group: GroupId,
    request: LifecycleRequest,
    incarnation: GroupIncarnation,
    work: Work,
)
    requires
        inv(s),
        s.slot(group) is Some,
        s.slot(group)->0.state is Tombstoned,
    ensures
        s.lifecycle(group, request).0.slot(group) == s.slot(group),
        s.lifecycle(group, request).1 == (if request is Tombstone {
            LifecycleOutcome::Idempotent {
                state: GroupLifecycle::Tombstoned,
                incarnation: s.slot(group)->0.incarnation,
            }
        } else {
            LifecycleOutcome::Rejected(LifecycleRejection::GroupTombstoned)
        }),
        s.submit_outcome(group, incarnation, work) == AdmissionOutcome::Rejected(
            AdmissionRejection::GroupTombstoned,
        ),
{
}

/// Removal never outruns accepted work, and a removed slot keeps none of what it held.
pub proof fn law_removal_waits_for_the_queue(s: SchedulerState, group: GroupId)
    requires
        inv(s),
        s.lifecycle(group, LifecycleRequest::Remove).1 is Applied,
    ensures
        s.slot(group)->0.queue.len() == 0,
        ({
            let t = s.lifecycle(group, LifecycleRequest::Remove).0.slot(group)->0;
            &&& t.state is Removed
            &&& t.counter == 0
            &&& t.sessions.len() == 0
            &&& t.queue.len() == 0
            &&& !t.poisoned
            &&& t.servicing == s.slot(group)->0.servicing
        }),
{
}

/// Draining a poisoned group reports every accepted item, once, in service order, and moves each
/// from queued to failed.
pub proof fn law_poisoned_drain_reports_every_item(s: SchedulerState, group: GroupId)
    requires
        inv(s),
        s.slot(group) is Some,
        s.slot(group)->0.poisoned,
    ensures
        ({
            let (t, outcome, failed) = s.lifecycle(group, LifecycleRequest::Drain);
            let order = s.slot(group)->0.queue.service_order();
            &&& !(outcome is Rejected)
            &&& failed == failure_records(group, order)
            &&& failed.len() == s.slot(group)->0.queue.len()
            &&& t.slot(group)->0.queue.len() == 0
            &&& t.queued + failed.len() == s.queued
            &&& t.failed == s.failed + failed.len()
        }),
{
    let slot = s.slot(group)->0;
    lemma_service_order(slot.queue);
    lemma_total_bounds(s.slots, group@ as int);
    assert(group_ok(slot, s.config, s.next_work));
}

/// A healthy group keeps its queue while it drains: draining retires nothing that can still be
/// serviced.
pub proof fn law_healthy_drain_keeps_work(s: SchedulerState, group: GroupId)
    requires
        s.slot(group) is Some,
        !s.slot(group)->0.poisoned,
    ensures
        s.lifecycle(group, LifecycleRequest::Drain).2.len() == 0,
        s.lifecycle(group, LifecycleRequest::Drain).0.slot(group)->0.queue
            == s.slot(group)->0.queue,
{
}

// -------------------------------------------------------------------- order within a group

/// Within a group, work is serviced by class, and in admission order within a class.
pub proof fn law_service_order_is_by_class_then_age(queue: ClassQueues, next_work: u64, i: int, j: int)
    requires
        queue_ok(queue, next_work),
        0 <= i < j < queue.service_order().len(),
    ensures
        ({
            let first = queue.service_order()[i];
            let second = queue.service_order()[j];
            let first_rank = first.work.class().rank();
            let second_rank = second.work.class().rank();
            &&& first_rank <= second_rank
            &&& first_rank == second_rank ==> first.id@ < second.id@
        }),
{
    let a = queue.control.len() as int;
    let b = a + queue.command.len();
    let c = b + queue.snapshot.len();
    let order = queue.service_order();
    assert forall|k: int| 0 <= k < order.len() implies #[trigger] order[k] == (if k < a {
        queue.control[k]
    } else if k < b {
        queue.command[k - a]
    } else if k < c {
        queue.snapshot[k - b]
    } else {
        queue.bulk[k - c]
    }) by {}
    assert(order[i] == order[i]);
    assert(order[j] == order[j]);
}

/// A turn takes a prefix of the service order: what is left is what was not serviced, in the same
/// order.
pub proof fn law_turn_services_a_prefix(g: GroupState, n: nat)
    requires
        n <= g.queue.len(),
    ensures
        g.served(n).queue.service_order() == g.queue.service_order().skip(n as int),
    decreases n,
{
    if n == 0 {
        assert(g.queue.service_order().skip(0) =~= g.queue.service_order());
    } else {
        law_turn_services_a_prefix(g, (n - 1) as nat);
        let before = g.served((n - 1) as nat);
        lemma_service_order(g.queue);
        lemma_service_order(before.queue);
        assert(g.queue.service_order().skip(n - 1).drop_first() =~= g.queue.service_order().skip(
            n as int,
        ));
        assert(g.served(n).queue == before.queue.pop());
    }
}

/// Work that poisons its group ends the turn at once: whatever stood behind it stays queued for
/// the drain that will report it.
pub proof fn law_poison_ends_the_turn(g: GroupState, n: nat)
    requires
        n < g.turn_len(),
        0 < n,
    ensures
        !g.served(n).poisoned,
{
    lemma_turn_reaches(g, 0, n);
}

/// A turn does not end before its end.
pub proof fn lemma_turn_reaches(g: GroupState, from: nat, n: nat)
    requires
        from <= n < g.turn_len_from(from),
    ensures
        !g.turn_ends(n),
    decreases n - from,
{
    if from < n {
        lemma_turn_reaches(g, from + 1, n);
    }
}

} // verus!
