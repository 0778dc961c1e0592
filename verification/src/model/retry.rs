//! One counter request, from its submission on.

use vstd::prelude::*;

use crate::history::Operation;
use crate::model::reachable::{
    core_inv, group_ok, inv, lemma_all_signalled_inv, lemma_armed, lemma_awake_inv,
    lemma_core_frame, lemma_first_free, lemma_offered, lemma_served, lemma_turn_len, owed, plan_ok,
    queue_ok, session_ok,
};
use crate::model::run::{
    called, can_call, can_run_from, lemma_called_inv, lemma_ran_inv, lemma_stepped_counts, ran_from,
    services, services_from, Call,
};
use crate::model::state::{
    find_session, first_free, is_session_of, lemma_service_order, lemma_session_found, ClassQueues,
    GroupState, Outstanding, PlanState, QueuedWork, ReportState, SchedulerState,
};
use crate::types::{
    AdmissionOutcome, CounterCommand, GroupId, GroupIncarnation, Offer, PassIndex, ReadinessSignal,
    RequestIdentity, SchedulerConfig, ServiceCost, ServiceRecord, Work, WorkClass, WorkId,
};

verus! {

/// A counter request that took a queue slot: where, as what, and under which number.
pub struct Admitted {
    /// The group.
    pub group: GroupId,
    /// Identity of the request.
    pub request: RequestIdentity,
    /// The command.
    pub command: CounterCommand,
    /// Its cost.
    pub cost: ServiceCost,
    /// Identifier of the item.
    pub id: WorkId,
    /// Position of the client's session.
    pub session: int,
}

impl Admitted {
    /// The work that was queued.
    pub open spec fn work(self) -> Work {
        Work::Counter { request: self.request, command: self.command, cost: self.cost }
    }
}

/// No item of the queue carries this identifier.
pub open spec fn absent(queue: ClassQueues, id: WorkId) -> bool {
    forall|k: int|
        0 <= k < queue.service_order().len() ==> (#[trigger] queue.service_order()[k]).id != id
}

/// Every item of the queue that carries the request's identifier is the request.
pub open spec fn only_request(queue: ClassQueues, a: Admitted) -> bool {
    forall|k: int|
        0 <= k < queue.service_order().len() && (#[trigger] queue.service_order()[k]).id == a.id
            ==> queue.service_order()[k].work == a.work()
}

/// Some record says that the item was serviced.
pub open spec fn was_serviced(records: Seq<ServiceRecord>, id: WorkId) -> bool {
    exists|k: int| 0 <= k < records.len() && (#[trigger] records[k]).work == id
}

/// What the request's own group knows of it, when these are the services so far: it waits and was
/// not serviced, or it is completed with the result that every record of it states.
pub open spec fn remembers(slot: GroupState, a: Admitted, records: Seq<ServiceRecord>) -> bool {
    let session = slot.sessions[a.session];
    &&& is_session_of(slot.sessions, a.request.client_id, a.session)
    &&& session.epoch == a.request.session_epoch
    &&& only_request(slot.queue, a)
    &&& match session.outstanding {
        Some(_) => {
            &&& session.outstanding == Some(
                Outstanding { sequence: a.request.sequence, command: a.command, work: a.id },
            )
            &&& !was_serviced(records, a.id)
        },
        None => {
            &&& session.completed is Some
            &&& session.completed->0.sequence == a.request.sequence
            &&& session.completed->0.command == a.command
            &&& absent(slot.queue, a.id)
            &&& was_serviced(records, a.id)
            &&& forall|k: int|
                0 <= k < records.len() && (#[trigger] records[k]).work == a.id ==> records[k].result
                    == Some(session.completed->0.result)
        },
    }
}

/// What the scheduler knows of the request: its group remembers it, and no other group holds it.
pub open spec fn tracked_request(s: SchedulerState, a: Admitted, records: Seq<ServiceRecord>) -> bool {
    &&& s.slot(a.group) is Some
    &&& remembers(s.slot(a.group)->0, a, records)
    &&& a.id@ < s.next_work
    &&& forall|other: GroupId|
        other != a.group && (#[trigger] s.slot(other)) is Some ==> absent(
            s.slot(other)->0.queue,
            a.id,
        )
}

// -------------------------------------------------------------------- service

/// Taking the head keeps what is absent absent.
proof fn lemma_pop_absent(queue: ClassQueues, id: WorkId)
    requires
        absent(queue, id),
        queue.len() > 0,
    ensures
        queue.head().id != id,
        absent(queue.pop(), id),
{
    lemma_service_order(queue);
    let order = queue.service_order();
    assert(order[0].id != id);
    assert forall|k: int| 0 <= k < queue.pop().service_order().len() implies (
    #[trigger] queue.pop().service_order()[k]).id != id by {
        assert(order[k + 1].id != id);
    }
}

/// Taking the head keeps the request the only item of its number, and takes it for good when the head
/// was it.
proof fn lemma_pop_request(queue: ClassQueues, a: Admitted, next_work: u64)
    requires
        queue_ok(queue, next_work),
        only_request(queue, a),
        queue.len() > 0,
    ensures
        only_request(queue.pop(), a),
        queue.head().id == a.id ==> queue.head().work == a.work() && absent(queue.pop(), a.id),
{
    lemma_service_order(queue);
    let order = queue.service_order();
    let left = queue.pop().service_order();
    assert(order[0] == queue.head());
    assert forall|k: int| 0 <= k < left.len() && (#[trigger] left[k]).id == a.id implies left[k].work
        == a.work() by {
        assert(order[k + 1] == left[k]);
    }
    if queue.head().id == a.id {
        assert(queue.control.len() == 0) by {
            if queue.control.len() > 0 {
                assert(queue.control[0].work.class() == WorkClass::Control);
            }
        }
        assert(queue.command.len() > 0) by {
            if queue.command.len() == 0 {
                if queue.snapshot.len() > 0 {
                    assert(queue.snapshot[0].work.class() == WorkClass::Snapshot);
                } else {
                    assert(queue.bulk[0].work.class() == WorkClass::Bulk);
                }
            }
        }
        let pop = queue.pop();
        let m = pop.command.len() as int;
        let n = pop.snapshot.len() as int;
        assert forall|k: int| 0 <= k < left.len() implies (#[trigger] left[k]).id != a.id by {
            if k < m {
                assert(left[k] == queue.command[k + 1]);
                assert(queue.command[0].id@ < queue.command[k + 1].id@);
            } else if k < m + n {
                assert(left[k] == queue.snapshot[k - m]);
                assert(queue.snapshot[k - m].work.class() == WorkClass::Snapshot);
                assert(order[k + 1] == left[k]);
            } else {
                assert(left[k] == queue.bulk[k - m - n]);
                assert(queue.bulk[k - m - n].work.class() == WorkClass::Bulk);
                assert(order[k + 1] == left[k]);
            }
        }
    }
}

/// One service of the request's own group.
proof fn lemma_remembered(
    slot: GroupState,
    a: Admitted,
    records: Seq<ServiceRecord>,
    config: SchedulerConfig,
    next_work: u64,
)
    requires
        group_ok(slot, config, next_work),
        slot.queue.len() > 0,
        remembers(slot, a, records),
    ensures
        remembers(
            (GroupState { queue: slot.queue.pop(), ..slot }).applied(slot.queue.head()),
            a,
            records.push(slot.record_of(a.group, slot.queue.head())),
        ),
{
    let head = slot.queue.head();
    let record = slot.record_of(a.group, head);
    let more = records.push(record);
    let after = (GroupState { queue: slot.queue.pop(), ..slot }).applied(head);
    let i = a.session;
    lemma_pop_request(slot.queue, a, next_work);
    lemma_session_found(slot.sessions, a.request.client_id, i);
    assert(after.queue == slot.queue.pop());
    assert(more[records.len() as int] == record);
    assert forall|k: int| 0 <= k < records.len() implies more[k] == #[trigger] records[k] by {}
    if head.work is Counter {
        let request = head.work->Counter_request;
        let j = find_session(slot.sessions, request.client_id);
        if j is Some {
            assert(is_session_of(slot.sessions, request.client_id, j->0));
        }
    }
    assert(is_session_of(after.sessions, a.request.client_id, i));
    if slot.sessions[i].outstanding is Some {
        if head.id == a.id {
            assert(head.work == a.work());
            assert(after.sessions[i].outstanding is None);
            assert(more[records.len() as int].work == a.id);
            assert forall|k: int| 0 <= k < more.len() && (#[trigger] more[k]).work == a.id implies more[k].result
                == Some(after.sessions[i].completed->0.result) by {
                if k < records.len() {
                    assert(records[k].work == a.id);
                }
            }
        } else {
            assert(after.sessions[i] == slot.sessions[i]);
            if was_serviced(more, a.id) {
                let k = choose|k: int| 0 <= k < more.len() && (#[trigger] more[k]).work == a.id;
                assert(k < records.len());
                assert(records[k].work == a.id);
            }
        }
    } else {
        lemma_pop_absent(slot.queue, a.id);
        assert(after.sessions[i] == slot.sessions[i]);
        let k = choose|k: int| 0 <= k < records.len() && (#[trigger] records[k]).work == a.id;
        assert(more[k].work == a.id);
        assert forall|k: int| 0 <= k < more.len() && (#[trigger] more[k]).work == a.id implies more[k].result
            == Some(after.sessions[i].completed->0.result) by {
            if k < records.len() {
                assert(records[k].work == a.id);
            }
        }
    }
}

/// The services of the request's own group.
proof fn lemma_own_turn(
    slot: GroupState,
    a: Admitted,
    records: Seq<ServiceRecord>,
    n: nat,
    config: SchedulerConfig,
    next_work: u64,
)
    requires
        group_ok(slot, config, next_work),
        slot.state.is_serviceable(),
        n <= slot.queue.len(),
        remembers(slot, a, records),
    ensures
        remembers(slot.served(n), a, records + slot.served_records(a.group, n)),
    decreases n,
{
    if n == 0 {
        assert(records + slot.served_records(a.group, n) =~= records);
    } else {
        let m = (n - 1) as nat;
        lemma_own_turn(slot, a, records, m, config, next_work);
        lemma_served(slot, a.group, m, config, next_work);
        let before = slot.served(m);
        let so_far = records + slot.served_records(a.group, m);
        lemma_remembered(before, a, so_far, config, next_work);
        assert(records + slot.served_records(a.group, n) =~= so_far.push(
            before.record_of(a.group, before.queue.head()),
        ));
    }
}

/// The services of another group.
proof fn lemma_other_turn(slot: GroupState, group: GroupId, id: WorkId, n: nat)
    requires
        absent(slot.queue, id),
        n <= slot.queue.len(),
    ensures
        absent(slot.served(n).queue, id),
        slot.served(n).queue.len() == slot.queue.len() - n,
        !was_serviced(slot.served_records(group, n), id),
    decreases n,
{
    if n > 0 {
        let m = (n - 1) as nat;
        lemma_other_turn(slot, group, id, m);
        let before = slot.served(m);
        lemma_pop_absent(before.queue, id);
        assert(slot.served(n).queue == before.queue.pop());
        let records = slot.served_records(group, n);
        if was_serviced(records, id) {
            let k = choose|k: int| 0 <= k < records.len() && (#[trigger] records[k]).work == id;
            if k < records.len() - 1 {
                assert(slot.served_records(group, m)[k] == records[k]);
            }
        }
    }
}

/// Records of other items do not bear on the request.
proof fn lemma_more_records(
    slot: GroupState,
    a: Admitted,
    records: Seq<ServiceRecord>,
    more: Seq<ServiceRecord>,
)
    requires
        remembers(slot, a, records),
        !was_serviced(more, a.id),
    ensures
        remembers(slot, a, records + more),
{
    let all = records + more;
    assert forall|k: int| 0 <= k < all.len() && (#[trigger] all[k]).work == a.id implies k
        < records.len() && all[k] == records[k] by {
        if k >= records.len() {
            assert(more[k - records.len()].work == a.id);
        }
    }
    if was_serviced(records, a.id) {
        let k = choose|k: int| 0 <= k < records.len() && (#[trigger] records[k]).work == a.id;
        assert(all[k].work == a.id);
    }
}

/// One turn of a pass.
proof fn lemma_turn_tracked(
    s: SchedulerState,
    plan: PlanState,
    a: Admitted,
    records: Seq<ServiceRecord>,
    worker: int,
)
    requires
        core_inv(s),
        plan_ok(s, plan),
        plan.next < plan.entries.len(),
        tracked_request(s, a, records),
    ensures
        ({
            let group = plan.entries[plan.next as int];
            tracked_request(s.offered(group, worker), a, records + s.offer_records(group))
        }),
{
    let group = plan.entries[plan.next as int];
    let slot = s.slot(group)->0;
    let t = s.offered(group, worker);
    assert(owed(slot));
    assert(group_ok(slot, s.config, s.next_work));
    if slot.stalled {
        assert(records + s.offer_records(group) =~= records);
    } else {
        lemma_turn_len(slot, 0, s.config, s.next_work);
        let n = slot.turn_len();
        if group == a.group {
            lemma_own_turn(slot, a, records, n, s.config, s.next_work);
            let last = GroupState { servicing: true, ..slot.served(n) };
            assert(t.slot(group) == Some(last));
            assert(remembers(last, a, records + s.offer_records(group)));
        } else {
            assert(absent(slot.queue, a.id));
            lemma_other_turn(slot, group, a.id, n);
            lemma_more_records(s.slot(a.group)->0, a, records, s.offer_records(group));
            assert(t.slot(a.group) == s.slot(a.group));
        }
        assert forall|other: GroupId|
            other != a.group && (#[trigger] t.slot(other)) is Some implies absent(
            t.slot(other)->0.queue,
            a.id,
        ) by {
            if other != group {
                assert(t.slot(other) == s.slot(other));
            }
        }
    }
}

/// The rest of a pass.
proof fn lemma_traversal_tracked(
    s: SchedulerState,
    plan: PlanState,
    report: ReportState,
    a: Admitted,
    records: Seq<ServiceRecord>,
)
    requires
        core_inv(s),
        plan_ok(s, plan),
        tracked_request(s, a, records + report.serviced),
    ensures
        tracked_request(
            s.traversed(plan, report).0,
            a,
            records + s.traversed(plan, report).1.serviced,
        ),
    decreases plan.entries.len() - plan.next,
{
    let t = s.traversed(plan, report).0;
    if plan.next >= plan.entries.len() {
        assert forall|other: GroupId| #[trigger] t.slot(other) == s.slot(other) by {}
    } else {
        lemma_first_free(s.workers, 0);
        match first_free(s.workers, 0) {
            None => {
                assert forall|other: GroupId| #[trigger] t.slot(other) == s.slot(other) by {}
            },
            Some(worker) => {
                let group = plan.entries[plan.next as int];
                let more = s.offer_records(group);
                lemma_turn_tracked(s, plan, a, records + report.serviced, worker);
                lemma_offered(s, plan, worker);
                assert((records + report.serviced) + more =~= records + (report.serviced + more));
                lemma_traversal_tracked(
                    s.offered(group, worker),
                    PlanState { next: plan.next + 1, ..plan },
                    ReportState {
                        offers: report.offers.push(
                            Offer { group, outcome: s.offer_outcome(group) },
                        ),
                        serviced: report.serviced + more,
                        ..report
                    },
                    a,
                    records,
                );
            },
        }
    }
}

/// States whose slots differ only in stalls and held workers know the same of the request.
proof fn lemma_same_knowledge(
    s: SchedulerState,
    t: SchedulerState,
    a: Admitted,
    records: Seq<ServiceRecord>,
)
    requires
        tracked_request(s, a, records),
        t.next_work == s.next_work,
        forall|group: GroupId|
            (#[trigger] t.slot(group)) is Some <==> s.slot(group) is Some,
        forall|group: GroupId|
            (#[trigger] t.slot(group)) is Some ==> t.slot(group)->0.queue == s.slot(group)->0.queue
                && t.slot(group)->0.sessions == s.slot(group)->0.sessions,
    ensures
        tracked_request(t, a, records),
{
    assert(t.slot(a.group) is Some);
    assert forall|other: GroupId|
        other != a.group && (#[trigger] t.slot(other)) is Some implies absent(
        t.slot(other)->0.queue,
        a.id,
    ) by {
        assert(s.slot(other) is Some);
    }
}

/// Readiness reports touch stalls only.
proof fn lemma_signals_touch_stalls(s: SchedulerState, signals: Seq<ReadinessSignal>, group: GroupId)
    requires
        inv(s),
    ensures
        ({
            let t = s.all_signalled(signals);
            &&& t.slot(group) is Some <==> s.slot(group) is Some
            &&& t.slot(group) is Some ==> t.slot(group)->0 == (GroupState {
                stalled: t.slot(group)->0.stalled,
                ..s.slot(group)->0
            })
        }),
    decreases signals.len(),
{
    if signals.len() > 0 {
        lemma_signals_touch_stalls(s, signals.drop_last(), group);
        lemma_all_signalled_inv(s, signals.drop_last());
    }
}

/// A tick.
proof fn lemma_step_tracked(
    s: SchedulerState,
    signals: Seq<ReadinessSignal>,
    a: Admitted,
    records: Seq<ServiceRecord>,
)
    requires
        inv(s),
        can_call(s, Call::Step { signals }),
        tracked_request(s, a, records),
    ensures
        tracked_request(
            s.stepped(signals).0,
            a,
            records + s.stepped(signals).1.serviced,
        ),
        forall|group: GroupId| #![trigger s.stepped(signals).0.slot(group)]
            s.stepped(signals).0.slot(group) is Some <==> s.slot(group) is Some,
{
    let ticked = SchedulerState { tick: (s.tick + 1) as u64, ..s };
    let awake = s.awake(signals);
    let opening = s.opening_report(signals);
    lemma_core_frame(s, ticked);
    lemma_awake_inv(s, signals);
    lemma_all_signalled_inv(ticked, signals);
    let told = ticked.all_signalled(signals);
    assert forall|group: GroupId| (#[trigger] awake.slot(group)) is Some <==> s.slot(group) is Some by {
        lemma_signals_touch_stalls(ticked, signals, group);
        assert(awake.slot(group) is Some <==> told.slot(group) is Some);
        assert(ticked.slot(group) == s.slot(group));
    }
    assert forall|group: GroupId| (#[trigger] awake.slot(group)) is Some implies awake.slot(
        group,
    )->0.queue == s.slot(group)->0.queue && awake.slot(group)->0.sessions == s.slot(
        group,
    )->0.sessions by {
        lemma_signals_touch_stalls(ticked, signals, group);
        assert(ticked.slot(group) == s.slot(group));
        assert(told.slot(group) is Some);
    }
    lemma_same_knowledge(s, awake, a, records);
    assert(records + opening.serviced =~= records);
    match awake.plan {
        Some(plan) => {
            let idle = SchedulerState { plan: None, ..awake };
            lemma_core_frame(awake, idle);
            assert forall|group: GroupId| #[trigger] idle.slot(group) == awake.slot(group) by {}
            lemma_same_knowledge(awake, idle, a, records);
            let report = ReportState { pass: Some(plan.pass), ..opening };
            lemma_traversal_tracked(idle, plan, report, a, records);
            lemma_traversal_slots(idle, plan, report);
        },
        None => {
            let entries = awake.plan_order();
            if entries.len() > 0 {
                lemma_armed(awake);
                let armed = SchedulerState {
                    next_pass: PassIndex::at(awake.next_pass@ + 1),
                    ..awake
                };
                assert forall|group: GroupId| #[trigger] armed.slot(group) == awake.slot(group) by {}
                lemma_same_knowledge(awake, armed, a, records);
                let plan = PlanState { pass: awake.next_pass, entries, next: 0 };
                let report = ReportState {
                    pass: Some(awake.next_pass),
                    armed: Some(entries),
                    ..opening
                };
                lemma_traversal_tracked(armed, plan, report, a, records);
                lemma_traversal_slots(armed, plan, report);
            }
        },
    }
}

/// A pass keeps every slot.
proof fn lemma_traversal_slots(s: SchedulerState, plan: PlanState, report: ReportState)
    requires
        core_inv(s),
        plan_ok(s, plan),
    ensures
        forall|group: GroupId| #![trigger s.traversed(plan, report).0.slot(group)]
            s.traversed(plan, report).0.slot(group) is Some <==> s.slot(group) is Some,
        forall|group: GroupId| #![trigger s.traversed(plan, report).0.slot(group)]
            s.traversed(plan, report).0.slot(group) is Some ==> s.traversed(plan, report).0.slot(
                group,
            )->0.state == s.slot(group)->0.state && s.traversed(plan, report).0.slot(
                group,
            )->0.incarnation == s.slot(group)->0.incarnation,
    decreases plan.entries.len() - plan.next,
{
    let t = s.traversed(plan, report).0;
    if plan.next >= plan.entries.len() {
        assert forall|other: GroupId| #[trigger] t.slot(other) == s.slot(other) by {}
    } else {
        lemma_first_free(s.workers, 0);
        match first_free(s.workers, 0) {
            None => {
                assert forall|other: GroupId| #[trigger] t.slot(other) == s.slot(other) by {}
            },
            Some(worker) => {
                let group = plan.entries[plan.next as int];
                let slot = s.slot(group)->0;
                lemma_offered(s, plan, worker);
                assert(owed(slot));
                assert(group_ok(slot, s.config, s.next_work));
                lemma_turn_len(slot, 0, s.config, s.next_work);
                lemma_served(slot, group, slot.turn_len(), s.config, s.next_work);
                let u = s.offered(group, worker);
                assert forall|other: GroupId| (#[trigger] u.slot(other)) is Some <==> s.slot(
                    other,
                ) is Some by {}
                lemma_traversal_slots(
                    u,
                    PlanState { next: plan.next + 1, ..plan },
                    ReportState {
                        offers: report.offers.push(
                            Offer { group, outcome: s.offer_outcome(group) },
                        ),
                        serviced: report.serviced + s.offer_records(group),
                        ..report
                    },
                );
            },
        }
    }
}

// ----------------------------------------------------------------------- runs

/// The call is a tick, or concerns another group.
pub open spec fn elsewhere(call: Call, group: GroupId) -> bool {
    match call {
        Call::Step { .. } => true,
        Call::Invoke { operation } => operation.group() != group,
    }
}

/// A request to another group.
proof fn lemma_request_tracked(
    s: SchedulerState,
    operation: Operation,
    a: Admitted,
    records: Seq<ServiceRecord>,
)
    requires
        inv(s),
        can_call(s, Call::Invoke { operation }),
        operation.group() != a.group,
        tracked_request(s, a, records),
    ensures
        tracked_request(called(s, Call::Invoke { operation }), a, records),
        called(s, Call::Invoke { operation }).slot(a.group) == s.slot(a.group),
        called(s, Call::Invoke { operation }).config == s.config,
{
    let t = called(s, Call::Invoke { operation });
    assert(t.slot(a.group) == s.slot(a.group));
    assert forall|other: GroupId|
        other != a.group && (#[trigger] t.slot(other)) is Some implies absent(
        t.slot(other)->0.queue,
        a.id,
    ) by {
        if other == operation.group() {
            let queue = t.slot(other)->0.queue;
            if s.slot(other) is Some {
                let old_queue = s.slot(other)->0.queue;
                assert(absent(old_queue, a.id));
                match operation {
                    Operation::Submit { group, incarnation, work } => {
                        let outcome = s.submit_outcome(group, incarnation, work);
                        if outcome is Queued {
                            lemma_push_absent(
                                old_queue,
                                QueuedWork { id: outcome->Queued_work, work },
                                a.id,
                            );
                        }
                    },
                    _ => {
                        assert(queue == old_queue || queue == ClassQueues::empty());
                        lemma_empty_absent(a.id);
                    },
                }
            } else {
                assert(queue == ClassQueues::empty());
                lemma_empty_absent(a.id);
            }
        } else {
            assert(t.slot(other) == s.slot(other));
        }
    }
}

proof fn lemma_empty_absent(id: WorkId)
    ensures
        absent(ClassQueues::empty(), id),
{
}

proof fn lemma_push_absent(queue: ClassQueues, item: QueuedWork, id: WorkId)
    requires
        absent(queue, id),
        item.id != id,
    ensures
        absent(queue.push(item), id),
{
    let order = queue.service_order();
    let next = queue.push(item).service_order();
    let a = queue.control.len() as int;
    let b = a + queue.command.len() as int;
    let c = b + queue.snapshot.len() as int;
    let d = c + queue.bulk.len() as int;
    let at = match item.work.class() {
        WorkClass::Control => a,
        WorkClass::Command => b,
        WorkClass::Snapshot => c,
        WorkClass::Bulk => d,
    };
    assert(next =~= order.insert(at, item));
    assert forall|k: int| 0 <= k < next.len() implies (#[trigger] next[k]).id != id by {
        if k < at {
            assert(next[k] == order[k]);
        } else if k > at {
            assert(next[k] == order[k - 1]);
        }
    }
}

/// One call that is a tick or concerns another group.
proof fn lemma_call_tracked(
    s: SchedulerState,
    call: Call,
    a: Admitted,
    records: Seq<ServiceRecord>,
)
    requires
        inv(s),
        can_call(s, call),
        elsewhere(call, a.group),
        tracked_request(s, a, records),
    ensures
        tracked_request(called(s, call), a, records + services(s, call)),
        called(s, call).slot(a.group)->0.state == s.slot(a.group)->0.state,
        called(s, call).slot(a.group)->0.incarnation == s.slot(a.group)->0.incarnation,
        called(s, call).config == s.config,
{
    match call {
        Call::Invoke { operation } => {
            lemma_request_tracked(s, operation, a, records);
            assert(records + services(s, call) =~= records);
        },
        Call::Step { signals } => {
            lemma_step_tracked(s, signals, a, records);
            lemma_step_identity(s, signals, a.group);
            lemma_stepped_counts(s, signals);
        },
    }
}

/// Calls that are ticks or concern other groups.
proof fn lemma_run_tracked(s: SchedulerState, calls: Seq<Call>, a: Admitted)
    requires
        inv(s),
        can_run_from(s, calls),
        forall|i: int| 0 <= i < calls.len() ==> elsewhere(#[trigger] calls[i], a.group),
        tracked_request(s, a, Seq::empty()),
    ensures
        ({
            let t = ran_from(s, calls);
            &&& inv(t)
            &&& tracked_request(t, a, services_from(s, calls))
            &&& t.slot(a.group)->0.state == s.slot(a.group)->0.state
            &&& t.slot(a.group)->0.incarnation == s.slot(a.group)->0.incarnation
            &&& t.config == s.config
        }),
    decreases calls.len(),
{
    lemma_ran_inv(s, calls);
    if calls.len() > 0 {
        let rest = calls.drop_last();
        assert forall|i: int| 0 <= i < rest.len() implies elsewhere(#[trigger] rest[i], a.group) by {
            assert(rest[i] == calls[i]);
        }
        lemma_run_tracked(s, rest, a);
        assert(elsewhere(calls[calls.len() - 1], a.group));
        lemma_call_tracked(ran_from(s, rest), calls.last(), a, services_from(s, rest));
    }
}

/// A tick moves no group to another state or incarnation.
proof fn lemma_step_identity(s: SchedulerState, signals: Seq<ReadinessSignal>, group: GroupId)
    requires
        inv(s),
        can_call(s, Call::Step { signals }),
        s.slot(group) is Some,
    ensures
        s.stepped(signals).0.slot(group) is Some,
        s.stepped(signals).0.slot(group)->0.state == s.slot(group)->0.state,
        s.stepped(signals).0.slot(group)->0.incarnation == s.slot(group)->0.incarnation,
{
    let ticked = SchedulerState { tick: (s.tick + 1) as u64, ..s };
    let awake = s.awake(signals);
    let opening = s.opening_report(signals);
    lemma_core_frame(s, ticked);
    lemma_awake_inv(s, signals);
    lemma_all_signalled_inv(ticked, signals);
    lemma_signals_touch_stalls(ticked, signals, group);
    assert(ticked.slot(group) == s.slot(group));
    let told = ticked.all_signalled(signals);
    assert(told.slot(group) is Some);
    assert(awake.slot(group) is Some);
    assert(awake.slot(group)->0.state == s.slot(group)->0.state);
    let t = s.stepped(signals).0;
    match awake.plan {
        Some(plan) => {
            let idle = SchedulerState { plan: None, ..awake };
            lemma_core_frame(awake, idle);
            assert(idle.slot(group) == awake.slot(group));
            lemma_traversal_slots(idle, plan, ReportState { pass: Some(plan.pass), ..opening });
            assert(t.slot(group) is Some);
        },
        None => {
            let entries = awake.plan_order();
            if entries.len() > 0 {
                lemma_armed(awake);
                let armed = SchedulerState {
                    next_pass: PassIndex::at(awake.next_pass@ + 1),
                    ..awake
                };
                assert(armed.slot(group) == awake.slot(group));
                lemma_traversal_slots(
                    armed,
                    PlanState { pass: awake.next_pass, entries, next: 0 },
                    ReportState { pass: Some(awake.next_pass), armed: Some(entries), ..opening },
                );
                assert(t.slot(group) is Some);
            }
        },
    }
}

/// A counter request takes effect once, however often it is submitted again. From its admission on,
/// whatever ticks and calls on other groups come between, the same request is answered with the item
/// that holds its queue slot until that item is serviced, and from then on with the result that the
/// service reported. The answer takes nothing and changes nothing, also with every queue full.
pub proof fn law_request_takes_effect_once(
    s: SchedulerState,
    group: GroupId,
    incarnation: GroupIncarnation,
    request: RequestIdentity,
    command: CounterCommand,
    cost: ServiceCost,
    again: ServiceCost,
    calls: Seq<Call>,
)
    requires
        inv(s),
        can_call(
            s,
            Call::Invoke {
                operation: Operation::Submit {
                    group,
                    incarnation,
                    work: Work::Counter { request, command, cost },
                },
            },
        ),
        s.submit_outcome(group, incarnation, Work::Counter { request, command, cost }) is Queued,
        can_run_from(
            s.submit(group, incarnation, Work::Counter { request, command, cost }),
            calls,
        ),
        forall|i: int| 0 <= i < calls.len() ==> elsewhere(#[trigger] calls[i], group),
        !ran_from(
            s.submit(group, incarnation, Work::Counter { request, command, cost }),
            calls,
        ).slot(group)->0.poisoned,
    ensures
        ({
            let first = Work::Counter { request, command, cost };
            let retry = Work::Counter { request, command, cost: again };
            let id = s.submit_outcome(group, incarnation, first)->Queued_work;
            let t = s.submit(group, incarnation, first);
            let u = ran_from(t, calls);
            let records = services_from(t, calls);
            let answer = u.submit_outcome(group, incarnation, retry);
            &&& u.submit(group, incarnation, retry) == u
            &&& !was_serviced(records, id) ==> answer == AdmissionOutcome::AlreadyQueued { work: id }
            &&& forall|k: int|
                0 <= k < records.len() && (#[trigger] records[k]).work == id ==> records[k].result is Some
                    && answer == (AdmissionOutcome::Replayed { result: records[k].result->0 })
        }),
{
    let first = Work::Counter { request, command, cost };
    let slot = s.slot(group)->0;
    let t = s.submit(group, incarnation, first);
    let id = s.submit_outcome(group, incarnation, first)->Queued_work;
    let i = find_session(slot.sessions, request.client_id)->0;
    assert(is_session_of(slot.sessions, request.client_id, i));
    let a = Admitted { group, request, command, cost, id, session: i };
    lemma_called_inv(
        s,
        Call::Invoke { operation: Operation::Submit { group, incarnation, work: first } },
    );
    lemma_admitted(s, incarnation, a);
    lemma_run_tracked(t, calls, a);
    let u = ran_from(t, calls);
    let now = u.slot(group)->0;
    lemma_session_found(now.sessions, request.client_id, i);
    assert(group_ok(now, u.config, u.next_work));
    assert(session_ok(now.queue, now.sessions[i]));
}

/// What is known of a request right after its admission.
proof fn lemma_admitted(s: SchedulerState, incarnation: GroupIncarnation, a: Admitted)
    requires
        inv(s),
        s.next_work < u64::MAX,
        s.submit_outcome(a.group, incarnation, a.work()) == (AdmissionOutcome::Queued {
            work: a.id,
        }),
        is_session_of(s.slot(a.group)->0.sessions, a.request.client_id, a.session),
    ensures
        tracked_request(s.submit(a.group, incarnation, a.work()), a, Seq::empty()),
{
    let slot = s.slot(a.group)->0;
    let t = s.submit(a.group, incarnation, a.work());
    let next = t.slot(a.group)->0;
    lemma_session_found(slot.sessions, a.request.client_id, a.session);
    assert(is_session_of(next.sessions, a.request.client_id, a.session));
    assert(a.id@ == s.next_work);
    assert forall|other: GroupId| (#[trigger] s.slot(other)) is Some implies absent(
        s.slot(other)->0.queue,
        a.id,
    ) by {
        assert(group_ok(s.slots[other@ as int]->0, s.config, s.next_work));
        lemma_issued_absent(s.slot(other)->0.queue, s.next_work, a.id);
    }
    assert forall|other: GroupId|
        other != a.group && (#[trigger] t.slot(other)) is Some implies absent(
        t.slot(other)->0.queue,
        a.id,
    ) by {
        assert(t.slot(other) == s.slot(other));
    }
    let item = QueuedWork { id: a.id, work: a.work() };
    assert(next.queue == slot.queue.push(item));
    let order = slot.queue.service_order();
    let after = next.queue.service_order();
    let at = slot.queue.control.len() as int + slot.queue.command.len() as int;
    assert(after =~= order.insert(at, item));
    assert(absent(slot.queue, a.id));
    assert forall|k: int| 0 <= k < after.len() && (#[trigger] after[k]).id == a.id implies after[k].work
        == a.work() by {
        if k < at {
            assert(after[k] == order[k]);
        } else if k > at {
            assert(after[k] == order[k - 1]);
        }
    }
}

/// Items issued before a number do not carry it.
proof fn lemma_issued_absent(queue: ClassQueues, next_work: u64, id: WorkId)
    requires
        queue_ok(queue, next_work),
        id@ >= next_work,
    ensures
        absent(queue, id),
{
    let a = queue.control.len() as int;
    let b = a + queue.command.len() as int;
    let c = b + queue.snapshot.len() as int;
    let order = queue.service_order();
    assert forall|k: int| 0 <= k < order.len() implies (#[trigger] order[k]).id != id by {
        if k < a {
            assert(order[k] == queue.control[k]);
        } else if k < b {
            assert(order[k] == queue.command[k - a]);
        } else if k < c {
            assert(order[k] == queue.snapshot[k - b]);
        } else {
            assert(order[k] == queue.bulk[k - c]);
        }
    }
}

} // verus!
