//! Where every admitted item is: queued, serviced or failed, and in one place only.

use vstd::prelude::*;

use crate::history::{is_queued, queued_answers, HistoryEvent, Operation, OperationOutcome};
use crate::model::state::{abandoned, failure_records, QueuedWork};
use crate::oracle::fold::{
    by_priority, find_entry, find_item, fold_views, is_item, of_class, rank_of, FoldState,
    GroupFold, Turn,
};
use crate::oracle::laws::law_every_item_is_accounted_for;
use crate::oracle::site::{FaultSite, SchedulingViolation};
use crate::oracle::sound::{
    event_ok, fold_ok, lemma_armed_frame, lemma_availability_frame, lemma_completed_frame,
    lemma_entry_at, lemma_offered_frame, lemma_plan_judged, lemma_rank, lemma_reached_frame,
    lemma_released_frame, lemma_settled_frame, lemma_settled_ok, queued_in,
};
use crate::oracle::{replays, shows, sums, ReferenceScheduler, Replay};
use crate::types::{
    FailureRecord, GroupAvailability, GroupId, GroupLifecycle, GroupView, LifecycleOutcome,
    LifecycleRequest, OfferOutcome, PassIndex, SchedulerConfig, SchedulerSummary, SchedulerView,
    ServiceRecord, TickIndex, WorkClass, WorkId,
};

verus! {

/// How often an item stands in a queue.
pub open spec fn times_queued(queue: Seq<QueuedWork>, id: WorkId) -> nat
    decreases queue.len(),
{
    if queue.len() == 0 {
        0
    } else {
        times_queued(queue.drop_last(), id) + if queue.last().id == id {
            1nat
        } else {
            0nat
        }
    }
}

/// How often an item stands in the queues of a table.
pub open spec fn times_held(groups: Seq<GroupFold>, id: WorkId) -> nat
    decreases groups.len(),
{
    if groups.len() == 0 {
        0
    } else {
        times_held(groups.drop_last(), id) + times_queued(groups.last().queue, id)
    }
}

/// How often an item was serviced.
pub open spec fn times_serviced(services: Seq<ServiceRecord>, id: WorkId) -> nat
    decreases services.len(),
{
    if services.len() == 0 {
        0
    } else {
        times_serviced(services.drop_last(), id) + if services.last().work == id {
            1nat
        } else {
            0nat
        }
    }
}

/// How often an item failed.
pub open spec fn times_failed(failures: Seq<FailureRecord>, id: WorkId) -> nat
    decreases failures.len(),
{
    if failures.len() == 0 {
        0
    } else {
        times_failed(failures.drop_last(), id) + if failures.last().work == id {
            1nat
        } else {
            0nat
        }
    }
}

/// In how many places an item is.
pub open spec fn places(s: FoldState, id: WorkId) -> nat {
    times_held(s.groups, id) + times_serviced(s.services, id) + times_failed(s.failures, id)
}

/// Every item is in one place at most, and only if it was issued; and every count is the number of
/// records it counts.
pub open(crate) spec fn in_order(s: FoldState) -> bool {
    &&& forall|id: WorkId| (#[trigger] places(s, id)) <= 1
    &&& forall|id: WorkId| id@ >= s.next_work ==> (#[trigger] places(s, id)) == 0
    &&& s.admitted == queued_answers(s.outcomes)
    &&& s.serviced == s.services.len()
    &&& s.failed == s.failures.len()
}

// --------------------------------------------------------------------- counts

proof fn lemma_times_add(a: Seq<QueuedWork>, b: Seq<QueuedWork>, id: WorkId)
    ensures
        times_queued(a + b, id) == times_queued(a, id) + times_queued(b, id),
    decreases b.len(),
{
    if b.len() == 0 {
        assert(a + b =~= a);
    } else {
        assert((a + b).drop_last() =~= a + b.drop_last());
        lemma_times_add(a, b.drop_last(), id);
    }
}

proof fn lemma_times_push(queue: Seq<QueuedWork>, item: QueuedWork, id: WorkId)
    ensures
        times_queued(queue.push(item), id) == times_queued(queue, id) + if item.id == id {
            1nat
        } else {
            0nat
        },
{
    assert(queue.push(item).drop_last() =~= queue);
}

proof fn lemma_times_remove(queue: Seq<QueuedWork>, i: int, id: WorkId)
    requires
        0 <= i < queue.len(),
    ensures
        times_queued(queue.remove(i), id) + (if queue[i].id == id {
            1nat
        } else {
            0nat
        }) == times_queued(queue, id),
{
    let own = seq![queue[i]];
    assert(queue =~= queue.take(i) + own + queue.skip(i + 1));
    assert(queue.remove(i) =~= queue.take(i) + queue.skip(i + 1));
    lemma_times_add(queue.take(i) + own, queue.skip(i + 1), id);
    lemma_times_add(queue.take(i), own, id);
    lemma_times_add(queue.take(i), queue.skip(i + 1), id);
    assert(own.drop_last() =~= Seq::empty());
    assert(times_queued(own.drop_last(), id) == 0);
}

/// The order of service holds what the queue holds.
proof fn lemma_times_by_priority(queue: Seq<QueuedWork>, id: WorkId)
    ensures
        times_queued(by_priority(queue), id) == times_queued(queue, id),
        by_priority(queue).len() == queue.len(),
{
    let a = of_class(queue, WorkClass::Control);
    let b = of_class(queue, WorkClass::Command);
    let c = of_class(queue, WorkClass::Snapshot);
    let d = of_class(queue, WorkClass::Bulk);
    lemma_times_add(a + b + c, d, id);
    lemma_times_add(a + b, c, id);
    lemma_times_add(a, b, id);
    lemma_times_classes(queue, id);
}

proof fn lemma_times_classes(queue: Seq<QueuedWork>, id: WorkId)
    ensures
        times_queued(of_class(queue, WorkClass::Control), id) + times_queued(
            of_class(queue, WorkClass::Command),
            id,
        ) + times_queued(of_class(queue, WorkClass::Snapshot), id) + times_queued(
            of_class(queue, WorkClass::Bulk),
            id,
        ) == times_queued(queue, id),
        of_class(queue, WorkClass::Control).len() + of_class(queue, WorkClass::Command).len()
            + of_class(queue, WorkClass::Snapshot).len() + of_class(queue, WorkClass::Bulk).len()
            == queue.len(),
    decreases queue.len(),
{
    reveal(Seq::filter);
    if queue.len() > 0 {
        let rest = queue.drop_last();
        let last = queue.last();
        lemma_times_classes(rest, id);
        lemma_times_push(of_class(rest, last.work.class()), last, id);
    }
}

proof fn lemma_held_update(groups: Seq<GroupFold>, i: int, entry: GroupFold, id: WorkId)
    requires
        0 <= i < groups.len(),
    ensures
        times_held(groups.update(i, entry), id) + times_queued(groups[i].queue, id) == times_held(
            groups,
            id,
        ) + times_queued(entry.queue, id),
    decreases groups.len(),
{
    let updated = groups.update(i, entry);
    if i == groups.len() - 1 {
        assert(updated.drop_last() =~= groups.drop_last());
    } else {
        assert(updated.drop_last() =~= groups.drop_last().update(i, entry));
        lemma_held_update(groups.drop_last(), i, entry, id);
    }
}

proof fn lemma_held_insert(groups: Seq<GroupFold>, i: int, entry: GroupFold, id: WorkId)
    requires
        0 <= i <= groups.len(),
    ensures
        times_held(groups.insert(i, entry), id) == times_held(groups, id) + times_queued(
            entry.queue,
            id,
        ),
    decreases groups.len(),
{
    let inserted = groups.insert(i, entry);
    if i == groups.len() {
        assert(inserted.drop_last() =~= groups);
    } else {
        assert(inserted.drop_last() =~= groups.drop_last().insert(i, entry));
        lemma_held_insert(groups.drop_last(), i, entry, id);
    }
}

/// Tables with the same queues hold the same.
pub open spec fn same_queues(a: Seq<GroupFold>, b: Seq<GroupFold>) -> bool {
    &&& a.len() == b.len()
    &&& forall|i: int| 0 <= i < a.len() ==> (#[trigger] a[i]).queue == b[i].queue
}

proof fn lemma_held_same(a: Seq<GroupFold>, b: Seq<GroupFold>, id: WorkId)
    requires
        same_queues(a, b),
    ensures
        times_held(a, id) == times_held(b, id),
    decreases a.len(),
{
    if a.len() > 0 {
        assert(a.last().queue == b.last().queue);
        assert(same_queues(a.drop_last(), b.drop_last())) by {
            assert forall|i: int| 0 <= i < a.len() - 1 implies (#[trigger] a.drop_last()[i]).queue
                == b.drop_last()[i].queue by {
                assert(a[i].queue == b[i].queue);
            }
        }
        lemma_held_same(a.drop_last(), b.drop_last(), id);
    }
}

proof fn lemma_failed_add(failures: Seq<FailureRecord>, group: GroupId, items: Seq<QueuedWork>, id: WorkId)
    ensures
        times_failed(failures + failure_records(group, items), id) == times_failed(failures, id)
            + times_queued(items, id),
    decreases items.len(),
{
    let more = failure_records(group, items);
    if items.len() == 0 {
        assert(failures + more =~= failures);
    } else {
        let rest = failure_records(group, items.drop_last());
        assert((failures + more).drop_last() =~= failures + rest);
        assert((failures + more).last().work == items.last().id);
        lemma_failed_add(failures, group, items.drop_last(), id);
    }
}

proof fn lemma_serviced_push(services: Seq<ServiceRecord>, record: ServiceRecord, id: WorkId)
    ensures
        times_serviced(services.push(record), id) == times_serviced(services, id)
            + if record.work == id {
            1nat
        } else {
            0nat
        },
{
    assert(services.push(record).drop_last() =~= services);
}

proof fn lemma_answers_push(answers: Seq<OperationOutcome>, answer: OperationOutcome)
    ensures
        queued_answers(answers.push(answer)) == queued_answers(answers) + if is_queued(answer) {
            1nat
        } else {
            0nat
        },
{
    assert(answers.push(answer).drop_last() =~= answers);
}

// ---------------------------------------------------------------- transitions

/// A fold with the same queues, counts and records is as much in order.
proof fn lemma_still_in_order(s: FoldState, t: FoldState)
    requires
        in_order(s),
        same_queues(s.groups, t.groups),
        t.services == s.services,
        t.failures == s.failures,
        t.outcomes == s.outcomes,
        t.next_work == s.next_work,
        t.admitted == s.admitted,
        t.serviced == s.serviced,
        t.failed == s.failed,
    ensures
        in_order(t),
{
    assert forall|id: WorkId| #[trigger] places(t, id) == places(s, id) by {
        lemma_held_same(s.groups, t.groups, id);
    }
}

/// What a decision leaves of queues and counts.
pub open spec fn keeps_work(s: FoldState, t: FoldState) -> bool {
    &&& same_queues(s.groups, t.groups)
    &&& t.next_work == s.next_work
    &&& t.admitted == s.admitted
    &&& t.serviced == s.serviced
    &&& t.failed == s.failed
    &&& t.queued == s.queued
}

proof fn lemma_settled_keeps(s: FoldState)
    ensures
        keeps_work(s, s.settled()),
{
    if s.recording is Some && s.entry(s.recording->0.group) is Some {
        lemma_entry_at(s.groups, s.recording->0.group);
    }
}

proof fn lemma_reached_keeps(s: FoldState, tick: TickIndex)
    ensures
        keeps_work(s, s.reached(tick)),
{
}

proof fn lemma_availability_keeps(s: FoldState, group: GroupId, availability: GroupAvailability)
    ensures
        keeps_work(s, s.availability(group, availability)),
{
    if s.entry(group) is Some {
        lemma_entry_at(s.groups, group);
    }
}

proof fn lemma_released_keeps(s: FoldState, tick: TickIndex, group: GroupId)
    ensures
        keeps_work(s, s.released(tick, group)),
{
    if s.entry(group) is Some {
        lemma_entry_at(s.groups, group);
    }
    let h = s.release(tick, group);
    assert(keeps_work(s, h));
    lemma_reached_keeps(h, tick);
    let t = h.reached(tick);
    assert forall|i: int| 0 <= i < s.groups.len() implies (#[trigger] s.groups[i]).queue
        == t.groups[i].queue by {
        assert(h.groups[i].queue == t.groups[i].queue);
    }
}

proof fn lemma_offered_keeps(
    s: FoldState,
    pass: PassIndex,
    tick: TickIndex,
    group: GroupId,
    outcome: OfferOutcome,
)
    ensures
        keeps_work(s, s.offered(pass, tick, group, outcome)),
{
}

proof fn lemma_completed_keeps(s: FoldState, pass: PassIndex, tick: TickIndex)
    ensures
        keeps_work(s, s.completed(pass, tick)),
{
}

proof fn lemma_armed_keeps(s: FoldState, pass: PassIndex, tick: TickIndex, plan: Seq<GroupId>)
    ensures
        keeps_work(s, s.armed(pass, tick, plan)),
{
    let ordered = s.judged(
        s.open is Some,
        FaultSite::ArmedOverAnOpenPass,
        SchedulingViolation::PassArmedWhileOpen { open: s.open->0.pass, armed: pass },
    ).judged(
        pass != s.next_pass,
        FaultSite::ArmedOutOfOrder,
        SchedulingViolation::PassOutOfOrder { expected: s.next_pass, observed: pass },
    ).judged(
        s.last_armed is Some && tick@ <= s.last_armed->0@,
        FaultSite::ArmedTickReused,
        SchedulingViolation::PassBoundaryReused { pass, tick },
    );
    lemma_plan_judged(ordered, pass, plan, plan.len());
}

/// Servicing moves an item from its queue to the services.
proof fn lemma_applied_in_order(s: FoldState, group: GroupId, work: WorkId)
    requires
        in_order(s),
    ensures
        in_order(s.applied(group, work)),
{
    let t = s.applied(group, work);
    if s.entry(group) is Some && find_item(s.entry(group)->0.queue, work) is Some {
        let entry = s.entry(group)->0;
        lemma_entry_at(s.groups, group);
        let k = find_entry(s.groups, group)->0;
        let i = find_item(entry.queue, work)->0;
        assert(is_item(entry.queue, work, i));
        assert forall|id: WorkId| #[trigger] places(t, id) == places(s, id) by {
            lemma_held_update(s.groups, k, entry.serviced(i), id);
            lemma_times_remove(entry.queue, i, id);
            lemma_serviced_push(s.services, entry.record_of(i), id);
        }
    }
}

proof fn lemma_service_in_order(s: FoldState, pass: PassIndex, group: GroupId, work: WorkId)
    requires
        in_order(s),
    ensures
        in_order(s.service(pass, group, work)),
{
    let turn = s.recording->0;
    if !(s.recording is Some && turn.group == group && turn.pass == pass) || turn.owed.len() == 0 {
        lemma_still_in_order(s, s.service(pass, group, work));
    } else {
        let price = match s.entry(group) {
            Some(entry) => entry.price_of(work),
            None => 0,
        };
        let t = FoldState {
            recording: Some(
                Turn {
                    owed: turn.owed.drop_first(),
                    serviced: turn.serviced + 1,
                    price: turn.price + price,
                    ..turn
                },
            ),
            ..s.judged(
                turn.owed[0] != work,
                FaultSite::ServiceOutOfOrder,
                SchedulingViolation::ServiceOrderViolation {
                    pass,
                    group,
                    expected: turn.owed[0],
                    observed: work,
                },
            )
        };
        lemma_still_in_order(s, t);
        lemma_applied_in_order(t, group, work);
    }
}

/// Replacing an entry by one that holds no more keeps everything in order.
proof fn lemma_entry_in_order(s: FoldState, group: GroupId, entry: GroupFold)
    requires
        in_order(s),
        s.entry(group) is Some ==> entry.queue == s.entry(group)->0.queue || entry.queue.len() == 0,
    ensures
        in_order(s.with_entry(group, entry)),
{
    let t = s.with_entry(group, entry);
    if s.entry(group) is Some {
        lemma_entry_at(s.groups, group);
        let k = find_entry(s.groups, group)->0;
        assert forall|id: WorkId| #[trigger] places(t, id) <= places(s, id) by {
            lemma_held_update(s.groups, k, entry, id);
        }
        assert forall|id: WorkId| (#[trigger] places(t, id)) <= 1 by {
            assert(places(s, id) <= 1);
        }
        assert forall|id: WorkId| id@ >= t.next_work implies (#[trigger] places(t, id)) == 0 by {
            assert(places(s, id) == 0);
        }
    }
}

/// Retiring moves a whole queue to the failures.
proof fn lemma_retired_in_order(s: FoldState, group: GroupId)
    requires
        in_order(s),
    ensures
        in_order(s.retire_poisoned(group)),
{
    if s.entry(group) is Some && s.entry(group)->0.poisoned {
        let entry = s.entry(group)->0;
        let t = s.retire_poisoned(group);
        lemma_entry_at(s.groups, group);
        let k = find_entry(s.groups, group)->0;
        let bare = GroupFold {
            queue: Seq::empty(),
            sessions: abandoned(entry.sessions),
            ..entry
        };
        assert forall|id: WorkId| #[trigger] places(t, id) == places(s, id) by {
            lemma_held_update(s.groups, k, bare, id);
            lemma_times_by_priority(entry.queue, id);
            lemma_failed_add(s.failures, group, by_priority(entry.queue), id);
        }
        lemma_times_by_priority(entry.queue, arbitrary());
    }
}

proof fn lemma_lifecycle_in_order(s: FoldState, group: GroupId, request: LifecycleRequest)
    requires
        in_order(s),
        forall|i: int, j: int| 0 <= i < j < s.groups.len() ==> s.groups[i].group@ < s.groups[j].group@,
    ensures
        in_order(s.lifecycle(group, request)),
{
    let t = s.lifecycle(group, request);
    let target = request.target();
    match s.lifecycle_outcome(group, request) {
        LifecycleOutcome::Rejected(_) => {},
        LifecycleOutcome::Created { incarnation } => match s.entry(group) {
            None => {
                lemma_rank(s.groups, group);
                let fresh = GroupFold::fresh(group, request->Create_quota);
                let at = rank_of(s.groups, group) as int;
                assert forall|id: WorkId| #[trigger] places(t, id) == places(s, id) by {
                    lemma_held_insert(s.groups, at, fresh, id);
                }
            },
            Some(entry) => {
                lemma_entry_in_order(
                    s,
                    group,
                    GroupFold {
                        incarnation,
                        state: GroupLifecycle::Creating,
                        quota: request->Create_quota,
                        ..entry
                    }.cleared(),
                );
            },
        },
        LifecycleOutcome::Idempotent { .. } => {
            lemma_retired_in_order(s, group);
        },
        LifecycleOutcome::Applied { .. } => {
            let entry = s.entry(group)->0;
            let moved = GroupFold { state: target, ..entry };
            lemma_entry_in_order(s, group, moved);
            lemma_entry_in_order(s, group, moved.cleared());
            lemma_retired_in_order(s.with_entry(group, moved), group);
        },
    }
}

proof fn lemma_submit_in_order(
    s: FoldState,
    group: GroupId,
    incarnation: crate::types::GroupIncarnation,
    work: crate::types::Work,
)
    requires
        in_order(s),
        s.groups.len() > 0 ==> s.next_work <= u64::MAX,
    ensures
        ({
            let t = s.submit(group, incarnation, work);
            let queued = s.submit_outcome(group, incarnation, work) is Queued;
            &&& forall|id: WorkId| (#[trigger] places(t, id)) <= 1
            &&& forall|id: WorkId| id@ >= t.next_work ==> (#[trigger] places(t, id)) == 0
            &&& t.admitted == s.admitted + if queued {
                1nat
            } else {
                0nat
            }
            &&& t.serviced == t.services.len()
            &&& t.failed == t.failures.len()
            &&& t.outcomes == s.outcomes
        }),
{
    let t = s.submit(group, incarnation, work);
    let outcome = s.submit_outcome(group, incarnation, work);
    if outcome is Queued {
        lemma_entry_at(s.groups, group);
        let k = find_entry(s.groups, group)->0;
        let entry = s.entry(group)->0;
        let item = QueuedWork { id: outcome->Queued_work, work };
        assert(item.id@ == s.next_work);
        let grown = t.groups[k];
        assert(t.groups == s.groups.update(k, grown));
        assert(grown.queue == entry.queue.push(item));
        assert forall|id: WorkId| #[trigger] places(t, id) == places(s, id) + if id == item.id {
            1nat
        } else {
            0nat
        } by {
            lemma_held_update(s.groups, k, grown, id);
            lemma_times_push(entry.queue, item, id);
        }
        assert forall|id: WorkId| (#[trigger] places(t, id)) <= 1 by {
            if id == item.id {
                assert(places(s, id) == 0);
            } else {
                assert(places(s, id) <= 1);
            }
        }
        assert forall|id: WorkId| id@ >= t.next_work implies (#[trigger] places(t, id)) == 0 by {
            assert(places(s, id) == 0);
        }
    }
}

proof fn lemma_invoked_in_order(s: FoldState, operation: Operation)
    requires
        in_order(s),
        s.groups.len() > 0 ==> s.next_work <= u64::MAX,
        forall|i: int, j: int| 0 <= i < j < s.groups.len() ==> s.groups[i].group@ < s.groups[j].group@,
    ensures
        in_order(s.invoked(operation)),
{
    let t = s.invoked(operation);
    lemma_answers_push(s.outcomes, s.answer(operation));
    match operation {
        Operation::Lifecycle { group, request } => {
            lemma_lifecycle_in_order(s, group, request);
            let u = s.lifecycle(group, request);
            lemma_lifecycle_outcomes(s, group, request);
            assert forall|id: WorkId| #[trigger] places(t, id) == places(u, id) by {}
        },
        Operation::OpenSession { group, incarnation, client_id, session_epoch } => {
            let u = s.open_session(group, incarnation, client_id, session_epoch);
            if s.entry(group) is Some {
                lemma_entry_at(s.groups, group);
            }
            assert(keeps_work(s, u));
            lemma_still_in_order(s, u);
            assert forall|id: WorkId| #[trigger] places(t, id) == places(u, id) by {}
        },
        Operation::Submit { group, incarnation, work } => {
            lemma_submit_in_order(s, group, incarnation, work);
            let u = s.submit(group, incarnation, work);
            assert forall|id: WorkId| #[trigger] places(t, id) == places(u, id) by {}
        },
    }
}

proof fn lemma_lifecycle_outcomes(s: FoldState, group: GroupId, request: LifecycleRequest)
    ensures
        s.lifecycle(group, request).outcomes == s.outcomes,
        s.lifecycle(group, request).admitted == s.admitted,
{
}

/// Every event keeps everything in order.
proof fn lemma_absorbed_in_order(s: FoldState, event: HistoryEvent, n: nat)
    requires
        fold_ok(s, n),
        n <= u64::MAX,
        in_order(s),
    ensures
        in_order(s.absorbed(event)),
{
    let t = if s.continues(event) {
        s
    } else {
        s.settled()
    };
    lemma_settled_ok(s, n);
    lemma_settled_frame(s);
    lemma_settled_keeps(s);
    lemma_still_in_order(s, s.settled());
    match event {
        HistoryEvent::Invoked { operation, .. } => {
            lemma_invoked_in_order(t, operation);
        },
        HistoryEvent::AvailabilityReported { tick, group, availability } => {
            let r = t.reached(tick);
            lemma_reached_frame(t, tick);
            lemma_reached_keeps(t, tick);
            lemma_still_in_order(t, r);
            lemma_availability_frame(r, group, availability);
            lemma_availability_keeps(r, group, availability);
            lemma_still_in_order(r, r.availability(group, availability));
        },
        HistoryEvent::WorkerReleased { tick, group } => {
            lemma_released_frame(t, tick, group);
            lemma_released_keeps(t, tick, group);
            lemma_still_in_order(t, t.released(tick, group));
        },
        HistoryEvent::PassArmed { pass, tick, plan } => {
            let r = t.reached(tick);
            lemma_reached_frame(t, tick);
            lemma_reached_keeps(t, tick);
            lemma_still_in_order(t, r);
            lemma_armed_frame(r, pass, tick, plan@);
            lemma_armed_keeps(r, pass, tick, plan@);
            lemma_still_in_order(r, r.armed(pass, tick, plan@));
        },
        HistoryEvent::GroupOffered { pass, tick, group, outcome } => {
            let r = t.reached(tick);
            lemma_reached_frame(t, tick);
            lemma_reached_keeps(t, tick);
            lemma_still_in_order(t, r);
            lemma_offered_frame(r, pass, tick, group, outcome);
            lemma_offered_keeps(r, pass, tick, group, outcome);
            lemma_still_in_order(r, r.offered(pass, tick, group, outcome));
        },
        HistoryEvent::WorkServiced { pass, group, work } => {
            lemma_service_in_order(t, pass, group, work);
        },
        HistoryEvent::PassCompleted { pass, tick } => {
            let r = t.reached(tick);
            lemma_reached_frame(t, tick);
            lemma_reached_keeps(t, tick);
            lemma_still_in_order(t, r);
            lemma_completed_frame(r, pass, tick);
            lemma_completed_keeps(r, pass, tick);
            lemma_still_in_order(r, r.completed(pass, tick));
        },
        _ => {},
    }
}

/// Every history leaves everything in order.
proof fn lemma_folded_in_order(config: SchedulerConfig, log: Seq<HistoryEvent>)
    requires
        config.valid(),
        log.len() <= u64::MAX,
        forall|i: int| 0 <= i < log.len() ==> event_ok(#[trigger] log[i]),
    ensures
        in_order(FoldState::folded(config, log)),
        in_order(FoldState::folded(config, log).finished()),
    decreases log.len(),
{
    let s = FoldState::folded(config, log);
    law_every_item_is_accounted_for(config, log);
    if log.len() > 0 {
        let rest = log.drop_last();
        assert forall|i: int| 0 <= i < rest.len() implies event_ok(#[trigger] rest[i]) by {
            assert(rest[i] == log[i]);
        }
        lemma_folded_in_order(config, rest);
        law_every_item_is_accounted_for(config, rest);
        lemma_absorbed_in_order(FoldState::folded(config, rest), log.last(), rest.len());
    }
    lemma_settled_frame(s);
    lemma_settled_keeps(s);
    lemma_still_in_order(s, s.settled());
}

/// An item that is recorded twice as serviced was serviced twice.
proof fn lemma_serviced_twice(services: Seq<ServiceRecord>, i: int, j: int)
    requires
        0 <= i < j < services.len(),
        services[i].work == services[j].work,
    ensures
        times_serviced(services, services[i].work) >= 2,
    decreases services.len(),
{
    let rest = services.drop_last();
    if j < services.len() - 1 {
        lemma_serviced_twice(rest, i, j);
    } else {
        lemma_serviced_once(rest, i);
    }
}

proof fn lemma_serviced_once(services: Seq<ServiceRecord>, i: int)
    requires
        0 <= i < services.len(),
    ensures
        times_serviced(services, services[i].work) >= 1,
    decreases services.len(),
{
    if i < services.len() - 1 {
        lemma_serviced_once(services.drop_last(), i);
    }
}

proof fn lemma_failed_twice(failures: Seq<FailureRecord>, i: int, j: int)
    requires
        0 <= i < j < failures.len(),
        failures[i].work == failures[j].work,
    ensures
        times_failed(failures, failures[i].work) >= 2,
    decreases failures.len(),
{
    let rest = failures.drop_last();
    if j < failures.len() - 1 {
        lemma_failed_twice(rest, i, j);
    } else {
        lemma_failed_once(rest, i);
    }
}

proof fn lemma_failed_once(failures: Seq<FailureRecord>, i: int)
    requires
        0 <= i < failures.len(),
    ensures
        times_failed(failures, failures[i].work) >= 1,
    decreases failures.len(),
{
    if i < failures.len() - 1 {
        lemma_failed_once(failures.drop_last(), i);
    }
}

/// Items that the view shows queued.
pub open spec fn shown_queued(groups: Seq<GroupView>) -> nat
    decreases groups.len(),
{
    if groups.len() == 0 {
        0
    } else {
        shown_queued(groups.drop_last()) + groups.last().queued as nat
    }
}

proof fn lemma_shown(s: FoldState, k: int)
    requires
        0 <= k <= s.groups.len(),
        forall|i: int| 0 <= i < s.groups.len() ==> (#[trigger] s.groups[i]).queue.len() <= u32::MAX,
    ensures
        shown_queued(fold_views(s).take(k)) == queued_in(s.groups.take(k)),
    decreases k,
{
    if k > 0 {
        lemma_shown(s, k - 1);
        assert(fold_views(s).take(k).drop_last() =~= fold_views(s).take(k - 1));
        assert(s.groups.take(k).drop_last() =~= s.groups.take(k - 1));
        assert(s.groups[k - 1].queue.len() <= u32::MAX);
    }
}

/// The books of a replay balance, whatever the history: every admitted item is serviced, failed or
/// queued; the counts are the numbers of queued answers, services and failures; what is queued is
/// what the view shows queued; and no item is reported twice, serviced or failed.
pub proof fn law_replay_books_balance(config: SchedulerConfig, log: Seq<HistoryEvent>)
    requires
        config.valid(),
        log.len() <= u64::MAX,
        forall|i: int| 0 <= i < log.len() ==> event_ok(#[trigger] log[i]),
    ensures
        ({
            let s = FoldState::folded(config, log).finished();
            &&& s.admitted == s.serviced + s.failed + s.queued
            &&& s.admitted == queued_answers(s.outcomes)
            &&& s.serviced == s.services.len()
            &&& s.failed == s.failures.len()
            &&& s.queued == shown_queued(fold_views(s))
            &&& forall|i: int, j: int|
                0 <= i < j < s.services.len() ==> (#[trigger] s.services[i]).work != (
                #[trigger] s.services[j]).work
            &&& forall|i: int, j: int|
                0 <= i < j < s.failures.len() ==> (#[trigger] s.failures[i]).work != (
                #[trigger] s.failures[j]).work
            &&& forall|i: int, j: int|
                0 <= i < s.services.len() && 0 <= j < s.failures.len() ==> (
                #[trigger] s.services[i]).work != (#[trigger] s.failures[j]).work
        }),
{
    let f = FoldState::folded(config, log);
    let s = f.finished();
    lemma_folded_in_order(config, log);
    law_every_item_is_accounted_for(config, log);
    lemma_settled_ok(f, log.len());
    assert(fold_ok(s, log.len()));
    assert(fold_views(s).take(s.groups.len() as int) =~= fold_views(s));
    assert(s.groups.take(s.groups.len() as int) =~= s.groups);
    lemma_shown(s, s.groups.len() as int);
    assert forall|i: int, j: int| 0 <= i < j < s.services.len() implies (
    #[trigger] s.services[i]).work != (#[trigger] s.services[j]).work by {
        if s.services[i].work == s.services[j].work {
            lemma_serviced_twice(s.services, i, j);
            assert(places(s, s.services[i].work) <= 1);
        }
    }
    assert forall|i: int, j: int| 0 <= i < j < s.failures.len() implies (
    #[trigger] s.failures[i]).work != (#[trigger] s.failures[j]).work by {
        if s.failures[i].work == s.failures[j].work {
            lemma_failed_twice(s.failures, i, j);
            assert(places(s, s.failures[i].work) <= 1);
        }
    }
    assert forall|i: int, j: int|
        0 <= i < s.services.len() && 0 <= j < s.failures.len() implies (
    #[trigger] s.services[i]).work != (#[trigger] s.failures[j]).work by {
        if s.services[i].work == s.failures[j].work {
            lemma_serviced_once(s.services, i);
            lemma_failed_once(s.failures, j);
            assert(places(s, s.services[i].work) <= 1);
        }
    }
}

/// The summary and the view of one judge agree, and every item that was admitted is serviced, failed
/// or queued.
pub proof fn law_summary_matches_the_view(
    judge: ReferenceScheduler,
    view: SchedulerView,
    summary: SchedulerSummary,
)
    requires
        judge.bounds().valid(),
        forall|i: int| 0 <= i < judge.recorded().len() ==> event_ok(#[trigger] judge.recorded()[i]),
        shows(view, judge.implied()),
        sums(summary, judge.implied()),
    ensures
        summary.admitted == summary.serviced + summary.failed + summary.queued,
        summary.queued == view.queued,
        view.queued == shown_queued(view.groups@),
{
    judge.lemma_recorded_fits();
    law_replay_books_balance(judge.bounds(), judge.recorded());
}

/// What a judge reports balances: its counts are the numbers of queued answers, services and failures
/// that it lists, and no item is listed twice.
pub proof fn law_reported_books_balance(judge: ReferenceScheduler, r: Replay)
    requires
        judge.bounds().valid(),
        forall|i: int| 0 <= i < judge.recorded().len() ==> event_ok(#[trigger] judge.recorded()[i]),
        replays(r, judge.implied()),
    ensures
        r.summary.admitted == r.summary.serviced + r.summary.failed + r.summary.queued,
        r.summary.admitted == queued_answers(r.outcomes@),
        r.summary.serviced == r.services@.len(),
        r.summary.failed == r.failures@.len(),
        r.summary.queued == r.view.queued,
        r.view.queued == shown_queued(r.view.groups@),
        forall|i: int, j: int|
            0 <= i < j < r.services@.len() ==> (#[trigger] r.services@[i]).work != (
            #[trigger] r.services@[j]).work,
        forall|i: int, j: int|
            0 <= i < j < r.failures@.len() ==> (#[trigger] r.failures@[i]).work != (
            #[trigger] r.failures@[j]).work,
        forall|i: int, j: int|
            0 <= i < r.services@.len() && 0 <= j < r.failures@.len() ==> (
            #[trigger] r.services@[i]).work != (#[trigger] r.failures@[j]).work,
{
    judge.lemma_recorded_fits();
    law_replay_books_balance(judge.bounds(), judge.recorded());
}

} // verus!
