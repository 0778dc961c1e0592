//! What holds of every state the managed scheduler can reach, and why each transition keeps it.

use vstd::prelude::*;

use crate::model::state::{
    abandoned, find_session, first_free, ids_where, is_session_of, lemma_session_found,
    next_sequence, ClassQueues, Dispatch, GroupState, PlanState, QueuedWork, ReportState,
    SchedulerState, Session,
};
use crate::types::{
    ClientId, GroupId, GroupIncarnation, GroupLifecycle, LifecycleRequest, Offer, PassIndex,
    ReadinessSignal, SchedulerConfig, SessionEpoch, Work, WorkClass,
};

verus! {

/// Number of items queued across a slot table.
pub open spec fn total_queued(slots: Seq<Option<GroupState>>) -> nat
    decreases slots.len(),
{
    if slots.len() == 0 {
        0
    } else {
        total_queued(slots.drop_last()) + slot_queued(slots.last())
    }
}

/// Number of items one slot holds.
pub open spec fn slot_queued(slot: Option<GroupState>) -> nat {
    match slot {
        Some(group) => group.queue.len(),
        None => 0,
    }
}

/// Items of one class: all of that class, issued before `next_work`, in admission order.
pub open spec fn lane_ok(lane: Seq<QueuedWork>, class: WorkClass, next_work: u64) -> bool {
    &&& forall|i: int|
        0 <= i < lane.len() ==> {
            &&& (#[trigger] lane[i]).work.class() == class
            &&& lane[i].id@ < next_work
            &&& lane[i].work.cost().valid()
        }
    &&& forall|i: int, j: int| 0 <= i < j < lane.len() ==> lane[i].id@ < lane[j].id@
}

/// Every class queue holds its own class in admission order.
pub open spec fn queue_ok(queue: ClassQueues, next_work: u64) -> bool {
    &&& lane_ok(queue.control, WorkClass::Control, next_work)
    &&& lane_ok(queue.command, WorkClass::Command, next_work)
    &&& lane_ok(queue.snapshot, WorkClass::Snapshot, next_work)
    &&& lane_ok(queue.bulk, WorkClass::Bulk, next_work)
}

/// Item `k` of the command queue is the one `session` has outstanding.
pub open spec fn backs(queue: ClassQueues, k: int, session: Session) -> bool {
    &&& 0 <= k < queue.command.len()
    &&& session.outstanding is Some
    &&& queue.command[k].id == session.outstanding->0.work
    &&& queue.command[k].work matches Work::Counter { request, command, .. } && {
        &&& request.client_id == session.client_id
        &&& request.session_epoch == session.epoch
        &&& request.sequence == session.outstanding->0.sequence
        &&& command == session.outstanding->0.command
    }
}

/// One session: whatever it has outstanding is queued, and is the sequence it accepts next.
pub open spec fn session_ok(queue: ClassQueues, session: Session) -> bool {
    session.outstanding is Some ==> {
        &&& session.outstanding->0.sequence@ == next_sequence(session)
        &&& exists|k: int| backs(queue, k, session)
    }
}

/// At most one session per client, every client in range, and every session sound.
pub open spec fn sessions_ok(group: GroupState, clients_bound: u32) -> bool {
    &&& forall|i: int|
        0 <= i < group.sessions.len() ==> {
            &&& (#[trigger] group.sessions[i]).client_id@ < clients_bound
            &&& session_ok(group.queue, group.sessions[i])
        }
    &&& forall|i: int, j: int|
        0 <= i < j < group.sessions.len() ==> group.sessions[i].client_id
            != group.sessions[j].client_id
}

/// One slot on its own.
pub open spec fn group_ok(group: GroupState, config: SchedulerConfig, next_work: u64) -> bool {
    &&& group.quota.valid()
    &&& group.incarnation.valid()
    &&& group.queue.len() <= config.group_queue_bound()
    &&& queue_ok(group.queue, next_work)
    &&& sessions_ok(group, config.clients_bound())
    &&& !group.state.is_serviceable() ==> group.queue.len() == 0 && !group.poisoned
    &&& group.state is Removed || group.state is Tombstoned ==> group.counter == 0
        && group.sessions.len() == 0
}

/// Whether some worker is held for slot `id`.
pub open spec fn held(s: SchedulerState, id: int) -> bool {
    exists|w: int| holds(s, w, id)
}

/// Whether worker `w` is held for slot `id`.
pub open spec fn holds(s: SchedulerState, w: int, id: int) -> bool {
    &&& 0 <= w < s.workers.len()
    &&& s.workers[w] is Some
    &&& s.workers[w]->0.group@ == id
}

/// Workers and the groups they serve agree, and no group holds two.
pub open spec fn workers_ok(s: SchedulerState) -> bool {
    &&& s.workers.len() == s.config.workers_bound()
    &&& forall|w: int|
        0 <= w < s.workers.len() && (#[trigger] s.workers[w]) is Some ==> {
            &&& s.workers[w]->0.group@ < s.slots.len()
            &&& s.slots[s.workers[w]->0.group@ as int] is Some
            &&& s.slots[s.workers[w]->0.group@ as int]->0.servicing
        }
    &&& forall|v: int, w: int|
        0 <= v < w < s.workers.len() && s.workers[v] is Some && s.workers[w] is Some
            ==> s.workers[v]->0.group@ != s.workers[w]->0.group@
    &&& forall|id: int|
        0 <= id < s.slots.len() && (#[trigger] s.slots[id]) is Some && s.slots[id]->0.servicing
            ==> held(s, id)
}

/// A group that is owed a turn still has the work that made it ready, and nothing but a stall can
/// keep it from taking the turn.
pub open spec fn owed(group: GroupState) -> bool {
    &&& group.state.is_serviceable()
    &&& !group.poisoned
    &&& !group.servicing
    &&& group.queue.len() > 0
}

/// A pass in progress names distinct created groups, and those not yet offered are still owed.
pub open spec fn plan_ok(s: SchedulerState, plan: PlanState) -> bool {
    &&& 0 < plan.entries.len()
    &&& plan.next <= plan.entries.len()
    &&& plan.pass@ < s.next_pass@
    &&& forall|i: int|
        0 <= i < plan.entries.len() ==> (#[trigger] plan.entries[i])@ < s.slots.len()
            && s.slots[plan.entries[i]@ as int] is Some
    &&& forall|i: int, j: int|
        0 <= i < j < plan.entries.len() ==> plan.entries[i]@ != plan.entries[j]@
    &&& forall|i: int|
        plan.next <= i < plan.entries.len() ==> owed(
            s.slots[(#[trigger] plan.entries[i])@ as int]->0,
        )
}

/// Everything but the pass in progress.
pub open spec fn core_inv(s: SchedulerState) -> bool {
    &&& s.config.valid()
    &&& s.slots.len() <= s.config.groups_bound()
    &&& s.cursor < s.config.groups_bound()
    &&& s.next_pass.valid()
    &&& s.admitted + 1 == s.next_work
    &&& s.queued == total_queued(s.slots)
    &&& s.queued <= s.config.global_queue_bound()
    &&& s.admitted == s.serviced + s.failed + s.queued
    &&& forall|id: int|
        0 <= id < s.slots.len() && (#[trigger] s.slots[id]) is Some ==> group_ok(
            s.slots[id]->0,
            s.config,
            s.next_work,
        )
    &&& workers_ok(s)
}

/// What holds of every state the scheduler can reach.
pub open spec fn inv(s: SchedulerState) -> bool {
    &&& core_inv(s)
    &&& s.plan is Some ==> plan_ok(s, s.plan->0) && s.plan->0.next < s.plan->0.entries.len()
}

// -------------------------------------------------------------------- sums

/// Replacing one slot moves the total by the difference.
pub proof fn lemma_total_update(slots: Seq<Option<GroupState>>, i: int, slot: Option<GroupState>)
    requires
        0 <= i < slots.len(),
    ensures
        total_queued(slots.update(i, slot)) == total_queued(slots) - slot_queued(slots[i])
            + slot_queued(slot),
    decreases slots.len(),
{
    let updated = slots.update(i, slot);
    if i == slots.len() - 1 {
        assert(updated.drop_last() =~= slots.drop_last());
    } else {
        assert(updated.drop_last() =~= slots.drop_last().update(i, slot));
        lemma_total_update(slots.drop_last(), i, slot);
    }
}

/// Two tables whose slots hold equally many items hold equally many items in all, even when one
/// is longer by slots that hold nothing.
pub proof fn lemma_total_same(a: Seq<Option<GroupState>>, b: Seq<Option<GroupState>>)
    requires
        a.len() <= b.len(),
        forall|i: int| 0 <= i < a.len() ==> slot_queued(#[trigger] a[i]) == slot_queued(b[i]),
        forall|i: int| a.len() <= i < b.len() ==> slot_queued(#[trigger] b[i]) == 0,
    ensures
        total_queued(a) == total_queued(b),
    decreases b.len(),
{
    if b.len() > 0 {
        if a.len() == b.len() {
            lemma_total_same(a.drop_last(), b.drop_last());
        } else {
            assert forall|i: int| 0 <= i < a.len() implies slot_queued(#[trigger] a[i])
                == slot_queued(b.drop_last()[i]) by {}
            lemma_total_same(a, b.drop_last());
        }
    }
}

/// No slot holds more than the whole table.
pub proof fn lemma_total_bounds(slots: Seq<Option<GroupState>>, i: int)
    requires
        0 <= i < slots.len(),
    ensures
        slot_queued(slots[i]) <= total_queued(slots),
    decreases slots.len(),
{
    if i < slots.len() - 1 {
        lemma_total_bounds(slots.drop_last(), i);
        assert(slots.drop_last()[i] == slots[i]);
    }
}

// -------------------------------------------------------------------- one slot

/// Replacing a slot by one with the same queue and the same worker keeps everything.
pub proof fn lemma_slot_replaced(s: SchedulerState, group: GroupId, slot: GroupState)
    requires
        inv(s),
        s.slot(group) is Some,
        group_ok(slot, s.config, s.next_work),
        slot.queue.len() == s.slot(group)->0.queue.len(),
        slot.servicing == s.slot(group)->0.servicing,
        owed(s.slot(group)->0) ==> owed(slot),
    ensures
        inv(s.with_slot(group, slot)),
{
    lemma_total_update(s.slots, group@ as int, Some(slot));
    let t = s.with_slot(group, slot);
    assert forall|id: int| 0 <= id < t.slots.len() && (#[trigger] t.slots[id]) is Some
        && t.slots[id]->0.servicing implies held(t, id) by {
        assert(s.slots[id] is Some);
        assert(held(s, id));
        let w = choose|w: int| holds(s, w, id);
        assert(holds(t, w, id));
    }
}

/// Growing the table keeps everything.
pub proof fn lemma_grown(s: SchedulerState, group: GroupId)
    requires
        inv(s),
        group@ < s.config.groups_bound(),
    ensures
        inv(s.grown(group)),
        group@ < s.grown(group).slots.len(),
        s.grown(group).slot(group) == s.slot(group),
{
    let t = s.grown(group);
    lemma_total_same(s.slots, t.slots);
    assert forall|id: int| 0 <= id < t.slots.len() && (#[trigger] t.slots[id]) is Some
        && t.slots[id]->0.servicing implies held(t, id) by {
        assert(s.slots[id] is Some);
        assert(held(s, id));
        let w = choose|w: int| holds(s, w, id);
        assert(holds(t, w, id));
    }
}

/// Filling an empty slot with a group that holds nothing keeps everything.
pub proof fn lemma_slot_filled(s: SchedulerState, group: GroupId, slot: GroupState)
    requires
        inv(s),
        group@ < s.slots.len(),
        s.slots[group@ as int] is None,
        group_ok(slot, s.config, s.next_work),
        slot.queue.len() == 0,
        !slot.servicing,
    ensures
        inv(s.with_slot(group, slot)),
{
    lemma_total_update(s.slots, group@ as int, Some(slot));
    let t = s.with_slot(group, slot);
    assert forall|id: int| 0 <= id < t.slots.len() && (#[trigger] t.slots[id]) is Some
        && t.slots[id]->0.servicing implies held(t, id) by {
        assert(s.slots[id] is Some);
        assert(held(s, id));
        let w = choose|w: int| holds(s, w, id);
        assert(holds(t, w, id));
    }
}

// -------------------------------------------------------------------- lifecycle

/// Lifecycle transitions keep the invariant.
pub proof fn lemma_lifecycle_inv(s: SchedulerState, group: GroupId, request: LifecycleRequest)
    requires
        inv(s),
        request matches LifecycleRequest::Create { quota } ==> quota.valid(),
    ensures
        inv(s.lifecycle(group, request).0),
{
    if group@ < s.config.groups_bound() {
        match request {
            LifecycleRequest::Create { quota } => {
                let grown = s.grown(group);
                lemma_grown(s, group);
                match grown.slots[group@ as int] {
                    None => {
                        lemma_slot_filled(
                            grown,
                            group,
                            GroupState::fresh(GroupIncarnation(1), quota),
                        );
                    },
                    Some(slot) => {
                        if slot.state is Removed && slot.incarnation@ < u32::MAX {
                            let next = GroupIncarnation((slot.incarnation@ + 1) as u32);
                            lemma_slot_replaced(
                                grown,
                                group,
                                (GroupState {
                                    incarnation: next,
                                    state: GroupLifecycle::Creating,
                                    quota,
                                    ..slot
                                }).cleared(),
                            );
                        }
                    },
                }
            },
            LifecycleRequest::Recover => {
                lemma_advance_inv(s, group, GroupLifecycle::Creating, GroupLifecycle::Recovering);
            },
            LifecycleRequest::Serve => {
                lemma_advance_inv(s, group, GroupLifecycle::Recovering, GroupLifecycle::Serving);
            },
            LifecycleRequest::Drain => {
                lemma_drain_inv(s, group);
                lemma_retire_inv(s.drain(group).0, group);
            },
            LifecycleRequest::Remove => {
                lemma_remove_inv(s, group);
            },
            LifecycleRequest::Tombstone => {
                lemma_advance_inv(s, group, GroupLifecycle::Removed, GroupLifecycle::Tombstoned);
            },
        }
    }
}

/// A single-predecessor transition keeps the invariant.
pub proof fn lemma_advance_inv(
    s: SchedulerState,
    group: GroupId,
    from: GroupLifecycle,
    to: GroupLifecycle,
)
    requires
        inv(s),
        from.is_serviceable() ==> to.is_serviceable(),
        to is Removed || to is Tombstoned ==> from is Removed,
    ensures
        inv(s.advance(group, from, to).0),
{
    match s.slot(group) {
        Some(slot) => {
            if slot.state == from && slot.state != to && !(slot.state is Tombstoned) {
                lemma_slot_replaced(s, group, GroupState { state: to, ..slot });
            }
        },
        None => {},
    }
}

/// Entering draining keeps the invariant.
pub proof fn lemma_drain_inv(s: SchedulerState, group: GroupId)
    requires
        inv(s),
    ensures
        inv(s.drain(group).0),
{
    match s.slot(group) {
        Some(slot) => {
            if slot.state is Creating || slot.state is Recovering || slot.state is Serving {
                lemma_slot_replaced(
                    s,
                    group,
                    GroupState { state: GroupLifecycle::Draining, ..slot },
                );
            }
        },
        None => {},
    }
}

/// Removal keeps the invariant.
pub proof fn lemma_remove_inv(s: SchedulerState, group: GroupId)
    requires
        inv(s),
    ensures
        inv(s.remove(group).0),
{
    match s.slot(group) {
        Some(slot) => {
            if slot.state is Draining && slot.queue.len() == 0 {
                lemma_slot_replaced(
                    s,
                    group,
                    (GroupState { state: GroupLifecycle::Removed, ..slot }).cleared(),
                );
            }
        },
        None => {},
    }
}

/// Retiring a poisoned queue keeps the invariant.
pub proof fn lemma_retire_inv(s: SchedulerState, group: GroupId)
    requires
        inv(s),
    ensures
        inv(s.retire_poisoned(group).0),
{
    match s.slot(group) {
        Some(slot) => {
            if slot.poisoned {
                let retired = GroupState {
                    queue: ClassQueues::empty(),
                    sessions: abandoned(slot.sessions),
                    ..slot
                };
                lemma_total_update(s.slots, group@ as int, Some(retired));
                lemma_total_bounds(s.slots, group@ as int);
                let t = s.retire_poisoned(group).0;
                assert forall|id: int| 0 <= id < t.slots.len() && (#[trigger] t.slots[id]) is Some
                    && t.slots[id]->0.servicing implies held(t, id) by {
                    assert(s.slots[id] is Some);
                    assert(held(s, id));
                    let w = choose|w: int| holds(s, w, id);
                    assert(holds(t, w, id));
                }
            }
        },
        None => {},
    }
}

// -------------------------------------------------------------------- admission

/// Session requests keep the invariant.
pub proof fn lemma_open_session_inv(
    s: SchedulerState,
    group: GroupId,
    incarnation: GroupIncarnation,
    client: ClientId,
    epoch: SessionEpoch,
)
    requires
        inv(s),
    ensures
        inv(s.open_session(group, incarnation, client, epoch)),
{
    let outcome = s.session_outcome(group, incarnation, client, epoch);
    if outcome is Opened || outcome is Replaced {
        let slot = s.slot(group)->0;
        let blank = Session { client_id: client, epoch, outstanding: None, completed: None };
        if outcome is Opened {
            assert forall|j: int| 0 <= j < slot.sessions.len() implies (
            #[trigger] slot.sessions[j]).client_id != client by {
                if slot.sessions[j].client_id == client {
                    lemma_some_session(slot.sessions, client, j);
                }
            }
            lemma_slot_replaced(
                s,
                group,
                GroupState { sessions: slot.sessions.push(blank), ..slot },
            );
        } else {
            let i = find_session(slot.sessions, client)->0;
            assert(is_session_of(slot.sessions, client, i));
            lemma_slot_replaced(
                s,
                group,
                GroupState { sessions: slot.sessions.update(i, blank), ..slot },
            );
        }
    }
}

/// A client that holds a session anywhere is found.
pub proof fn lemma_some_session(sessions: Seq<Session>, client: ClientId, j: int)
    requires
        0 <= j < sessions.len(),
        sessions[j].client_id == client,
    ensures
        find_session(sessions, client) is Some,
        is_session_of(sessions, client, find_session(sessions, client)->0),
    decreases j,
{
    if exists|k: int| 0 <= k < j && sessions[k].client_id == client {
        let k = choose|k: int| 0 <= k < j && sessions[k].client_id == client;
        lemma_some_session(sessions, client, k);
    } else {
        assert(is_session_of(sessions, client, j));
    }
}

/// Appending an item issued next keeps every class queue sound.
pub proof fn lemma_push_ok(queue: ClassQueues, item: QueuedWork, next_work: u64)
    requires
        queue_ok(queue, next_work),
        item.id@ == next_work,
        next_work < u64::MAX,
        item.work.cost().valid(),
    ensures
        queue_ok(queue.push(item), (next_work + 1) as u64),
        queue.push(item).len() == queue.len() + 1,
{
}

/// An item that backs a session still backs it behind a push.
pub proof fn lemma_push_backs(queue: ClassQueues, item: QueuedWork, k: int, session: Session)
    requires
        backs(queue, k, session),
    ensures
        backs(queue.push(item), k, session),
{
}

/// Submissions keep the invariant.
pub proof fn lemma_submit_inv(
    s: SchedulerState,
    group: GroupId,
    incarnation: GroupIncarnation,
    work: Work,
)
    requires
        inv(s),
        work.cost().valid(),
        s.submit_outcome(group, incarnation, work) is Queued ==> s.next_work < u64::MAX,
    ensures
        inv(s.submit(group, incarnation, work)),
{
    let outcome = s.submit_outcome(group, incarnation, work);
    if outcome is Queued {
        let slot = s.slot(group)->0;
        let t = s.submit(group, incarnation, work);
        let id = outcome->Queued_work;
        let item = QueuedWork { id, work };
        let next = t.slot(group)->0;
        lemma_push_ok(slot.queue, item, s.next_work);
        lemma_total_update(s.slots, group@ as int, Some(next));
        assert forall|i: int| 0 <= i < next.sessions.len() implies session_ok(
            next.queue,
            #[trigger] next.sessions[i],
        ) by {
            let found = if work is Counter {
                find_session(slot.sessions, work->Counter_request.client_id)
            } else {
                None
            };
            if found == Some(i) {
                assert(is_session_of(slot.sessions, work->Counter_request.client_id, i));
                let k = slot.queue.command.len() as int;
                assert(next.queue.command[k] == item);
                assert(backs(next.queue, k, next.sessions[i]));
            } else {
                assert(session_ok(slot.queue, slot.sessions[i]));
                assert(next.sessions[i] == slot.sessions[i]);
                if slot.sessions[i].outstanding is Some {
                    let k = choose|k: int| backs(slot.queue, k, slot.sessions[i]);
                    lemma_push_backs(slot.queue, item, k, slot.sessions[i]);
                }
            }
        }
        assert forall|id: int| 0 <= id < t.slots.len() && (#[trigger] t.slots[id]) is Some
            && t.slots[id]->0.servicing implies held(t, id) by {
            assert(s.slots[id] is Some);
            assert(held(s, id));
            let w = choose|w: int| holds(s, w, id);
            assert(holds(t, w, id));
        }
        assert(group_ok(next, t.config, t.next_work));
        assert forall|id: int| 0 <= id < t.slots.len() && (
        #[trigger] t.slots[id]) is Some implies group_ok(t.slots[id]->0, t.config, t.next_work) by {
            if id != group@ {
                assert(s.slots[id] == t.slots[id]);
            }
        }
    }
}

// -------------------------------------------------------------------- stepping

/// A readiness report keeps the invariant.
pub proof fn lemma_signalled_inv(s: SchedulerState, signal: ReadinessSignal)
    requires
        inv(s),
    ensures
        inv(s.signalled(signal)),
{
    match s.slot(signal.group) {
        Some(slot) => {
            if signal.group@ < s.config.groups_bound() {
                lemma_slot_replaced(s, signal.group, s.signalled(signal).slot(signal.group)->0);
            }
        },
        None => {},
    }
}

/// Releasing due workers keeps the invariant.
pub proof fn lemma_released_inv(s: SchedulerState)
    requires
        inv(s),
    ensures
        inv(s.released()),
{
    let t = s.released();
    lemma_total_same(s.slots, t.slots);
    assert forall|id: int| 0 <= id < t.slots.len() && (
    #[trigger] t.slots[id]) is Some implies group_ok(t.slots[id]->0, t.config, t.next_work) by {
        assert(s.slots[id] is Some);
    }
    assert forall|w: int| 0 <= w < t.workers.len() && (#[trigger] t.workers[w]) is Some implies {
        &&& t.workers[w]->0.group@ < t.slots.len()
        &&& t.slots[t.workers[w]->0.group@ as int] is Some
        &&& t.slots[t.workers[w]->0.group@ as int]->0.servicing
    } by {
        assert(s.workers[w] is Some);
        let id = s.workers[w]->0.group@ as int;
        if s.group_due(id) {
            let v = choose|v: int| #[trigger] s.worker_due(v) && s.workers[v]->0.group@ == id;
            assert(v == w);
        }
    }
    assert forall|v: int, w: int|
        0 <= v < w < t.workers.len() && t.workers[v] is Some
            && t.workers[w] is Some implies t.workers[v]->0.group@ != t.workers[w]->0.group@ by {
        assert(s.workers[v] is Some && s.workers[w] is Some);
    }
    assert forall|id: int| 0 <= id < t.slots.len() && (#[trigger] t.slots[id]) is Some
        && t.slots[id]->0.servicing implies held(t, id) by {
        assert(s.slots[id] is Some);
        assert(held(s, id));
        let w = choose|w: int| holds(s, w, id);
        if s.worker_due(w) {
            assert(s.group_due(id));
        }
        assert(holds(t, w, id));
    }
    if s.plan is Some {
        let plan = s.plan->0;
        assert forall|i: int| plan.next <= i < plan.entries.len() implies owed(
            t.slots[(#[trigger] plan.entries[i])@ as int]->0,
        ) by {
            assert(owed(s.slots[plan.entries[i]@ as int]->0));
        }
    }
}

/// Taking the head of a sound queue leaves a sound queue.
pub proof fn lemma_pop_ok(queue: ClassQueues, next_work: u64)
    requires
        queue_ok(queue, next_work),
        queue.len() > 0,
    ensures
        queue_ok(queue.pop(), next_work),
        queue.pop().len() == queue.len() - 1,
        queue.head().work.cost().valid(),
        queue.head().id@ < next_work,
{
}

/// What one service keeps of a group.
pub proof fn lemma_served_one(g: GroupState, config: SchedulerConfig, next_work: u64)
    requires
        group_ok(g, config, next_work),
        g.queue.len() > 0,
    ensures
        group_ok(
            (GroupState { queue: g.queue.pop(), ..g }).applied(g.queue.head()),
            config,
            next_work,
        ),
        g.queue.pop().len() == g.queue.len() - 1,
{
    let item = g.queue.head();
    let popped = GroupState { queue: g.queue.pop(), ..g };
    let after = popped.applied(item);
    lemma_pop_ok(g.queue, next_work);
    assert(after.queue == g.queue.pop());
    assert forall|i: int| 0 <= i < after.sessions.len() implies session_ok(
        after.queue,
        #[trigger] after.sessions[i],
    ) by {
        assert(session_ok(g.queue, g.sessions[i]));
        let session = after.sessions[i];
        if session.outstanding is Some {
            assert(session == g.sessions[i]);
            let k = choose|k: int| backs(g.queue, k, session);
            if g.queue.control.len() == 0 {
                if k == 0 {
                    // The popped item backs this session, so servicing it settled the session.
                    let request = item.work->Counter_request;
                    if is_session_of(g.sessions, request.client_id, i) {
                        lemma_session_found(g.sessions, request.client_id, i);
                    } else {
                        lemma_some_session(g.sessions, request.client_id, i);
                    }
                    assert(false);
                }
                assert(backs(after.queue, k - 1, session));
            } else {
                assert(backs(after.queue, k, session));
            }
        }
    }
    assert forall|i: int, j: int| 0 <= i < j < after.sessions.len() implies after.sessions[i].client_id
        != after.sessions[j].client_id by {
        assert(after.sessions[i].client_id == g.sessions[i].client_id);
        assert(after.sessions[j].client_id == g.sessions[j].client_id);
    }
    assert forall|i: int| 0 <= i < after.sessions.len() implies (
    #[trigger] after.sessions[i]).client_id@ < config.clients_bound() by {
        assert(after.sessions[i].client_id == g.sessions[i].client_id);
    }
}

/// What a partial turn keeps of a group, and the facts its bookkeeping rests on.
pub proof fn lemma_served(g: GroupState, group: GroupId, n: nat, config: SchedulerConfig, next_work: u64)
    requires
        group_ok(g, config, next_work),
        n <= g.queue.len(),
        g.state.is_serviceable(),
    ensures
        group_ok(g.served(n), config, next_work),
        g.served(n).queue.len() == g.queue.len() - n,
        g.served(n).state == g.state,
        g.served(n).quota == g.quota,
        g.served(n).incarnation == g.incarnation,
        g.served(n).stalled == g.stalled,
        g.served(n).servicing == g.servicing,
        g.served_records(group, n).len() == n,
        n <= g.served_cost(n) <= n * 0xffff_ffff,
    decreases n,
{
    if n > 0 {
        lemma_served(g, group, (n - 1) as nat, config, next_work);
        let before = g.served((n - 1) as nat);
        lemma_served_one(before, config, next_work);
        lemma_pop_ok(before.queue, next_work);
    }
}

/// A turn services at least one item, no more than the quota, and no more than is queued.
pub proof fn lemma_turn_len(g: GroupState, n: nat, config: SchedulerConfig, next_work: u64)
    requires
        group_ok(g, config, next_work),
        g.state.is_serviceable(),
        n <= g.queue.len(),
        n <= g.quota@,
    ensures
        n <= g.turn_len_from(n) <= g.quota@,
        g.turn_len_from(n) <= g.queue.len(),
        g.turn_ends(g.turn_len_from(n)),
        n == 0 && owed(g) ==> g.turn_len_from(n) > 0,
    decreases g.quota@ - n,
{
    lemma_served(g, GroupId::at(0), n, config, next_work);
    if !g.turn_ends(n) {
        lemma_turn_len(g, n + 1, config, next_work);
    }
}

/// A group's turn keeps the invariant and uses up what the plan owed it.
pub proof fn lemma_offered(s: SchedulerState, plan: PlanState, worker: int)
    requires
        core_inv(s),
        plan_ok(s, plan),
        plan.next < plan.entries.len(),
        0 <= worker < s.workers.len(),
        s.workers[worker] is None,
    ensures
        core_inv(s.offered(plan.entries[plan.next as int], worker)),
        plan_ok(
            s.offered(plan.entries[plan.next as int], worker),
            PlanState { next: plan.next + 1, ..plan },
        ),
        !s.slot(plan.entries[plan.next as int])->0.stalled ==> ({
            let slot = s.slot(plan.entries[plan.next as int])->0;
            &&& 0 < slot.turn_len() <= slot.quota@
            &&& slot.turn_len() <= slot.queue.len() <= s.queued
            &&& slot.served_cost(slot.turn_len()) <= u64::MAX
        }),
{
    let group = plan.entries[plan.next as int];
    let slot = s.slot(group)->0;
    let t = s.offered(group, worker);
    let after = PlanState { next: plan.next + 1, ..plan };
    assert(owed(slot));
    assert(group_ok(slot, s.config, s.next_work));
    if !slot.stalled {
        let n = slot.turn_len();
        lemma_turn_len(slot, 0, s.config, s.next_work);
        lemma_served(slot, group, n, s.config, s.next_work);
        assert(n * 0xffff_ffff <= 0xffff_ffff * 0xffff_ffff) by (nonlinear_arith)
            requires
                n <= 0xffff_ffff,
        ;
        let next = GroupState { servicing: true, ..slot.served(n) };
        lemma_total_update(s.slots, group@ as int, Some(next));
        lemma_total_bounds(s.slots, group@ as int);
        assert(!slot.served(n).servicing);
        assert(sessions_ok(next, t.config.clients_bound()));
        assert(t.slots[group@ as int] == Some(next));
        assert forall|w: int| 0 <= w < t.workers.len() && (
        #[trigger] t.workers[w]) is Some implies {
            &&& t.workers[w]->0.group@ < t.slots.len()
            &&& t.slots[t.workers[w]->0.group@ as int] is Some
            &&& t.slots[t.workers[w]->0.group@ as int]->0.servicing
        } by {
            if w != worker {
                assert(s.workers[w] is Some);
            }
        }
        assert forall|v: int, w: int|
            0 <= v < w < t.workers.len() && t.workers[v] is Some
                && t.workers[w] is Some implies t.workers[v]->0.group@ != t.workers[w]->0.group@ by {
            if v != worker && w != worker {
                assert(s.workers[v] is Some && s.workers[w] is Some);
            } else if v == worker {
                assert(s.workers[w] is Some);
            } else {
                assert(s.workers[v] is Some);
            }
        }
        assert forall|id: int| 0 <= id < t.slots.len() && (#[trigger] t.slots[id]) is Some
            && t.slots[id]->0.servicing implies held(t, id) by {
            if id == group@ {
                assert(holds(t, worker, id));
            } else {
                assert(s.slots[id] is Some);
                assert(held(s, id));
                let w = choose|w: int| holds(s, w, id);
                assert(holds(t, w, id));
            }
        }
        assert forall|id: int| 0 <= id < t.slots.len() && (
        #[trigger] t.slots[id]) is Some implies group_ok(t.slots[id]->0, t.config, t.next_work) by {
            if id != group@ {
                assert(s.slots[id] == t.slots[id]);
            }
        }
        assert forall|i: int| after.next <= i < after.entries.len() implies owed(
            t.slots[(#[trigger] after.entries[i])@ as int]->0,
        ) by {
            assert(owed(s.slots[plan.entries[i]@ as int]->0));
            assert(plan.entries[i]@ != group@);
        }
    }
}

/// A free worker that is found is free.
pub proof fn lemma_first_free(workers: Seq<Option<Dispatch>>, from: int)
    requires
        0 <= from <= workers.len(),
    ensures
        match first_free(workers, from) {
            Some(w) => from <= w < workers.len() && workers[w] is None && forall|v: int|
                from <= v < w ==> workers[v] is Some,
            None => forall|v: int| from <= v < workers.len() ==> workers[v] is Some,
        },
    decreases workers.len() - from,
{
    if from < workers.len() && workers[from] is Some {
        lemma_first_free(workers, from + 1);
    }
}

/// The pass, the cursor, and the clock do not enter the rest of the invariant.
pub proof fn lemma_core_frame(s: SchedulerState, t: SchedulerState)
    requires
        core_inv(s),
        t.cursor < t.config.groups_bound(),
        t.next_pass.valid(),
        t == (SchedulerState {
            plan: t.plan,
            cursor: t.cursor,
            tick: t.tick,
            next_pass: t.next_pass,
            ..s
        }),
    ensures
        core_inv(t),
{
    assert forall|id: int| 0 <= id < t.slots.len() && (#[trigger] t.slots[id]) is Some
        && t.slots[id]->0.servicing implies held(t, id) by {
        assert(held(s, id));
        let w = choose|w: int| holds(s, w, id);
        assert(holds(t, w, id));
    }
}

/// Traversing a pass keeps the invariant.
pub proof fn lemma_traversed_inv(s: SchedulerState, plan: PlanState, report: ReportState)
    requires
        core_inv(s),
        s.plan is None,
        plan_ok(s, plan),
    ensures
        inv(s.traversed(plan, report).0),
    decreases plan.entries.len() - plan.next,
{
    if plan.next >= plan.entries.len() {
        lemma_core_frame(s, s.traversed(plan, report).0);
    } else {
        lemma_first_free(s.workers, 0);
        match first_free(s.workers, 0) {
            None => {
                lemma_core_frame(s, s.traversed(plan, report).0);
            },
            Some(worker) => {
                lemma_offered(s, plan, worker);
                let group = plan.entries[plan.next as int];
                let t = s.offered(group, worker);
                let next = PlanState { next: plan.next + 1, ..plan };
                let report_next = ReportState {
                    offers: report.offers.push(
                        Offer { group, outcome: s.offer_outcome(group) },
                    ),
                    serviced: report.serviced + s.offer_records(group),
                    ..report
                };
                lemma_traversed_inv(t, next, report_next);
            },
        }
    }
}

// -------------------------------------------------------------------- passes

/// Ascending identifiers: in range, satisfying, strictly increasing, and complete.
pub proof fn lemma_ids_where(lo: int, hi: int, pred: spec_fn(int) -> bool)
    requires
        0 <= lo,
        hi <= u32::MAX + 1,
    ensures
        forall|i: int|
            0 <= i < ids_where(lo, hi, pred).len() ==> {
                &&& lo <= (#[trigger] ids_where(lo, hi, pred)[i])@ < hi
                &&& pred(ids_where(lo, hi, pred)[i]@ as int)
            },
        forall|i: int, j: int|
            0 <= i < j < ids_where(lo, hi, pred).len() ==> ids_where(lo, hi, pred)[i]@
                < ids_where(lo, hi, pred)[j]@,
        forall|id: int|
            lo <= id < hi && #[trigger] pred(id) ==> ids_where(lo, hi, pred).contains(
                GroupId::at(id),
            ),
    decreases hi - lo,
{
    if lo < hi {
        lemma_ids_where(lo, hi - 1, pred);
        let rest = ids_where(lo, hi - 1, pred);
        let all = ids_where(lo, hi, pred);
        assert forall|id: int| lo <= id < hi && #[trigger] pred(id) implies all.contains(
            GroupId::at(id),
        ) by {
            if id == hi - 1 {
                assert(all[all.len() - 1] == GroupId::at(id));
            } else {
                assert(rest.contains(GroupId::at(id)));
                let i = choose|i: int| 0 <= i < rest.len() && rest[i] == GroupId::at(id);
                assert(all[i] == GroupId::at(id));
            }
        }
    }
}

/// A listing is no longer than the range it lists.
pub proof fn lemma_ids_len(lo: int, hi: int, pred: spec_fn(int) -> bool)
    ensures
        ids_where(lo, hi, pred).len() <= if lo <= hi {
            hi - lo
        } else {
            0
        },
    decreases hi - lo,
{
    if lo < hi {
        lemma_ids_len(lo, hi - 1, pred);
    }
}

/// A strictly increasing, complete listing is the ascending listing.
pub proof fn lemma_ids_unique(v: Seq<GroupId>, lo: int, hi: int, pred: spec_fn(int) -> bool)
    requires
        0 <= lo,
        hi <= u32::MAX + 1,
        forall|i: int|
            0 <= i < v.len() ==> lo <= (#[trigger] v[i])@ < hi && pred(v[i]@ as int),
        forall|i: int, j: int| 0 <= i < j < v.len() ==> v[i]@ < v[j]@,
        forall|id: int| lo <= id < hi && #[trigger] pred(id) ==> v.contains(GroupId::at(id)),
    ensures
        v == ids_where(lo, hi, pred),
    decreases hi - lo,
{
    if hi <= lo {
        assert(v.len() == 0) by {
            if v.len() > 0 {
                assert(lo <= v[0]@ < hi);
            }
        }
        assert(v =~= Seq::<GroupId>::empty());
    } else if pred(hi - 1) {
        assert(v.contains(GroupId::at(hi - 1)));
        let k = choose|k: int| 0 <= k < v.len() && v[k] == GroupId::at(hi - 1);
        assert(k == v.len() - 1) by {
            if k < v.len() - 1 {
                assert(v[k]@ < v[v.len() - 1]@);
            }
        }
        let rest = v.drop_last();
        assert forall|i: int| 0 <= i < rest.len() implies lo <= (#[trigger] rest[i])@ < hi - 1
            && pred(rest[i]@ as int) by {
            assert(v[i]@ < v[k]@);
        }
        assert forall|id: int| lo <= id < hi - 1 && #[trigger] pred(id) implies rest.contains(
            GroupId::at(id),
        ) by {
            assert(v.contains(GroupId::at(id)));
            let i = choose|i: int| 0 <= i < v.len() && v[i] == GroupId::at(id);
            assert(rest[i] == GroupId::at(id));
        }
        lemma_ids_unique(rest, lo, hi - 1, pred);
        assert(v =~= rest.push(GroupId::at(hi - 1)));
    } else {
        assert forall|i: int| 0 <= i < v.len() implies lo <= (#[trigger] v[i])@ < hi - 1 && pred(
            v[i]@ as int,
        ) by {}
        lemma_ids_unique(v, lo, hi - 1, pred);
    }
}

/// A pass armed now names every ready group exactly once and nothing else.
pub proof fn lemma_plan_order(s: SchedulerState)
    requires
        s.slots.len() <= u32::MAX,
    ensures
        forall|i: int|
            0 <= i < s.plan_order().len() ==> s.ready((#[trigger] s.plan_order()[i])@ as int),
        forall|i: int, j: int|
            0 <= i < j < s.plan_order().len() ==> s.plan_order()[i]@ != s.plan_order()[j]@,
        forall|id: int| #[trigger] s.ready(id) ==> s.plan_order().contains(GroupId::at(id)),
{
    let pred = |id: int| s.ready(id);
    let split = if s.cursor < s.slots.len() {
        s.cursor as int
    } else {
        s.slots.len() as int
    };
    let high = ids_where(s.cursor as int, s.slots.len() as int, pred);
    let low = ids_where(0, split, pred);
    lemma_ids_where(s.cursor as int, s.slots.len() as int, pred);
    lemma_ids_where(0, split, pred);
    let all = s.plan_order();
    assert(all == high + low);
    assert forall|i: int| 0 <= i < all.len() implies s.ready((#[trigger] all[i])@ as int) by {
        if i < high.len() {
            assert(pred(high[i]@ as int));
        } else {
            assert(pred(low[i - high.len()]@ as int));
        }
    }
    assert forall|i: int, j: int| 0 <= i < j < all.len() implies all[i]@ != all[j]@ by {
        if j < high.len() {
            assert(high[i]@ < high[j]@);
        } else if i >= high.len() {
            assert(low[i - high.len()]@ < low[j - high.len()]@);
        } else {
            assert(high[i]@ >= s.cursor);
            assert(low[j - high.len()]@ < split);
        }
    }
    assert forall|id: int| #[trigger] s.ready(id) implies all.contains(GroupId::at(id)) by {
        assert(pred(id));
        if id >= s.cursor {
            assert(high.contains(GroupId::at(id)));
            let i = choose|i: int| 0 <= i < high.len() && high[i] == GroupId::at(id);
            assert(all[i] == GroupId::at(id));
        } else {
            assert(low.contains(GroupId::at(id)));
            let i = choose|i: int| 0 <= i < low.len() && low[i] == GroupId::at(id);
            assert(all[high.len() + i] == GroupId::at(id));
        }
    }
}

/// Applying readiness reports keeps the invariant and everything but the slots.
pub proof fn lemma_all_signalled_inv(s: SchedulerState, signals: Seq<ReadinessSignal>)
    requires
        inv(s),
    ensures
        inv(s.all_signalled(signals)),
        s.all_signalled(signals) == (SchedulerState {
            slots: s.all_signalled(signals).slots,
            ..s
        }),
        s.all_signalled(signals).slots.len() == s.slots.len(),
    decreases signals.len(),
{
    if signals.len() > 0 {
        lemma_all_signalled_inv(s, signals.drop_last());
        lemma_signalled_inv(s.all_signalled(signals.drop_last()), signals.last());
    }
}

/// The start of a tick keeps the invariant.
pub proof fn lemma_awake_inv(s: SchedulerState, signals: Seq<ReadinessSignal>)
    requires
        inv(s),
        s.tick < u64::MAX,
    ensures
        inv(s.awake(signals)),
        s.awake(signals).plan == s.plan,
        s.awake(signals).next_pass == s.next_pass,
        s.awake(signals).config == s.config,
        s.awake(signals).tick == s.tick + 1,
        s.awake(signals).slots.len() == s.slots.len(),
{
    let ticked = SchedulerState { tick: (s.tick + 1) as u64, ..s };
    lemma_core_frame(s, ticked);
    lemma_all_signalled_inv(ticked, signals);
    lemma_released_inv(ticked.all_signalled(signals));
}

/// A newly armed plan is sound.
pub proof fn lemma_armed(s: SchedulerState)
    requires
        inv(s),
        s.plan is None,
        s.next_pass@ < u64::MAX,
        s.plan_order().len() > 0,
    ensures
        core_inv(
            SchedulerState { next_pass: PassIndex::at(s.next_pass@ + 1), ..s },
        ),
        plan_ok(
            SchedulerState { next_pass: PassIndex::at(s.next_pass@ + 1), ..s },
            PlanState { pass: s.next_pass, entries: s.plan_order(), next: 0 },
        ),
{
    let t = SchedulerState {
        next_pass: PassIndex::at(s.next_pass@ + 1),
        ..s
    };
    lemma_core_frame(s, t);
    lemma_plan_order(s);
    let entries = s.plan_order();
    assert forall|i: int| 0 <= i < entries.len() implies owed(
        t.slots[(#[trigger] entries[i])@ as int]->0,
    ) && entries[i]@ < t.slots.len() && t.slots[entries[i]@ as int] is Some by {
        assert(s.ready(entries[i]@ as int));
    }
}

/// Every tick keeps the invariant.
pub proof fn lemma_stepped_inv(s: SchedulerState, signals: Seq<ReadinessSignal>)
    requires
        inv(s),
        s.tick < u64::MAX,
        s.plan is None ==> s.next_pass@ < u64::MAX,
    ensures
        inv(s.stepped(signals).0),
{
    let awake = s.awake(signals);
    let report = s.opening_report(signals);
    lemma_awake_inv(s, signals);
    match awake.plan {
        Some(plan) => {
            let idle = SchedulerState { plan: None, ..awake };
            lemma_core_frame(awake, idle);
            lemma_traversed_inv(idle, plan, ReportState { pass: Some(plan.pass), ..report });
        },
        None => {
            let entries = awake.plan_order();
            if entries.len() > 0 {
                let pass = awake.next_pass;
                lemma_armed(awake);
                lemma_traversed_inv(
                    SchedulerState {
                        next_pass: PassIndex::at(pass@ + 1),
                        ..awake
                    },
                    PlanState { pass, entries, next: 0 },
                    ReportState { pass: Some(pass), armed: Some(entries), ..report },
                );
            }
        },
    }
}

} // verus!
