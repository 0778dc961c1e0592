//! What holds of every fold, whatever history it traversed.

use vstd::prelude::*;

use crate::history::{HistoryEvent, Operation};
use crate::model::state::{abandoned, find_session, QueuedWork, Session};
use crate::oracle::fold::{
    by_priority, find_entry, find_item, is_entry, owed_items, is_item, rank_of, FoldState,
    GroupFold, Turn,
};
use crate::oracle::site::{FaultSite, SchedulingViolation};
use crate::types::{
    ClientId, GroupAvailability, GroupId, GroupIncarnation, GroupLifecycle, LifecycleOutcome,
    LifecycleRequest, OfferOutcome, PassIndex, SchedulerConfig, SessionEpoch, TickIndex, Work,
    WorkId,
};

verus! {

/// Number of items queued across a table.
pub open spec fn queued_in(groups: Seq<GroupFold>) -> nat
    decreases groups.len(),
{
    if groups.len() == 0 {
        0
    } else {
        queued_in(groups.drop_last()) + groups.last().queue.len()
    }
}

/// One entry of the table, after `plans` armed plans.
pub open spec fn entry_ok(entry: GroupFold, config: SchedulerConfig, plans: nat) -> bool {
    &&& entry.group@ < config.groups_bound()
    &&& entry.quota.valid()
    &&& entry.incarnation.valid()
    &&& entry.queue.len() <= config.group_queue_bound()
    &&& !entry.state.is_serviceable() ==> entry.queue.len() == 0 && !entry.poisoned
    &&& entry.gap.run <= plans
    &&& entry.gap.worst <= plans
}

/// A turn being recorded: no more is serviced and owed than it was offered against.
pub open spec fn turn_ok(turn: Turn) -> bool {
    &&& turn.serviced + turn.owed.len() <= turn.owed_total
    &&& turn.price <= turn.serviced * 0xffff_ffff
}

/// What holds of the fold of at most `n` events: the table is ascending, every count is bounded by
/// what it counts, and every admitted item is accounted for.
pub open spec fn fold_ok(s: FoldState, n: nat) -> bool {
    &&& s.config.valid()
    &&& forall|i: int, j: int| 0 <= i < j < s.groups.len() ==> s.groups[i].group@ < s.groups[j].group@
    &&& forall|i: int| 0 <= i < s.groups.len() ==> entry_ok(
        #[trigger] s.groups[i],
        s.config,
        s.passes_armed,
    )
    &&& s.next_work == s.admitted + 1
    &&& s.admitted == s.serviced + s.failed + s.queued
    &&& s.queued == queued_in(s.groups)
    &&& s.queued <= s.config.global_queue_bound()
    &&& s.admitted <= n
    &&& s.groups.len() > 0 ==> s.admitted < n
    &&& s.passes_armed <= n
    &&& s.passes_completed <= n
    &&& s.opportunities <= n
    &&& s.recording is Some ==> turn_ok(s.recording->0)
}

/// Replacing one entry moves the total by the difference.
pub proof fn lemma_queued_update(groups: Seq<GroupFold>, i: int, entry: GroupFold)
    requires
        0 <= i < groups.len(),
    ensures
        queued_in(groups.update(i, entry)) == queued_in(groups) - groups[i].queue.len()
            + entry.queue.len(),
    decreases groups.len(),
{
    let updated = groups.update(i, entry);
    if i == groups.len() - 1 {
        assert(updated.drop_last() =~= groups.drop_last());
    } else {
        assert(updated.drop_last() =~= groups.drop_last().update(i, entry));
        lemma_queued_update(groups.drop_last(), i, entry);
    }
}

/// Inserting an entry moves the total by what it holds.
pub proof fn lemma_queued_insert(groups: Seq<GroupFold>, i: int, entry: GroupFold)
    requires
        0 <= i <= groups.len(),
    ensures
        queued_in(groups.insert(i, entry)) == queued_in(groups) + entry.queue.len(),
    decreases groups.len(),
{
    let inserted = groups.insert(i, entry);
    if i == groups.len() {
        assert(inserted.drop_last() =~= groups);
    } else {
        assert(inserted.drop_last() =~= groups.drop_last().insert(i, entry));
        lemma_queued_insert(groups.drop_last(), i, entry);
    }
}

/// Tables whose entries hold equally many items hold equally many in all.
pub proof fn lemma_queued_same(a: Seq<GroupFold>, b: Seq<GroupFold>)
    requires
        a.len() == b.len(),
        forall|i: int| 0 <= i < a.len() ==> (#[trigger] a[i]).queue.len() == b[i].queue.len(),
    ensures
        queued_in(a) == queued_in(b),
    decreases a.len(),
{
    if a.len() > 0 {
        lemma_queued_same(a.drop_last(), b.drop_last());
    }
}

/// No entry holds more than the whole table.
pub proof fn lemma_queued_bounds(groups: Seq<GroupFold>, i: int)
    requires
        0 <= i < groups.len(),
    ensures
        groups[i].queue.len() <= queued_in(groups),
    decreases groups.len(),
{
    if i < groups.len() - 1 {
        lemma_queued_bounds(groups.drop_last(), i);
        assert(groups.drop_last()[i] == groups[i]);
    }
}

/// Where an identifier belongs in an ascending table.
pub proof fn lemma_rank(groups: Seq<GroupFold>, group: GroupId)
    requires
        forall|i: int, j: int| 0 <= i < j < groups.len() ==> groups[i].group@ < groups[j].group@,
    ensures
        rank_of(groups, group) <= groups.len(),
        forall|i: int| 0 <= i < rank_of(groups, group) ==> (#[trigger] groups[i]).group@ < group@,
        forall|i: int|
            rank_of(groups, group) <= i < groups.len() ==> (#[trigger] groups[i]).group@ >= group@,
    decreases groups.len(),
{
    if groups.len() > 0 && groups.last().group@ >= group@ {
        let rest = groups.drop_last();
        lemma_rank(rest, group);
        assert forall|i: int| rank_of(groups, group) <= i < groups.len() implies (
        #[trigger] groups[i]).group@ >= group@ by {
            if i < rest.len() {
                assert(rest[i] == groups[i]);
            }
        }
        assert forall|i: int| 0 <= i < rank_of(groups, group) implies (#[trigger] groups[i]).group@
            < group@ by {
            assert(rest[i] == groups[i]);
        }
    }
}

/// An entry that is found is where it is found.
pub proof fn lemma_entry_at(groups: Seq<GroupFold>, group: GroupId)
    requires
        find_entry(groups, group) is Some,
    ensures
        is_entry(groups, group, find_entry(groups, group)->0),
{
}

/// A group that stands anywhere in the table is found.
pub proof fn lemma_some_entry(groups: Seq<GroupFold>, group: GroupId, j: int)
    requires
        0 <= j < groups.len(),
        groups[j].group == group,
    ensures
        find_entry(groups, group) is Some,
    decreases j,
{
    if exists|k: int| 0 <= k < j && groups[k].group == group {
        let k = choose|k: int| 0 <= k < j && groups[k].group == group;
        lemma_some_entry(groups, group, k);
    } else {
        assert(is_entry(groups, group, j));
    }
}

/// More events may have happened than did.
pub proof fn lemma_later(s: FoldState, n: nat, m: nat)
    requires
        fold_ok(s, n),
        n <= m,
    ensures
        fold_ok(s, m),
{
}

/// Replacing an entry by one that holds as much keeps everything.
pub proof fn lemma_entry_replaced(s: FoldState, group: GroupId, entry: GroupFold, n: nat)
    requires
        fold_ok(s, n),
        s.entry(group) is Some,
        entry_ok(entry, s.config, s.passes_armed),
        entry.group == group,
        entry.queue.len() == s.entry(group)->0.queue.len(),
    ensures
        fold_ok(s.with_entry(group, entry), n),
{
    lemma_entry_at(s.groups, group);
    lemma_queued_update(s.groups, find_entry(s.groups, group)->0, entry);
}

/// Retiring a poisoned queue keeps everything.
pub proof fn lemma_retire_ok(s: FoldState, group: GroupId, n: nat)
    requires
        fold_ok(s, n),
    ensures
        fold_ok(s.retire_poisoned(group), n),
{
    if s.entry(group) is Some && s.entry(group)->0.poisoned {
        let entry = s.entry(group)->0;
        lemma_entry_at(s.groups, group);
        let i = find_entry(s.groups, group)->0;
        lemma_queued_bounds(s.groups, i);
        lemma_queued_update(
            s.groups,
            i,
            GroupFold { queue: Seq::empty(), sessions: abandoned(entry.sessions), ..entry },
        );
    }
}

/// Lifecycle requests keep everything.
pub proof fn lemma_lifecycle_ok(s: FoldState, group: GroupId, request: LifecycleRequest, n: nat)
    requires
        fold_ok(s, n),
        request matches LifecycleRequest::Create { quota } ==> quota.valid(),
    ensures
        fold_ok(s.lifecycle(group, request), n + 1),
{
    let target = request.target();
    match s.lifecycle_outcome(group, request) {
        LifecycleOutcome::Rejected(_) => {},
        LifecycleOutcome::Created { incarnation } => {
            match s.entry(group) {
                None => {
                    let rank = rank_of(s.groups, group) as int;
                    let fresh = GroupFold::fresh(group, request->Create_quota);
                    lemma_rank(s.groups, group);
                    lemma_queued_insert(s.groups, rank, fresh);
                    let t = s.lifecycle(group, request);
                    assert forall|i: int| rank <= i < s.groups.len() implies (
                    #[trigger] s.groups[i]).group@ > group@ by {
                        if s.groups[i].group@ == group@ {
                            lemma_some_entry(s.groups, group, i);
                        }
                    }
                    assert forall|i: int, j: int|
                        0 <= i < j < t.groups.len() implies t.groups[i].group@
                        < t.groups[j].group@ by {
                        let a = if i < rank {
                            i
                        } else {
                            i - 1
                        };
                        let b = if j < rank {
                            j
                        } else {
                            j - 1
                        };
                        if i != rank {
                            assert(t.groups[i] == s.groups[a]);
                        }
                        if j != rank {
                            assert(t.groups[j] == s.groups[b]);
                        }
                    }
                    assert forall|i: int| 0 <= i < t.groups.len() implies entry_ok(
                        #[trigger] t.groups[i],
                        t.config,
                        t.passes_armed,
                    ) by {
                        if i < rank {
                            assert(t.groups[i] == s.groups[i]);
                        } else if i > rank {
                            assert(t.groups[i] == s.groups[i - 1]);
                        }
                    }
                },
                Some(entry) => {
                    lemma_entry_at(s.groups, group);
                    let next = (GroupFold {
                        incarnation,
                        state: GroupLifecycle::Creating,
                        quota: request->Create_quota,
                        ..entry
                    }).cleared();
                    lemma_entry_replaced(s, group, next, n);
                },
            }
        },
        LifecycleOutcome::Idempotent { .. } => {
            lemma_retire_ok(s, group, n);
        },
        LifecycleOutcome::Applied { .. } => {
            let entry = s.entry(group)->0;
            let moved = GroupFold { state: target, ..entry };
            lemma_entry_at(s.groups, group);
            if target is Removed {
                lemma_entry_replaced(s, group, moved.cleared(), n);
            } else {
                lemma_entry_replaced(s, group, moved, n);
                lemma_retire_ok(s.with_entry(group, moved), group, n);
            }
        },
    }
}

/// Session requests keep everything.
pub proof fn lemma_open_session_ok(
    s: FoldState,
    group: GroupId,
    incarnation: GroupIncarnation,
    client: ClientId,
    epoch: SessionEpoch,
    n: nat,
)
    requires
        fold_ok(s, n),
    ensures
        fold_ok(s.open_session(group, incarnation, client, epoch), n),
{
    let outcome = s.session_outcome(group, incarnation, client, epoch);
    if outcome is Opened || outcome is Replaced {
        let entry = s.entry(group)->0;
        let blank = Session { client_id: client, epoch, outstanding: None, completed: None };
        lemma_entry_at(s.groups, group);
        lemma_entry_replaced(
            s,
            group,
            GroupFold { sessions: entry.sessions.push(blank), ..entry },
            n,
        );
        lemma_entry_replaced(
            s,
            group,
            GroupFold {
                sessions: entry.sessions.update(find_session(entry.sessions, client)->0, blank),
                ..entry
            },
            n,
        );
    }
}

/// Submissions keep everything.
pub proof fn lemma_submit_ok(
    s: FoldState,
    group: GroupId,
    incarnation: GroupIncarnation,
    work: Work,
    n: nat,
)
    requires
        fold_ok(s, n),
    ensures
        fold_ok(s.submit(group, incarnation, work), n + 1),
{
    let outcome = s.submit_outcome(group, incarnation, work);
    if outcome is Queued {
        lemma_entry_at(s.groups, group);
        let i = find_entry(s.groups, group)->0;
        let t = s.submit(group, incarnation, work);
        lemma_queued_update(s.groups, i, t.groups[i]);
        assert(t.groups =~= s.groups.update(i, t.groups[i]));
    }
}

/// Invocations keep everything.
pub proof fn lemma_invoked_ok(s: FoldState, operation: Operation, n: nat)
    requires
        fold_ok(s, n),
        operation matches Operation::Lifecycle { request, .. } ==> (request matches
            LifecycleRequest::Create { quota } ==> quota.valid()),
    ensures
        fold_ok(s.invoked(operation), n + 1),
{
    match operation {
        Operation::Lifecycle { group, request } => {
            lemma_lifecycle_ok(s, group, request, n);
        },
        Operation::OpenSession { group, incarnation, client_id, session_epoch } => {
            lemma_open_session_ok(s, group, incarnation, client_id, session_epoch, n);
        },
        Operation::Submit { group, incarnation, work } => {
            lemma_submit_ok(s, group, incarnation, work, n);
        },
    }
}

/// Availability reports keep everything.
pub proof fn lemma_availability_ok(
    s: FoldState,
    group: GroupId,
    availability: GroupAvailability,
    n: nat,
)
    requires
        fold_ok(s, n),
    ensures
        fold_ok(s.availability(group, availability), n),
{
    if s.entry(group) is Some {
        lemma_entry_at(s.groups, group);
        let entry = s.availability(group, availability).groups[find_entry(s.groups, group)->0];
        lemma_entry_replaced(s, group, entry, n);
    }
}

/// Moving the clock keeps everything.
pub proof fn lemma_reached_ok(s: FoldState, tick: TickIndex, n: nat)
    requires
        fold_ok(s, n),
    ensures
        fold_ok(s.reached(tick), n),
{
    if tick@ >= s.tick {
        let t = s.reached(tick);
        lemma_queued_same(s.groups, t.groups);
        assert forall|i: int| 0 <= i < t.groups.len() implies entry_ok(
            #[trigger] t.groups[i],
            t.config,
            t.passes_armed,
        ) by {
            assert(entry_ok(s.groups[i], s.config, s.passes_armed));
        }
        assert forall|i: int, j: int| 0 <= i < j < t.groups.len() implies t.groups[i].group@
            < t.groups[j].group@ by {
            assert(s.groups[i].group@ < s.groups[j].group@);
        }
    }
}

/// Releases keep everything.
pub proof fn lemma_release_ok(s: FoldState, tick: TickIndex, group: GroupId, n: nat)
    requires
        fold_ok(s, n),
    ensures
        fold_ok(s.release(tick, group), n),
        fold_ok(s.released(tick, group), n),
{
    if s.entry(group) is Some {
        lemma_entry_at(s.groups, group);
        lemma_entry_replaced(s, group, GroupFold { occupancy: None, ..s.entry(group)->0 }, n);
    }
    lemma_reached_ok(s.release(tick, group), tick, n);
}

/// Judging a plan changes nothing but the first fault.
pub proof fn lemma_plan_judged(s: FoldState, pass: PassIndex, plan: Seq<GroupId>, n: nat)
    ensures
        s.plan_judged(pass, plan, n) == (FoldState {
            violation: s.plan_judged(pass, plan, n).violation,
            ..s
        }),
    decreases n,
{
    if n > 0 {
        lemma_plan_judged(s, pass, plan, (n - 1) as nat);
    }
}

/// Arming keeps everything.
pub proof fn lemma_armed_ok(
    s: FoldState,
    pass: PassIndex,
    tick: TickIndex,
    plan: Seq<GroupId>,
    n: nat,
)
    requires
        fold_ok(s, n),
    ensures
        fold_ok(s.armed(pass, tick, plan), n + 1),
{
    let t = s.armed(pass, tick, plan);
    let ordered = s.judged(
        s.open is Some,
        FaultSite::ArmedOverAnOpenPass,
        SchedulingViolation::PassArmedWhileOpen { open: s.open->0.pass, armed: pass },
    ).judged(
        pass != s.next_pass,
        FaultSite::ArmedOutOfOrder,
        SchedulingViolation::PassOutOfOrder { expected: s.next_pass, observed: pass },
    ).judged(
        s.last_armed is Some && tick@ <= s.last_armed->0@,
        FaultSite::ArmedTickReused,
        SchedulingViolation::PassBoundaryReused { pass, tick },
    );
    lemma_plan_judged(ordered, pass, plan, plan.len());
    lemma_queued_same(s.groups, t.groups);
    assert forall|i: int| 0 <= i < t.groups.len() implies entry_ok(
        #[trigger] t.groups[i],
        t.config,
        t.passes_armed,
    ) by {
        assert(entry_ok(s.groups[i], s.config, s.passes_armed));
    }
    assert forall|i: int, j: int| 0 <= i < j < t.groups.len() implies t.groups[i].group@
        < t.groups[j].group@ by {
        assert(s.groups[i].group@ < s.groups[j].group@);
    }
}

/// Turns keep everything.
pub proof fn lemma_offered_ok(
    s: FoldState,
    pass: PassIndex,
    tick: TickIndex,
    group: GroupId,
    outcome: OfferOutcome,
    n: nat,
)
    requires
        fold_ok(s, n),
    ensures
        fold_ok(s.offered(pass, tick, group, outcome), n + 1),
{
    if s.entry(group) is Some {
        let entry = s.entry(group)->0;
        lemma_entry_at(s.groups, group);
        lemma_owed_len(by_priority(entry.queue), entry.quota@ as nat);
    }
}

/// A turn is offered against no more items than its quota.
pub proof fn lemma_owed_len(order: Seq<QueuedWork>, quota: nat)
    ensures
        owed_items(order, quota).len() <= quota,
    decreases order.len(),
{
    if order.len() > 0 && quota > 0 && !(order[0].work is Faulty) {
        lemma_owed_len(order.drop_first(), (quota - 1) as nat);
    }
}

/// Settling a turn keeps everything.
pub proof fn lemma_settled_ok(s: FoldState, n: nat)
    requires
        fold_ok(s, n),
    ensures
        fold_ok(s.settled(), n),
        s.settled().recording is None,
{
    if s.recording is Some {
        let turn = s.recording->0;
        if s.entry(turn.group) is Some {
            lemma_entry_at(s.groups, turn.group);
            let i = find_entry(s.groups, turn.group)->0;
            lemma_queued_update(s.groups, i, s.settled().groups[i]);
            assert(s.settled().groups =~= s.groups.update(i, s.settled().groups[i]));
        }
    }
}

/// Servicing an item keeps everything.
pub proof fn lemma_applied_ok(s: FoldState, group: GroupId, work: WorkId, n: nat)
    requires
        fold_ok(s, n),
    ensures
        fold_ok(s.applied(group, work), n),
{
    if s.entry(group) is Some && find_item(s.entry(group)->0.queue, work) is Some {
        let entry = s.entry(group)->0;
        let k = find_item(entry.queue, work)->0;
        assert(is_item(entry.queue, work, k));
        lemma_entry_at(s.groups, group);
        let i = find_entry(s.groups, group)->0;
        lemma_queued_update(s.groups, i, entry.serviced(k));
        lemma_queued_bounds(s.groups, i);
        assert(entry_ok(entry, s.config, s.passes_armed));
    }
}

/// Recorded services keep everything.
pub proof fn lemma_service_ok(s: FoldState, pass: PassIndex, group: GroupId, work: WorkId, n: nat)
    requires
        fold_ok(s, n),
    ensures
        fold_ok(s.service(pass, group, work), n + 1),
{
    let turn = s.recording->0;
    if s.recording is Some && turn.group == group && turn.pass == pass && turn.owed.len() > 0 {
        let price = match s.entry(group) {
            Some(entry) => entry.price_of(work),
            None => 0,
        };
        let judged = s.judged(
            turn.owed[0] != work,
            FaultSite::ServiceOutOfOrder,
            SchedulingViolation::ServiceOrderViolation {
                pass,
                group,
                expected: turn.owed[0],
                observed: work,
            },
        );
        let t = FoldState {
            recording: Some(
                Turn {
                    owed: turn.owed.drop_first(),
                    serviced: turn.serviced + 1,
                    price: turn.price + price,
                    ..turn
                },
            ),
            ..judged
        };
        assert(price <= 0xffff_ffff);
        assert(fold_ok(t, n + 1));
        lemma_applied_ok(t, group, work, n + 1);
    }
}

/// Retiring a plan keeps everything.
pub proof fn lemma_completed_ok(s: FoldState, pass: PassIndex, tick: TickIndex, n: nat)
    requires
        fold_ok(s, n),
    ensures
        fold_ok(s.completed(pass, tick), n + 1),
{
}

/// Every creation a history invokes names a quota that can exist.
pub open spec fn event_ok(event: HistoryEvent) -> bool {
    event matches HistoryEvent::Invoked { operation, .. } ==> (operation matches
        Operation::Lifecycle { request, .. } ==> (request matches LifecycleRequest::Create {
        quota,
    } ==> quota.valid()))
}

/// Every event keeps everything.
pub proof fn lemma_absorbed_ok(s: FoldState, event: HistoryEvent, n: nat)
    requires
        fold_ok(s, n),
        event_ok(event),
    ensures
        fold_ok(s.absorbed(event), n + 1),
{
    lemma_settled_ok(s, n);
    let t = if s.continues(event) {
        s
    } else {
        s.settled()
    };
    match event {
        HistoryEvent::Invoked { operation, .. } => {
            lemma_invoked_ok(t, operation, n);
        },
        HistoryEvent::AvailabilityReported { tick, group, availability } => {
            lemma_reached_ok(t, tick, n);
            lemma_availability_ok(t.reached(tick), group, availability, n);
            lemma_later(t.reached(tick).availability(group, availability), n, n + 1);
        },
        HistoryEvent::WorkerReleased { tick, group } => {
            lemma_release_ok(t, tick, group, n);
            lemma_later(t.released(tick, group), n, n + 1);
        },
        HistoryEvent::PassArmed { pass, tick, plan } => {
            lemma_reached_ok(t, tick, n);
            lemma_armed_ok(t.reached(tick), pass, tick, plan@, n);
        },
        HistoryEvent::GroupOffered { pass, tick, group, outcome } => {
            lemma_reached_ok(t, tick, n);
            lemma_offered_ok(t.reached(tick), pass, tick, group, outcome, n);
        },
        HistoryEvent::WorkServiced { pass, group, work } => {
            lemma_service_ok(t, pass, group, work, n);
        },
        HistoryEvent::PassCompleted { pass, tick } => {
            lemma_reached_ok(t, tick, n);
            lemma_completed_ok(t.reached(tick), pass, tick, n);
        },
        HistoryEvent::Completed { .. } => {
            lemma_later(t, n, n + 1);
        },
        HistoryEvent::Unknown { .. } => {
            lemma_later(t, n, n + 1);
        },
        HistoryEvent::NotAdmitted { .. } => {
            lemma_later(t, n, n + 1);
        },
    }
}

/// Number of plans that a history arms.
pub open spec fn armed_plans(log: Seq<HistoryEvent>) -> nat
    decreases log.len(),
{
    if log.len() == 0 {
        0
    } else {
        armed_plans(log.drop_last()) + if log.last() is PassArmed {
            1nat
        } else {
            0nat
        }
    }
}

/// A fault of the history's own events: neither a gap between turns nor the end of the sites.
pub open spec fn structural(fault: Option<(FaultSite, SchedulingViolation)>) -> bool {
    match fault {
        Some((site, violation)) => {
            &&& !(site is WidestOpportunityGap)
            &&& !(site is EndOfSites)
            &&& !(violation is OpportunityGap)
        },
        None => true,
    }
}

/// Nothing is armed, answered, serviced or failed, and a fault that is raised is structural.
pub open spec fn framed(s: FoldState, t: FoldState) -> bool {
    &&& t.passes_armed == s.passes_armed
    &&& t.outcomes == s.outcomes
    &&& t.services == s.services
    &&& t.failures == s.failures
    &&& structural(s.violation) ==> structural(t.violation)
}

/// Settling a turn.
pub proof fn lemma_settled_frame(s: FoldState)
    ensures
        framed(s, s.settled()),
{
}

/// Moving the clock.
pub proof fn lemma_reached_frame(s: FoldState, tick: TickIndex)
    ensures
        framed(s, s.reached(tick)),
{
}

/// An availability report.
pub proof fn lemma_availability_frame(
    s: FoldState,
    group: GroupId,
    availability: GroupAvailability,
)
    ensures
        framed(s, s.availability(group, availability)),
{
}

/// A release.
pub proof fn lemma_released_frame(s: FoldState, tick: TickIndex, group: GroupId)
    ensures
        framed(s, s.released(tick, group)),
{
    lemma_reached_frame(s.release(tick, group), tick);
}

/// A turn offered.
pub proof fn lemma_offered_frame(
    s: FoldState,
    pass: PassIndex,
    tick: TickIndex,
    group: GroupId,
    outcome: OfferOutcome,
)
    ensures
        framed(s, s.offered(pass, tick, group, outcome)),
{
}

/// A plan retired.
pub proof fn lemma_completed_frame(s: FoldState, pass: PassIndex, tick: TickIndex)
    ensures
        framed(s, s.completed(pass, tick)),
{
}

/// A plan judged.
proof fn lemma_judged_frame(s: FoldState, pass: PassIndex, plan: Seq<GroupId>, n: nat)
    ensures
        framed(s, s.plan_judged(pass, plan, n)),
    decreases n,
{
    if n > 0 {
        lemma_judged_frame(s, pass, plan, (n - 1) as nat);
    }
}

/// A plan armed.
pub proof fn lemma_armed_frame(s: FoldState, pass: PassIndex, tick: TickIndex, plan: Seq<GroupId>)
    ensures
        s.armed(pass, tick, plan).passes_armed == s.passes_armed + 1,
        framed(s, FoldState { passes_armed: s.passes_armed, ..s.armed(pass, tick, plan) }),
{
    let ordered = s.judged(
        s.open is Some,
        FaultSite::ArmedOverAnOpenPass,
        SchedulingViolation::PassArmedWhileOpen { open: s.open->0.pass, armed: pass },
    ).judged(
        pass != s.next_pass,
        FaultSite::ArmedOutOfOrder,
        SchedulingViolation::PassOutOfOrder { expected: s.next_pass, observed: pass },
    ).judged(
        s.last_armed is Some && tick@ <= s.last_armed->0@,
        FaultSite::ArmedTickReused,
        SchedulingViolation::PassBoundaryReused { pass, tick },
    );
    assert(framed(s, ordered));
    lemma_judged_frame(ordered, pass, plan, plan.len());
}

/// A recorded service.
pub proof fn lemma_service_frame(s: FoldState, pass: PassIndex, group: GroupId, work: WorkId)
    ensures
        framed(s, FoldState { services: s.services, ..s.service(pass, group, work) }),
{
}

/// A request.
pub proof fn lemma_invoked_frame(s: FoldState, operation: Operation)
    ensures
        framed(
            s,
            FoldState { outcomes: s.outcomes, failures: s.failures, ..s.invoked(operation) },
        ),
{
}

/// One more event arms at most one more plan, and raises only structural faults.
pub proof fn lemma_absorbed_frame(s: FoldState, event: HistoryEvent)
    ensures
        s.absorbed(event).passes_armed == s.passes_armed + if event is PassArmed {
            1nat
        } else {
            0nat
        },
        structural(s.violation) ==> structural(s.absorbed(event).violation),
{
    let t = if s.continues(event) {
        s
    } else {
        s.settled()
    };
    lemma_settled_frame(s);
    match event {
        HistoryEvent::Invoked { operation, .. } => {
            lemma_invoked_frame(t, operation);
        },
        HistoryEvent::AvailabilityReported { tick, group, availability } => {
            lemma_reached_frame(t, tick);
            lemma_availability_frame(t.reached(tick), group, availability);
        },
        HistoryEvent::WorkerReleased { tick, group } => {
            lemma_released_frame(t, tick, group);
        },
        HistoryEvent::PassArmed { pass, tick, plan } => {
            lemma_reached_frame(t, tick);
            lemma_armed_frame(t.reached(tick), pass, tick, plan@);
        },
        HistoryEvent::GroupOffered { pass, tick, group, outcome } => {
            lemma_reached_frame(t, tick);
            lemma_offered_frame(t.reached(tick), pass, tick, group, outcome);
        },
        HistoryEvent::WorkServiced { pass, group, work } => {
            lemma_service_frame(t, pass, group, work);
        },
        HistoryEvent::PassCompleted { pass, tick } => {
            lemma_reached_frame(t, tick);
            lemma_completed_frame(t.reached(tick), pass, tick);
        },
        _ => {},
    }
}

/// The fold counts the plans that the history arms.
pub proof fn lemma_plans_folded(config: SchedulerConfig, log: Seq<HistoryEvent>)
    ensures
        FoldState::folded(config, log).passes_armed == armed_plans(log),
    decreases log.len(),
{
    if log.len() > 0 {
        lemma_plans_folded(config, log.drop_last());
        lemma_absorbed_frame(FoldState::folded(config, log.drop_last()), log.last());
    }
}

} // verus!
