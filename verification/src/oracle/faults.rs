//! What the judge finds fault with: for every event of a history, exactly which rule it breaks, and
//! what the judge takes note of where it breaks none.

use vstd::prelude::*;

use crate::history::HistoryEvent;
use crate::model::state::QueuedWork;
use crate::oracle::fold::{
    by_priority, distinct, find_entry, find_item, first_overdue, is_entry, is_item, overdue,
    owed_items, settled_workers, without, FoldState, GroupFold, OpenPass, Turn,
};
use crate::oracle::site::{FaultSite, SchedulingViolation};
use crate::types::{
    GroupAvailability, GroupId, GroupLifecycle, OfferOutcome, PassIndex, TickIndex, WorkClass,
    WorkId,
};

verus! {

/// The group stands at this place in the books.
pub open spec fn stands_at(s: FoldState, group: GroupId, i: int) -> bool {
    &&& 0 <= i < s.groups.len()
    &&& s.groups[i].group == group
    &&& forall|j: int| 0 <= j < i ==> (#[trigger] s.groups[j]).group != group
}

/// The group is in the books.
pub open spec fn booked(s: FoldState, group: GroupId) -> bool {
    exists|i: int| 0 <= i < s.groups.len() && (#[trigger] s.groups[i]).group == group
}

/// A group of the books could take a turn at this tick: it is scheduled, healthy, has work, is
/// available, and holds no worker.
pub open spec fn can_run(g: GroupFold, tick: u64) -> bool {
    &&& g.state == GroupLifecycle::Recovering || g.state == GroupLifecycle::Serving || g.state
        == GroupLifecycle::Draining
    &&& !g.poisoned
    &&& g.queue.len() > 0
    &&& !g.stalled
    &&& g.occupancy is None || g.occupancy->0.due@ <= tick
}

/// No fault was found, no turn is being recorded, and the tick is one that can come next: it is not in
/// the past, and no worker is held past its cost.
pub open spec fn clean(s: FoldState, tick: TickIndex) -> bool {
    &&& s.violation is None
    &&& s.recording is None
    &&& tick@ >= s.tick
    &&& forall|i: int|
        0 <= i < s.groups.len() ==> !((#[trigger] s.groups[i]).occupancy is Some
            && s.groups[i].occupancy->0.due@ < tick@)
}

/// What was found.
pub open spec fn finds(s: FoldState, site: FaultSite, violation: SchedulingViolation) -> bool {
    s.violation == Some((site, violation))
}

proof fn lemma_entry(s: FoldState, group: GroupId, i: int)
    requires
        stands_at(s, group, i),
    ensures
        find_entry(s.groups, group) == Some(i),
        s.entry(group) == Some(s.groups[i]),
{
    assert(is_entry(s.groups, group, i));
    let k = choose|k: int| is_entry(s.groups, group, k);
    assert(is_entry(s.groups, group, k));
    assert(k == i) by {
        if k < i {
            assert(s.groups[k].group != group);
        }
        if i < k {
            assert(s.groups[i].group != group);
        }
    }
}

proof fn lemma_first_place(s: FoldState, group: GroupId, i: int) -> (k: int)
    requires
        0 <= i < s.groups.len(),
        s.groups[i].group == group,
    ensures
        stands_at(s, group, k),
    decreases i,
{
    if exists|j: int| 0 <= j < i && (#[trigger] s.groups[j]).group == group {
        let j = choose|j: int| 0 <= j < i && (#[trigger] s.groups[j]).group == group;
        lemma_first_place(s, group, j)
    } else {
        i
    }
}

proof fn lemma_booked(s: FoldState, group: GroupId)
    ensures
        booked(s, group) <==> s.entry(group) is Some,
{
    if booked(s, group) {
        let i = choose|i: int| 0 <= i < s.groups.len() && (#[trigger] s.groups[i]).group == group;
        let k = lemma_first_place(s, group, i);
        lemma_entry(s, group, k);
    }
    if s.entry(group) is Some {
        let k = choose|k: int| is_entry(s.groups, group, k);
        assert(is_entry(s.groups, group, k));
        assert(s.groups[k].group == group);
    }
}

proof fn lemma_nobody_overdue(groups: Seq<GroupFold>, tick: u64, from: int)
    requires
        forall|i: int| 0 <= i < groups.len() ==> !overdue(#[trigger] groups[i], tick),
    ensures
        first_overdue(groups, tick, from) is None,
    decreases groups.len() - from,
{
    if 0 <= from < groups.len() {
        assert(!overdue(groups[from], tick));
        lemma_nobody_overdue(groups, tick, from + 1);
    }
}

proof fn lemma_punctual(s: FoldState, tick: TickIndex)
    requires
        clean(s, tick),
    ensures
        s.reached(tick) == (FoldState { tick: tick@, ..s }),
        s.settled() == s,
{
    assert forall|i: int| 0 <= i < s.groups.len() implies !overdue(#[trigger] s.groups[i], tick@) by {
        assert(!(s.groups[i].occupancy is Some && s.groups[i].occupancy->0.due@ < tick@));
    }
    lemma_nobody_overdue(s.groups, tick@, 0);
    assert(s.reached(tick).groups =~= s.groups);
    assert(s.reached(tick) =~= (FoldState { tick: tick@, ..s }));
}

proof fn lemma_ready(s: FoldState, group: GroupId, i: int)
    requires
        stands_at(s, group, i),
        s.recording is None,
    ensures
        s.is_ready(group) <==> can_run(s.groups[i], s.tick),
{
    lemma_entry(s, group, i);
}

// ---------------------------------------------------------------------- clock

/// No event may name a tick before the last one: whatever it says, the clock went backwards.
pub proof fn law_clock_never_goes_back(s: FoldState, event: HistoryEvent, tick: TickIndex)
    requires
        s.violation is None,
        s.recording is None,
        tick@ < s.tick,
        match event {
            HistoryEvent::AvailabilityReported { tick: t, .. } => t == tick,
            HistoryEvent::WorkerReleased { tick: t, .. } => t == tick,
            HistoryEvent::PassArmed { tick: t, .. } => t == tick,
            HistoryEvent::GroupOffered { tick: t, .. } => t == tick,
            HistoryEvent::PassCompleted { tick: t, .. } => t == tick,
            _ => false,
        },
    ensures
        s.absorbed(event).violation matches Some((site, violation)) && site
            == FaultSite::ClockWalkedBackwards && (violation matches
            SchedulingViolation::TickWentBackwards { current, observed } && current@ == s.tick
            && observed == tick),
{
    let r = s.reached(tick);
    assert(r.violation is Some);
    match event {
        HistoryEvent::PassArmed { pass, plan, .. } => {
            lemma_plan_keeps_fault(r, pass, tick, plan@);
        },
        _ => {},
    }
}

proof fn lemma_plan_keeps_fault(r: FoldState, pass: PassIndex, tick: TickIndex, plan: Seq<GroupId>)
    requires
        r.violation is Some,
    ensures
        r.armed(pass, tick, plan).violation == r.violation,
{
    lemma_judged_plan_keeps(r, pass, plan, plan.len());
}

proof fn lemma_judged_plan_keeps(r: FoldState, pass: PassIndex, plan: Seq<GroupId>, n: nat)
    requires
        r.violation is Some,
    ensures
        r.plan_judged(pass, plan, n) == r,
    decreases n,
{
    if n > 0 {
        lemma_judged_plan_keeps(r, pass, plan, (n - 1) as nat);
    }
}

/// A worker that is held past its cost is found at the next event that names a later tick, in the
/// group that comes first.
pub proof fn law_overdue_workers_are_found(
    s: FoldState,
    group: GroupId,
    tick: TickIndex,
    availability: GroupAvailability,
    i: int,
)
    requires
        s.violation is None,
        s.recording is None,
        tick@ >= s.tick,
        0 <= i < s.groups.len(),
        s.groups[i].occupancy is Some && s.groups[i].occupancy->0.due@ < tick@,
        forall|j: int|
            0 <= j < i ==> !((#[trigger] s.groups[j]).occupancy is Some
                && s.groups[j].occupancy->0.due@ < tick@),
    ensures
        finds(
            s.absorbed(HistoryEvent::AvailabilityReported { tick, group, availability }),
            FaultSite::OccupancyOutlivedItsCost,
            SchedulingViolation::WorkerHeldPastCost {
                pass: s.groups[i].occupancy->0.pass,
                group: s.groups[i].group,
                due: s.groups[i].occupancy->0.due,
                observed: tick,
            },
        ),
{
    lemma_first_is(s.groups, tick@, 0, i);
}

proof fn lemma_first_is(groups: Seq<GroupFold>, tick: u64, from: int, i: int)
    requires
        0 <= from <= i < groups.len(),
        overdue(groups[i], tick),
        forall|j: int| 0 <= j < i ==> !((#[trigger] groups[j]).occupancy is Some
            && groups[j].occupancy->0.due@ < tick),
    ensures
        first_overdue(groups, tick, from) == Some(i),
    decreases i - from,
{
    if from < i {
        assert(!(groups[from].occupancy is Some && groups[from].occupancy->0.due@ < tick));
        lemma_first_is(groups, tick, from + 1, i);
    }
}

// -------------------------------------------------------------------- workers

/// A worker is given back on the tick at which its cost is paid: before it, and after it, the release
/// is at fault, and so is a release by a group that holds none. The group is free afterwards.
pub proof fn law_workers_are_released_when_paid(
    s: FoldState,
    group: GroupId,
    tick: TickIndex,
    i: int,
)
    requires
        s.violation is None,
        s.recording is None,
        tick@ >= s.tick,
        stands_at(s, group, i),
        forall|j: int|
            0 <= j < s.groups.len() && j != i ==> !((#[trigger] s.groups[j]).occupancy is Some
                && s.groups[j].occupancy->0.due@ < tick@),
    ensures
        ({
            let held = s.groups[i].occupancy;
            let after = s.absorbed(HistoryEvent::WorkerReleased { tick, group });
            &&& held is None ==> finds(
                after,
                FaultSite::ReleaseWithoutOccupancy,
                SchedulingViolation::SpuriousWorkerRelease { tick, group },
            )
            &&& held is Some && tick@ < held->0.due@ ==> finds(
                after,
                FaultSite::ReleaseBeforeDue,
                SchedulingViolation::WorkerReleasedEarly {
                    pass: held->0.pass,
                    group,
                    due: held->0.due,
                    observed: tick,
                },
            )
            &&& held is Some && tick@ > held->0.due@ ==> finds(
                after,
                FaultSite::ReleaseAfterDue,
                SchedulingViolation::WorkerHeldPastCost {
                    pass: held->0.pass,
                    group,
                    due: held->0.due,
                    observed: tick,
                },
            )
            &&& after.violation is None <==> held is Some && tick@ == held->0.due@
            &&& after.groups[i].occupancy is None
            &&& after.tick == tick@
        }),
{
    lemma_entry(s, group, i);
    let r = s.release(tick, group);
    assert(r.groups.len() == s.groups.len());
    assert forall|j: int| 0 <= j < r.groups.len() implies !overdue(#[trigger] r.groups[j], tick@) by {
        if j != i {
            assert(r.groups[j] == s.groups[j]);
        }
    }
    lemma_nobody_overdue(r.groups, tick@, 0);
}

/// A release by a group that is not in the books is at fault.
pub proof fn law_unknown_groups_hold_no_worker(s: FoldState, group: GroupId, tick: TickIndex)
    requires
        clean(s, tick),
        !booked(s, group),
    ensures
        finds(
            s.absorbed(HistoryEvent::WorkerReleased { tick, group }),
            FaultSite::ReleaseWithoutOccupancy,
            SchedulingViolation::SpuriousWorkerRelease { tick, group },
        ),
{
    lemma_booked(s, group);
    let f = FaultSite::ReleaseWithoutOccupancy;
    let r = s.release(tick, group);
    assert forall|j: int| 0 <= j < r.groups.len() implies !overdue(#[trigger] r.groups[j], tick@) by {
        assert(r.groups[j] == s.groups[j]);
    }
    lemma_nobody_overdue(r.groups, tick@, 0);
}

// ---------------------------------------------------------------------- plans

/// The plan names nobody twice, and only groups that can run.
pub open spec fn names_runners(s: FoldState, plan: Seq<GroupId>, tick: u64) -> bool {
    forall|n: int|
        0 <= n < plan.len() ==> !plan.take(n).contains(#[trigger] plan[n]) && runs(
            s,
            plan[n],
            tick,
        )
}

/// The group is in the books and can run.
pub open spec fn runs(s: FoldState, group: GroupId, tick: u64) -> bool {
    exists|i: int| stands_at(s, group, i) && can_run(s.groups[i], tick)
}

/// A plan is armed at fault exactly when a pass is open, when it is not the next pass, when its tick
/// was used before, or when it names a group twice or one that cannot run. Otherwise the pass is open,
/// with every named group still to be offered.
pub proof fn law_plans_are_judged(
    s: FoldState,
    pass: PassIndex,
    tick: TickIndex,
    plan: Vec<GroupId>,
)
    requires
        clean(s, tick),
    ensures
        ({
            let after = s.absorbed(HistoryEvent::PassArmed { pass, tick, plan });
            let over = s.open is Some;
            let late = pass != s.next_pass;
            let reused = s.last_armed is Some && tick@ <= s.last_armed->0@;
            let sound = names_runners(s, plan@, tick@);
            &&& over ==> finds(
                after,
                FaultSite::ArmedOverAnOpenPass,
                SchedulingViolation::PassArmedWhileOpen { open: s.open->0.pass, armed: pass },
            )
            &&& !over && late ==> finds(
                after,
                FaultSite::ArmedOutOfOrder,
                SchedulingViolation::PassOutOfOrder { expected: s.next_pass, observed: pass },
            )
            &&& !over && !late && reused ==> finds(
                after,
                FaultSite::ArmedTickReused,
                SchedulingViolation::PassBoundaryReused { pass, tick },
            )
            &&& after.violation is None <==> !over && !late && !reused && sound
            &&& after.open matches Some(open) && open.pass == pass && open.offered.len() == 0
            &&& after.violation is None ==> after.open->0.pending == plan@
            &&& after.last_armed == Some(tick)
            &&& pass@ < u64::MAX ==> after.next_pass@ == pass@ + 1
            &&& after.passes_armed == s.passes_armed + 1
        }),
{
    lemma_punctual(s, tick);
    let r = s.reached(tick);
    let ordered = r.judged(
        r.open is Some,
        FaultSite::ArmedOverAnOpenPass,
        SchedulingViolation::PassArmedWhileOpen { open: r.open->0.pass, armed: pass },
    ).judged(
        pass != r.next_pass,
        FaultSite::ArmedOutOfOrder,
        SchedulingViolation::PassOutOfOrder { expected: r.next_pass, observed: pass },
    ).judged(
        r.last_armed is Some && tick@ <= r.last_armed->0@,
        FaultSite::ArmedTickReused,
        SchedulingViolation::PassBoundaryReused { pass, tick },
    );
    if ordered.violation is Some {
        lemma_judged_plan_keeps(ordered, pass, plan@, plan@.len());
    } else {
        lemma_plan_sound(ordered, pass, plan@, plan@.len());
        assert(ordered == r);
        assert forall|n: int| 0 <= n < plan@.len() implies r.is_ready(#[trigger] plan@[n])
            == runs(s, plan@[n], tick@) by {
            let group = plan@[n];
            lemma_booked(r, group);
            if booked(r, group) {
                let k = choose|k: int| 0 <= k < r.groups.len() && (#[trigger] r.groups[k]).group
                    == group;
                let i = lemma_first_place(r, group, k);
                lemma_ready(r, group, i);
                assert(stands_at(s, group, i));
                if runs(s, group, tick@) {
                    let h = choose|h: int|
                        stands_at(s, group, h) && can_run(s.groups[h], tick@);
                    assert(stands_at(r, group, h));
                    lemma_ready(r, group, h);
                }
            } else {
                if runs(s, group, tick@) {
                    let h = choose|h: int|
                        stands_at(s, group, h) && can_run(s.groups[h], tick@);
                    assert(r.groups[h].group == group);
                }
            }
        }
        assert(named_soundly(r, plan@, plan@.len() as int) <==> names_runners(s, plan@, tick@)) by {
            if named_soundly(r, plan@, plan@.len() as int) {
                assert forall|n: int| 0 <= n < plan@.len() implies !plan@.take(n).contains(
                    #[trigger] plan@[n],
                ) && runs(s, plan@[n], tick@) by {
                    assert(r.is_ready(plan@[n]));
                }
            }
            if names_runners(s, plan@, tick@) {
                assert forall|n: int| 0 <= n < plan@.len() implies !plan@.take(n).contains(
                    #[trigger] plan@[n],
                ) && r.is_ready(plan@[n]) by {}
            }
        }
        let after = s.absorbed(HistoryEvent::PassArmed { pass, tick, plan });
        assert(after == r.armed(pass, tick, plan@));
        assert(after.violation == r.plan_judged(pass, plan@, plan@.len()).violation);
        if after.violation is None {
            lemma_distinct_plan(plan@);
        }
    }
}

/// The plan, up to its n-th entry, names nobody twice and nobody who is not ready.
pub open spec fn named_soundly(s: FoldState, plan: Seq<GroupId>, n: int) -> bool {
    forall|k: int|
        0 <= k < n ==> !plan.take(k).contains(#[trigger] plan[k]) && s.is_ready(plan[k])
}

proof fn lemma_plan_sound(s: FoldState, pass: PassIndex, plan: Seq<GroupId>, n: nat)
    requires
        s.violation is None,
        n <= plan.len(),
    ensures
        s.plan_judged(pass, plan, n).violation is None <==> named_soundly(s, plan, n as int),
        s.plan_judged(pass, plan, n).violation is None ==> s.plan_judged(pass, plan, n) == s,
    decreases n,
{
    if n > 0 {
        lemma_plan_sound(s, pass, plan, (n - 1) as nat);
        let before = s.plan_judged(pass, plan, (n - 1) as nat);
        let group = plan[n - 1];
        if named_soundly(s, plan, n as int) {
            assert forall|k: int| 0 <= k < n - 1 implies !plan.take(k).contains(
                #[trigger] plan[k],
            ) && s.is_ready(plan[k]) by {}
            assert(!plan.take(n - 1).contains(plan[n - 1]) && s.is_ready(plan[n - 1]));
        }
        if s.plan_judged(pass, plan, n).violation is None {
            assert(before.violation is None);
            assert forall|k: int| 0 <= k < n implies !plan.take(k).contains(#[trigger] plan[k])
                && s.is_ready(plan[k]) by {
                if k == n - 1 {
                    assert(plan[k] == group);
                }
            }
        }
    }
}

proof fn lemma_distinct_plan(plan: Seq<GroupId>)
    requires
        forall|n: int| 0 <= n < plan.len() ==> !plan.take(n).contains(#[trigger] plan[n]),
    ensures
        distinct(plan) == plan,
    decreases plan.len(),
{
    if plan.len() > 0 {
        let rest = plan.drop_last();
        assert forall|n: int| 0 <= n < rest.len() implies !rest.take(n).contains(
            #[trigger] rest[n],
        ) by {
            assert(plan[n] == rest[n]);
            assert(plan.take(n) =~= rest.take(n));
        }
        lemma_distinct_plan(rest);
        assert(plan.take(plan.len() - 1) =~= rest);
        assert(!plan.take(plan.len() - 1).contains(plan[plan.len() - 1]));
        assert(rest.push(plan.last()) =~= plan);
    }
}

// ---------------------------------------------------------------------- turns

/// A turn is offered at fault when its group is not in the plan of the open pass, when it was offered
/// before, when it is skipped though available, or when it is dispatched though it cannot run, beyond
/// its quota, or beyond the workers there are. Every offer is counted.
pub proof fn law_offers_are_judged(
    s: FoldState,
    pass: PassIndex,
    tick: TickIndex,
    group: GroupId,
    outcome: OfferOutcome,
    i: int,
)
    requires
        clean(s, tick),
        stands_at(s, group, i),
    ensures
        ({
            let after = s.absorbed(HistoryEvent::GroupOffered { pass, tick, group, outcome });
            let g = s.groups[i];
            let current = s.open is Some && s.open->0.pass == pass;
            let named = current && (s.open->0.pending.contains(group) || s.open->0.offered.contains(
                group,
            ));
            let again = named && s.open->0.offered.contains(group);
            let due = named && !again;
            let runs = can_run(g, tick@);
            let held = settled_workers(s.groups, tick@);
            &&& after.opportunities == s.opportunities + 1
            &&& !named ==> finds(
                after,
                FaultSite::OfferOutsideThePlan,
                SchedulingViolation::OfferOutsidePlan { pass, group },
            )
            &&& again ==> finds(
                after,
                FaultSite::OfferedTwiceInOnePass,
                SchedulingViolation::GroupOfferedTwice { pass, group },
            )
            &&& due && outcome is Skipped && !g.stalled ==> finds(
                after,
                FaultSite::SkippedWhileAvailable,
                SchedulingViolation::SkippedAvailableGroup { pass, group },
            )
            &&& due && outcome is Skipped && g.stalled ==> after.violation is None
            &&& due && outcome is Dispatched && !runs ==> finds(
                after,
                FaultSite::DispatchedWhileUnready,
                SchedulingViolation::DispatchedUnreadyGroup { pass, group },
            )
            &&& outcome matches OfferOutcome::Dispatched { serviced, cost } ==> {
                &&& due && runs && serviced > g.quota@ ==> finds(
                    after,
                    FaultSite::DispatchOverQuota,
                    SchedulingViolation::QuotaExceeded { pass, group, serviced, quota: g.quota@ },
                )
                &&& due && runs && serviced <= g.quota@ && held + 1 > s.config.workers_bound()
                    ==> finds(
                    after,
                    FaultSite::DispatchOverWorkerPool,
                    SchedulingViolation::WorkerCountExceeded {
                        pass,
                        group,
                        workers: s.config.workers_bound(),
                    },
                )
                &&& due && runs ==> (after.violation is None <==> serviced <= g.quota@ && held + 1
                    <= s.config.workers_bound())
                &&& due && runs ==> (after.recording matches Some(turn) && turn.group == group
                    && turn.pass == pass && turn.tick == tick && turn.serviced == 0 && turn.price
                    == 0 && turn.reported_serviced == serviced && turn.reported_cost == cost
                    && turn.owed == owed_items(by_priority(g.queue), g.quota@ as nat))
            }
            &&& due ==> (after.open matches Some(open) && !open.pending.contains(group)
                && open.offered.contains(group) && open.pass == pass)
        }),
{
    lemma_punctual(s, tick);
    let r = s.reached(tick);
    assert(stands_at(r, group, i));
    lemma_entry(r, group, i);
    lemma_ready(r, group, i);
    let open = r.open->0;
    if r.open is Some && open.pass == pass && open.pending.contains(group)
        && !open.offered.contains(group) {
        let taken = FoldState {
            open: Some(
                OpenPass {
                    pending: without(open.pending, group),
                    offered: open.offered.push(group),
                    ..open
                },
            ),
            opportunities: r.opportunities + 1,
            ..r
        };
        assert(stands_at(taken, group, i));
        lemma_ready(taken, group, i);
        lemma_without(open.pending, group);
        assert(open.offered.push(group)[open.offered.len() as int] == group);
        assert(taken.open->0.offered.contains(group));
    }
}

proof fn lemma_without(groups: Seq<GroupId>, group: GroupId)
    ensures
        !without(groups, group).contains(group),
{
    broadcast use vstd::seq_lib::group_filter_ensures;

    let keep = |other: GroupId| other != group;
    if without(groups, group).contains(group) {
        let k = choose|k: int|
            0 <= k < without(groups, group).len() && without(groups, group)[k] == group;
        assert(keep(groups.filter(keep)[k]));
    }
}

/// A turn owes its group's items by class and then by age, as many as the quota allows, and nothing
/// behind one that fails.
pub proof fn law_turn_owes_the_oldest_of_the_first_class(order: Seq<QueuedWork>, quota: nat)
    requires
        order.len() > 0,
        quota > 0,
    ensures
        owed_items(order, quota).len() > 0,
        owed_items(order, quota)[0] == order[0].id,
        owed_items(order, quota).len() <= quota,
        owed_items(order, quota).len() <= order.len(),
        order[0].work is Faulty ==> owed_items(order, quota).len() == 1,
        !(order[0].work is Faulty) ==> owed_items(order, quota).drop_first() == owed_items(
            order.drop_first(),
            (quota - 1) as nat,
        ),
    decreases order.len(),
{
    let rest = order.drop_first();
    if !(order[0].work is Faulty) {
        if rest.len() > 0 && quota > 1 {
            law_turn_owes_the_oldest_of_the_first_class(rest, (quota - 1) as nat);
        }
        assert(owed_items(order, quota).drop_first() =~= owed_items(rest, (quota - 1) as nat));
    }
}

/// A queue is put in order by class, and within a class it keeps the order of admission.
pub proof fn law_priority_is_by_class_then_age(queue: Seq<QueuedWork>)
    ensures
        by_priority(queue) == queue.filter(
            |item: QueuedWork| item.work.class() == WorkClass::Control,
        ) + queue.filter(|item: QueuedWork| item.work.class() == WorkClass::Command) + queue.filter(
            |item: QueuedWork| item.work.class() == WorkClass::Snapshot,
        ) + queue.filter(|item: QueuedWork| item.work.class() == WorkClass::Bulk),
{
}

/// An item is serviced at fault outside the turn that is recorded, once the turn owes nothing more, or
/// out of order. A serviced item of the queue is listed, leaves the queue and is paid for.
pub proof fn law_services_are_judged(
    s: FoldState,
    pass: PassIndex,
    group: GroupId,
    work: WorkId,
    i: int,
    k: int,
)
    requires
        s.violation is None,
        stands_at(s, group, i),
        is_item(s.groups[i].queue, work, k),
        s.recording is Some,
        s.recording->0.group == group,
        s.queued > 0,
    ensures
        ({
            let turn = s.recording->0;
            let g = s.groups[i];
            let item = g.queue[k];
            let after = s.absorbed(HistoryEvent::WorkServiced { pass, group, work });
            &&& turn.pass != pass ==> finds(
                after,
                FaultSite::ServiceOutsideATurn,
                SchedulingViolation::ServiceOutsideDispatch { pass, group },
            )
            &&& turn.pass == pass && turn.owed.len() == 0 ==> finds(
                after,
                FaultSite::ServicePastTheTurnsWork,
                SchedulingViolation::DispatchServicedBeyondItsWork {
                    pass,
                    group,
                    owed: turn.owed_total,
                    work,
                },
            )
            &&& turn.pass == pass && turn.owed.len() > 0 ==> {
                &&& turn.owed[0] != work ==> finds(
                    after,
                    FaultSite::ServiceOutOfOrder,
                    SchedulingViolation::ServiceOrderViolation {
                        pass,
                        group,
                        expected: turn.owed[0],
                        observed: work,
                    },
                )
                &&& after.violation is None <==> turn.owed[0] == work
                &&& after.serviced == s.serviced + 1
                &&& after.queued == s.queued - 1
                &&& after.services.len() == s.services.len() + 1
                &&& after.services.last().work == work
                &&& after.services.last().group == group
                &&& after.services.last().class == item.work.class()
                &&& after.groups[i].queue == g.queue.remove(k)
                &&& after.recording matches Some(next) && next.owed == turn.owed.skip(1)
                    && next.serviced == turn.serviced + 1 && next.price == turn.price
                    + item.work.cost()@
                &&& item.work is Faulty ==> after.groups[i].poisoned
            }
        }),
{
    lemma_entry(s, group, i);
    lemma_item(s.groups[i].queue, work, k);
    let turn = s.recording->0;
    if turn.pass == pass && turn.owed.len() > 0 {
        let judged = s.judged(
            turn.owed[0] != work,
            FaultSite::ServiceOutOfOrder,
            SchedulingViolation::ServiceOrderViolation {
                pass,
                group,
                expected: turn.owed[0],
                observed: work,
            },
        );
        let next = FoldState {
            recording: Some(
                Turn {
                    owed: turn.owed.drop_first(),
                    serviced: turn.serviced + 1,
                    price: turn.price + s.groups[i].price_of(work),
                    ..turn
                },
            ),
            ..judged
        };
        assert(stands_at(next, group, i));
        lemma_entry(next, group, i);
        assert(turn.owed.drop_first() =~= turn.owed.skip(1));
    }
}

proof fn lemma_item(queue: Seq<QueuedWork>, work: WorkId, k: int)
    requires
        is_item(queue, work, k),
    ensures
        find_item(queue, work) == Some(k),
{
    let h = choose|h: int| is_item(queue, work, h);
    assert(is_item(queue, work, h));
    assert(h == k) by {
        if h < k {
            assert(queue[h].id != work);
        }
        if k < h {
            assert(queue[k].id != work);
        }
    }
}

/// A service of a group whose turn is not recorded is at fault.
pub proof fn law_service_needs_a_turn(s: FoldState, pass: PassIndex, group: GroupId, work: WorkId)
    requires
        s.violation is None,
        s.recording is None,
    ensures
        finds(
            s.absorbed(HistoryEvent::WorkServiced { pass, group, work }),
            FaultSite::ServiceOutsideATurn,
            SchedulingViolation::ServiceOutsideDispatch { pass, group },
        ),
{
}

/// A turn ends at fault where it left work that it owed, or reported another number or another cost
/// than its services show. Its worker is then held until its cost is paid.
pub proof fn law_turns_are_settled(s: FoldState, i: int)
    requires
        s.violation is None,
        s.recording is Some,
        stands_at(s, s.recording->0.group, i),
    ensures
        ({
            let turn = s.recording->0;
            let after = s.settled();
            let left = turn.owed.len() > 0;
            let miscounted = turn.serviced != turn.reported_serviced;
            let mispriced = turn.price != turn.reported_cost;
            &&& after.recording is None
            &&& left ==> (after.violation matches Some((site, violation)) && site
                == FaultSite::TurnLeftWorkQueued && (violation matches
                SchedulingViolation::DispatchLeftWorkUnserviced { pass, group, owed, .. } && pass
                == turn.pass && group == turn.group && owed == turn.owed_total))
            &&& !left && miscounted ==> (after.violation matches Some((site, violation)) && site
                == FaultSite::TurnMiscountedItsWork && (violation matches
                SchedulingViolation::ServiceCountMismatch { pass, group, observed, .. } && pass
                == turn.pass && group == turn.group && observed == turn.reported_serviced))
            &&& !left && !miscounted && mispriced ==> (after.violation matches Some(
                (site, violation),
            ) && site == FaultSite::TurnMispricedItsWork && (violation matches
                SchedulingViolation::DispatchCostMismatch { pass, group, observed, .. } && pass
                == turn.pass && group == turn.group && observed == turn.reported_cost))
            &&& after.violation is None <==> !left && !miscounted && !mispriced
            &&& after.groups[i].occupancy is Some
            &&& after.groups[i].occupancy->0.pass == turn.pass
            &&& turn.tick@ + turn.price <= u64::MAX ==> after.groups[i].occupancy->0.due@
                == turn.tick@ + turn.price
            &&& after.groups[i].queue == s.groups[i].queue
        }),
{
    let turn = s.recording->0;
    let closed = FoldState { recording: None, ..s };
    assert(stands_at(closed, turn.group, i));
    lemma_entry(closed, turn.group, i);
}

// --------------------------------------------------------------------- passes

/// A pass is completed at fault where its tick was used before, where no pass is open, where another
/// one is, or where a group of its plan was not offered. No pass is open afterwards.
pub proof fn law_completions_are_judged(s: FoldState, pass: PassIndex, tick: TickIndex)
    requires
        clean(s, tick),
    ensures
        ({
            let after = s.absorbed(HistoryEvent::PassCompleted { pass, tick });
            let reused = s.last_retired is Some && tick@ <= s.last_retired->0@;
            let open = s.open->0;
            &&& reused ==> finds(
                after,
                FaultSite::RetiredTickReused,
                SchedulingViolation::PassBoundaryReused { pass, tick },
            )
            &&& !reused && s.open is None ==> finds(
                after,
                FaultSite::RetiredWithNoPassOpen,
                SchedulingViolation::PassOutOfOrder { expected: s.next_pass, observed: pass },
            )
            &&& !reused && s.open is Some && open.pass != pass ==> finds(
                after,
                FaultSite::RetiredADifferentPass,
                SchedulingViolation::PassOutOfOrder { expected: open.pass, observed: pass },
            )
            &&& !reused && s.open is Some && open.pass == pass && open.pending.len() > 0 ==> (
            after.violation matches Some((site, violation)) && site
                == FaultSite::RetiredWithATurnOwing && (violation matches
                SchedulingViolation::PassCompletedWithUnofferedGroup { pass: p, group } && p == pass
                && open.pending.contains(group) && forall|j: int|
                0 <= j < open.pending.len() ==> group@ <= (#[trigger] open.pending[j])@))
            &&& after.violation is None <==> !reused && s.open is Some && open.pass == pass
                && open.pending.len() == 0
            &&& after.open is None
            &&& after.last_retired == Some(tick)
            &&& s.open is Some ==> after.passes_completed == s.passes_completed + 1
        }),
{
    lemma_punctual(s, tick);
    if s.open is Some && s.open->0.pending.len() > 0 {
        lemma_least(s.open->0.pending);
    }
}

proof fn lemma_least(groups: Seq<GroupId>)
    requires
        groups.len() > 0,
    ensures
        groups.contains(crate::oracle::fold::least(groups)),
        forall|j: int|
            0 <= j < groups.len() ==> crate::oracle::fold::least(groups)@ <= (
            #[trigger] groups[j])@,
    decreases groups.len(),
{
    let l = crate::oracle::fold::least(groups);
    if groups.len() == 1 {
        assert(groups[0] == l);
    } else {
        let rest = groups.drop_last();
        lemma_least(rest);
        let m = crate::oracle::fold::least(rest);
        let k = choose|k: int| 0 <= k < rest.len() && rest[k] == m;
        assert(groups[k] == m);
        assert(groups[groups.len() - 1] == groups.last());
        assert forall|j: int| 0 <= j < groups.len() implies l@ <= (#[trigger] groups[j])@ by {
            if j < rest.len() {
                assert(rest[j] == groups[j]);
            }
        }
    }
}

// --------------------------------------------------------------- availability

/// A report of a stall, or of its end, is taken as it is; a group that was owed a turn when its stall
/// ended is remembered.
pub proof fn law_availability_is_noted(
    s: FoldState,
    group: GroupId,
    tick: TickIndex,
    availability: GroupAvailability,
    i: int,
)
    requires
        clean(s, tick),
        stands_at(s, group, i),
    ensures
        ({
            let after = s.absorbed(
                HistoryEvent::AvailabilityReported { tick, group, availability },
            );
            &&& after.violation is None
            &&& after.tick == tick@
            &&& after.groups[i].stalled <==> availability == GroupAvailability::Stalled
            &&& after.groups[i].queue == s.groups[i].queue
            &&& s.groups[i].restored ==> after.groups[i].restored
            &&& forall|j: int|
                0 <= j < s.groups.len() && j != i ==> #[trigger] after.groups[j] == s.groups[j]
            &&& after.open == s.open
            &&& after.queued == s.queued
        }),
{
    lemma_punctual(s, tick);
    let r = s.reached(tick);
    assert(stands_at(r, group, i));
    lemma_entry(r, group, i);
}

/// A plan that leaves out a group which could have run, or could have but for a stall that ended since,
/// denies it once more; any other plan ends the run of denials and settles the debt.
pub proof fn law_denials_are_counted(
    s: FoldState,
    pass: PassIndex,
    tick: TickIndex,
    plan: Vec<GroupId>,
    group: GroupId,
    i: int,
)
    requires
        clean(s, tick),
        stands_at(s, group, i),
    ensures
        ({
            let after = s.absorbed(HistoryEvent::PassArmed { pass, tick, plan });
            let was = s.groups[i];
            let now = after.groups[i];
            let owed = can_run(GroupFold { stalled: was.stalled && !was.restored, ..was }, tick@);
            &&& now.gap.worst >= was.gap.worst
            &&& owed && !plan@.contains(group) ==> {
                &&& now.gap.run == was.gap.run + 1
                &&& now.gap.worst >= now.gap.run
                &&& was.gap.run == 0 ==> now.gap.run_from == Some(pass)
                &&& was.gap.run > 0 ==> now.gap.run_from == was.gap.run_from
                &&& now.restored == was.restored
            }
            &&& !owed || plan@.contains(group) ==> {
                &&& now.gap.run == 0
                &&& now.gap.worst == was.gap.worst && now.gap.worst_from == was.gap.worst_from
                &&& !now.restored
            }
            &&& now.queue == was.queue && now.state == was.state && now.stalled == was.stalled
        }),
{
    lemma_punctual(s, tick);
    let r = s.reached(tick);
    assert(stands_at(r, group, i));
    lemma_entry(r, group, i);
}

/// Between passes, a stall that ends while the group could have run but for it leaves the group owed a
/// turn, and no other does.
pub proof fn law_broken_stalls_are_owed(
    s: FoldState,
    group: GroupId,
    tick: TickIndex,
    i: int,
)
    requires
        clean(s, tick),
        stands_at(s, group, i),
        s.groups[i].stalled,
        s.open is None,
    ensures
        ({
            let after = s.absorbed(
                HistoryEvent::AvailabilityReported {
                    tick,
                    group,
                    availability: GroupAvailability::Available,
                },
            );
            let was = s.groups[i];
            &&& after.groups[i].restored <==> was.restored || can_run(
                GroupFold { stalled: false, ..was },
                tick@,
            )
        }),
{
    lemma_punctual(s, tick);
    let r = s.reached(tick);
    assert(stands_at(r, group, i));
    lemma_entry(r, group, i);
}

/// At the end every admitted item has to be serviced, failed or queued.
pub proof fn law_books_have_to_balance(s: FoldState)
    requires
        s.violation is None,
        s.recording is None,
    ensures
        s.finished().violation is None <==> s.queued + s.serviced + s.failed == s.admitted,
        s.queued + s.serviced + s.failed != s.admitted ==> (s.finished().violation matches Some(
            (site, violation),
        ) && site == FaultSite::WorkUnaccountedFor && violation is WorkNotConserved),
{
}

} // verus!
