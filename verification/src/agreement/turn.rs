//! A group's turn, recorded, is the turn the judge expects.

use vstd::prelude::*;

use crate::agreement::record::{
    all_taken, clock, lemma_all_taken, services_recorded, taken, turn_size, turns_recorded,
    Decision,
};
use crate::agreement::relation::{
    lemma_entry, lemma_found, lemma_replaced, lemma_same_len, lemma_same_pop, lemma_updated,
    mirrors, paid_from, same_counts, same_groups, same_pass, same_workers,
};
use crate::agreement::requests::lemma_same_tables;
use crate::model::laws::{law_turn_is_taken_unless_stalled, lemma_turn_reaches};
use crate::model::reachable::{
    core_inv, group_ok, held, holds, lemma_served, lemma_total_bounds, lemma_turn_len, owed,
    plan_ok, workers_ok,
};
use crate::model::state::{
    lemma_service_order, saturating_sum, GroupState, PlanState, SchedulerState,
};
use crate::oracle::fold::{
    find_entry, find_item, first_overdue, overdue, owed_items, settled_workers, unpaid, without,
    FoldState, GroupFold, Occupancy, Turn,
};
use crate::types::{GroupId, Offer, PassIndex, ServiceRecord, TickIndex, WorkId};

verus! {

// ---------------------------------------------------------------------- clock

/// No occupancy is overdue while every held worker is paid at `tick` or later, and moving the clock
/// there changes nothing else.
pub proof fn lemma_reached(s: SchedulerState, f: FoldState, freed: Seq<GroupId>, tick: TickIndex)
    requires
        workers_ok(s),
        same_groups(s, f),
        same_workers(s, f, freed),
        paid_from(s.workers, tick@ as int),
        f.tick <= tick@,
    ensures
        f.reached(tick) == (FoldState { tick: tick@, ..f }),
{
    assert forall|i: int| 0 <= i < f.groups.len() implies !overdue(#[trigger] f.groups[i], tick@) by {
        if f.groups[i].occupancy is Some {
            lemma_due(s, f, freed, i);
        }
    }
    lemma_none_overdue(f.groups, tick@, 0);
    assert(f.reached(tick).groups =~= f.groups);
}

/// An occupancy is due when its worker is paid.
pub proof fn lemma_due(s: SchedulerState, f: FoldState, freed: Seq<GroupId>, i: int)
    requires
        workers_ok(s),
        same_groups(s, f),
        same_workers(s, f, freed),
        0 <= i < f.groups.len(),
        f.groups[i].occupancy is Some,
    ensures
        held(s, f.groups[i].group@ as int),
        forall|w: int|
            #[trigger] holds(s, w, f.groups[i].group@ as int) ==> s.workers[w]->0.group
                == f.groups[i].group && s.workers[w]->0.busy_until
                == f.groups[i].occupancy->0.due,
{
    let group = f.groups[i].group;
    assert(s.slot(group) is Some);
    assert(s.slots[group@ as int] is Some);
    assert(s.slots[group@ as int]->0.servicing);
    assert(held(s, group@ as int));
    lemma_found(f.groups, i);
    assert forall|w: int| #[trigger] holds(s, w, group@ as int) implies s.workers[w]->0.group == group
        && s.workers[w]->0.busy_until == f.groups[i].occupancy->0.due by {
        assert(s.workers[w] is Some);
        assert(s.workers[w]->0.group == group);
        assert(!freed.contains(group));
    }
}

proof fn lemma_none_overdue(groups: Seq<GroupFold>, tick: u64, from: int)
    requires
        0 <= from <= groups.len(),
        forall|i: int| 0 <= i < groups.len() ==> !overdue(#[trigger] groups[i], tick),
    ensures
        first_overdue(groups, tick, from) is None,
    decreases groups.len() - from,
{
    if from < groups.len() {
        lemma_none_overdue(groups, tick, from + 1);
    }
}

/// A group is occupied exactly while it holds a worker.
pub proof fn lemma_occupied(s: SchedulerState, f: FoldState, group: GroupId)
    requires
        workers_ok(s),
        same_groups(s, f),
        same_workers(s, f, Seq::empty()),
        f.recording is None,
        f.tick <= s.tick,
        paid_from(s.workers, s.tick + 1),
    ensures
        f.occupied(group) <==> s.slot(group) is Some && s.slot(group)->0.servicing,
{
    lemma_entry(s, f, group);
    if f.entry(group) is Some {
        let i = find_entry(f.groups, group)->0;
        assert(f.groups[i].occupancy is Some <==> s.slot(f.groups[i].group)->0.servicing
            && !Seq::<GroupId>::empty().contains(f.groups[i].group));
        if f.groups[i].occupancy is Some {
            lemma_due(s, f, Seq::empty(), i);
            let w = choose|w: int| holds(s, w, group@ as int);
            assert(s.workers[w] is Some);
        }
    }
}

/// A group is ready for the judge exactly when the scheduler finds it ready.
pub proof fn lemma_ready(s: SchedulerState, f: FoldState, group: GroupId)
    requires
        workers_ok(s),
        same_groups(s, f),
        same_workers(s, f, Seq::empty()),
        f.recording is None,
        f.tick <= s.tick,
        paid_from(s.workers, s.tick + 1),
    ensures
        f.is_ready(group) <==> s.ready(group@ as int),
{
    lemma_entry(s, f, group);
    lemma_occupied(s, f, group);
    if f.entry(group) is Some {
        lemma_same_len(s.slot(group)->0.queue, f.entry(group)->0.queue);
    }
}

// -------------------------------------------------------------------- workers

/// Positions of the groups in the table whose occupancy is unpaid.
spec fn unpaid_at(groups: Seq<GroupFold>, tick: u64) -> Set<int> {
    Set::new(|i: int| 0 <= i < groups.len() && unpaid(groups[i], tick))
}

proof fn lemma_unpaid_len(groups: Seq<GroupFold>, tick: u64)
    ensures
        unpaid_at(groups, tick).finite(),
        unpaid_at(groups, tick).len() == settled_workers(groups, tick),
    decreases groups.len(),
{
    if groups.len() == 0 {
        assert(unpaid_at(groups, tick) =~= Set::empty());
    } else {
        let rest = groups.drop_last();
        lemma_unpaid_len(rest, tick);
        if unpaid(groups.last(), tick) {
            assert(unpaid_at(groups, tick) =~= unpaid_at(rest, tick).insert(groups.len() - 1));
        } else {
            assert(unpaid_at(groups, tick) =~= unpaid_at(rest, tick));
        }
    }
}

/// While a worker is free, fewer groups are occupied than there are workers.
proof fn lemma_room(s: SchedulerState, f: FoldState, free: int)
    requires
        workers_ok(s),
        same_groups(s, f),
        same_workers(s, f, Seq::empty()),
        0 <= free < s.workers.len(),
        s.workers[free] is None,
    ensures
        settled_workers(f.groups, f.tick) < s.config.workers_bound(),
{
    let taken = unpaid_at(f.groups, f.tick);
    lemma_unpaid_len(f.groups, f.tick);
    let of = |i: int| choose|w: int| holds(s, w, f.groups[i].group@ as int);
    let used = taken.map(of);
    assert forall|i: int| taken.contains(i) implies holds(
        s,
        #[trigger] of(i),
        f.groups[i].group@ as int,
    ) by {
        lemma_due(s, f, Seq::empty(), i);
    }
    assert(vstd::relations::injective_on(of, taken)) by {
        assert forall|i: int, j: int|
            taken.contains(i) && taken.contains(j) && #[trigger] of(i) == #[trigger] of(j) implies i
            == j by {
            assert(holds(s, of(i), f.groups[i].group@ as int));
            assert(holds(s, of(j), f.groups[j].group@ as int));
            if i < j {
                assert(f.groups[i].group@ < f.groups[j].group@);
            } else if j < i {
                assert(f.groups[j].group@ < f.groups[i].group@);
            }
        }
    }
    vstd::set_lib::lemma_map_size(taken, used, of);
    let rest = vstd::set_lib::set_int_range(0, s.workers.len() as int).remove(free);
    vstd::set_lib::lemma_int_range(0, s.workers.len() as int);
    assert(used.subset_of(rest)) by {
        assert forall|w: int| used.contains(w) implies rest.contains(w) by {
            let i = choose|i: int| taken.contains(i) && of(i) == w;
            assert(holds(s, of(i), f.groups[i].group@ as int));
        }
    }
    vstd::set_lib::lemma_len_subset(used, rest);
}

// ------------------------------------------------------------------- services

/// The items a turn of this slot owes once it has serviced `k`.
spec fn still_owed(slot: GroupState, k: nat) -> Seq<WorkId> {
    if k > 0 && slot.served(k).poisoned {
        Seq::empty()
    } else {
        owed_items(slot.served(k).queue.service_order(), (slot.quota@ - k) as nat)
    }
}

/// The turn of a group while its services are recorded: `k` of them have been.
#[verifier::ext_equal]
struct Opening {
    pass: PassIndex,
    tick: TickIndex,
    group: GroupId,
    owed_total: u32,
    serviced: u32,
    cost: u64,
}

/// What the fold says while `k` services of the turn have been recorded.
spec fn serving(s: SchedulerState, f: FoldState, opening: Opening, k: nat) -> bool {
    let slot = s.slot(opening.group)->0;
    let t = s.with_slot(opening.group, slot.served(k));
    &&& f.recording == Some(
        Turn {
            pass: opening.pass,
            tick: opening.tick,
            group: opening.group,
            owed: still_owed(slot, k),
            owed_total: opening.owed_total,
            serviced: k,
            price: slot.served_cost(k),
            reported_serviced: opening.serviced,
            reported_cost: opening.cost,
        },
    )
    &&& f.violation is None
    &&& same_groups(t, f)
    &&& same_workers(t, f, Seq::empty())
    &&& f.config == s.config
    &&& f.next_work == s.next_work
    &&& f.admitted == s.admitted
    &&& f.serviced == s.serviced + k
    &&& f.failed == s.failed
    &&& f.queued == s.queued - k
    &&& f.next_pass == s.next_pass
}

/// What a fold keeps while a turn is recorded.
spec fn turn_frame(f: FoldState, g: FoldState) -> bool {
    &&& g.open == f.open
    &&& g.tick == f.tick
    &&& g.last_armed == f.last_armed
    &&& g.last_retired == f.last_retired
    &&& g.outcomes == f.outcomes
    &&& g.failures == f.failures
    &&& g.groups.len() == f.groups.len()
    &&& forall|i: int|
        0 <= i < f.groups.len() ==> (#[trigger] g.groups[i]).gap == f.groups[i].gap
            && g.groups[i].restored == f.groups[i].restored && g.groups[i].group
            == f.groups[i].group
}

/// One more service recorded.
#[verifier::spinoff_prover]
#[verifier::rlimit(60)]
proof fn lemma_serviced(s: SchedulerState, f: FoldState, opening: Opening, k: nat)
    requires
        core_inv(s),
        s.slot(opening.group) is Some,
        owed(s.slot(opening.group)->0),
        k < s.slot(opening.group)->0.turn_len(),
        serving(s, f, opening, k),
    ensures
        ({
            let slot = s.slot(opening.group)->0;
            let record = slot.served(k).record_of(opening.group, slot.served(k).queue.head());
            let g = taken(
                f,
                Decision::Serviced {
                    pass: opening.pass,
                    group: opening.group,
                    work: record.work,
                },
            );
            &&& serving(s, g, opening, k + 1)
            &&& g.services == f.services.push(record)
            &&& turn_frame(f, g)
        }),
{
    let group = opening.group;
    let slot = s.slot(group)->0;
    assert(group_ok(slot, s.config, s.next_work));
    lemma_turn_len(slot, 0, s.config, s.next_work);
    lemma_turn_reaches(slot, 0, k);
    lemma_served(slot, group, k, s.config, s.next_work);
    lemma_served(slot, group, k + 1, s.config, s.next_work);
    lemma_total_bounds(s.slots, group@ as int);
    let before = slot.served(k);
    let after = slot.served(k + 1);
    let t = s.with_slot(group, before);
    let head = before.queue.head();
    lemma_entry(t, f, group);
    let entry = f.entry(group)->0;
    lemma_same_pop(before.queue, entry.queue, s.next_work as int);
    lemma_service_order(before.queue);
    lemma_same_len(before.queue, entry.queue);
    let i = find_item(entry.queue, head.id)->0;
    let quota = (slot.quota@ - k) as nat;
    let order = before.queue.service_order();
    assert(!before.poisoned || k == 0);
    assert(!slot.poisoned);
    assert(slot.served(0) == slot);
    assert(!before.poisoned);
    assert(still_owed(slot, k) == owed_items(order, quota));
    assert(order.len() > 0 && quota > 0);
    assert(still_owed(slot, k)[0] == head.id);
    if head.work is Faulty {
        assert(still_owed(slot, k).drop_first() =~= Seq::<WorkId>::empty());
        assert(after.poisoned);
    } else {
        assert(still_owed(slot, k).drop_first() =~= owed_items(
            order.drop_first(),
            (quota - 1) as nat,
        ));
        assert(!after.poisoned);
        assert(after.queue == before.queue.pop());
    }
    assert(still_owed(slot, k).drop_first() == still_owed(slot, k + 1));
    let next = entry.serviced(i);
    assert(mirrors(after, next, s.next_work as int));
    assert(next.group == group);
    assert(next.occupancy == entry.occupancy);
    lemma_replaced(t, f, group, after, next, Seq::empty());
    let u = s.with_slot(group, after);
    assert(t.with_slot(group, after).slots =~= u.slots);
    let b = f.with_entry(group, next);
    let work = head.id;
    let g = taken(f, Decision::Serviced { pass: opening.pass, group, work });
    assert(g.groups == b.groups);
    lemma_same_tables(t.with_slot(group, after), b, u, g);
    assert(entry.price_of(work) == head.work.cost()@ as nat);
    assert(g.recording->0.price == slot.served_cost(k + 1));
    assert(entry.record_of(i) == before.record_of(group, head));
}

/// Every service of the turn recorded, up to the first `k`.
proof fn lemma_services(s: SchedulerState, f: FoldState, opening: Opening, k: nat)
    requires
        core_inv(s),
        s.slot(opening.group) is Some,
        owed(s.slot(opening.group)->0),
        k <= s.slot(opening.group)->0.turn_len(),
        serving(s, f, opening, 0),
    ensures
        ({
            let records = s.slot(opening.group)->0.served_records(opening.group, k);
            let g = all_taken(f, services_recorded(opening.pass, records));
            &&& serving(s, g, opening, k)
            &&& g.services == f.services + records
            &&& turn_frame(f, g)
        }),
    decreases k,
{
    let slot = s.slot(opening.group)->0;
    let records = slot.served_records(opening.group, k);
    if k == 0 {
        assert(services_recorded(opening.pass, records) =~= Seq::empty());
        assert(f.services + records =~= f.services);
    } else {
        let j = (k - 1) as nat;
        lemma_services(s, f, opening, j);
        let earlier = slot.served_records(opening.group, j);
        let g = all_taken(f, services_recorded(opening.pass, earlier));
        lemma_serviced(s, g, opening, j);
        let record = slot.served(j).record_of(opening.group, slot.served(j).queue.head());
        assert(records == earlier.push(record));
        assert(services_recorded(opening.pass, records).drop_last() =~= services_recorded(
            opening.pass,
            earlier,
        ));
        assert(record.group == opening.group);
        assert(f.services + records =~= (f.services + earlier).push(record));
    }
}

// ----------------------------------------------------------------------- turn

/// The scheduler and the fold agree in the middle of a pass, at the tick that traverses it.
pub open(crate) spec fn midway(s: SchedulerState, plan: PlanState, f: FoldState) -> bool {
    let g = f.settled();
    &&& g.recording is None
    &&& g.violation is None
    &&& same_counts(s, g)
    &&& same_groups(s, g)
    &&& same_workers(s, g, Seq::empty())
    &&& same_pass(Some(plan), g.open)
    &&& g.tick <= s.tick
    &&& g.last_armed is Some ==> g.last_armed->0@ <= s.tick
    &&& g.last_retired is Some ==> g.last_retired->0@ < s.tick
    &&& paid_from(s.workers, s.tick + 1)
}

/// What a fold keeps through a turn.
pub open(crate) spec fn same_debts(f: FoldState, g: FoldState) -> bool {
    &&& g.outcomes == f.outcomes
    &&& g.failures == f.failures
    &&& g.groups.len() == f.groups.len()
    &&& forall|i: int|
        0 <= i < f.groups.len() ==> (#[trigger] g.groups[i]).gap == f.groups[i].gap
            && g.groups[i].restored == f.groups[i].restored && g.groups[i].group
            == f.groups[i].group
}

/// Settling keeps debts.
pub proof fn lemma_settled_debts(f: FoldState)
    ensures
        same_debts(f, f.settled()),
        f.settled().services == f.services,
        f.settled().settled() == f.settled(),
{
    if f.recording is Some {
        let group = f.recording->0.group;
        if f.entry(group) is Some {
            crate::oracle::sound::lemma_entry_at(f.groups, group);
        }
    }
}

/// Taking the first of a plan's remaining entries.
proof fn lemma_pending(plan: PlanState, group: GroupId)
    requires
        plan.next < plan.entries.len(),
        plan.entries[plan.next as int] == group,
        forall|i: int, j: int|
            0 <= i < j < plan.entries.len() ==> plan.entries[i]@ != plan.entries[j]@,
    ensures
        without(plan.entries.skip(plan.next as int), group) == plan.entries.skip(plan.next as int + 1),
        plan.entries.take(plan.next as int).push(group) == plan.entries.take(plan.next as int + 1),
        plan.entries.skip(plan.next as int).contains(group),
        !plan.entries.take(plan.next as int).contains(group),
{
    let rest = plan.entries.skip(plan.next as int);
    assert(rest[0] == group);
    lemma_without_first(rest, group);
    assert(rest.drop_first() =~= plan.entries.skip(plan.next as int + 1));
    assert(plan.entries.take(plan.next as int).push(group) =~= plan.entries.take(plan.next as int + 1));
}

/// Leaving out the first of distinct identifiers leaves the rest.
proof fn lemma_without_first(items: Seq<GroupId>, group: GroupId)
    requires
        items.len() > 0,
        items[0] == group,
        forall|i: int| 0 < i < items.len() ==> #[trigger] items[i] != group,
    ensures
        without(items, group) == items.drop_first(),
    decreases items.len(),
{
    reveal(Seq::filter);
    let rest = items.drop_last();
    if items.len() == 1 {
        assert(without(rest, group) =~= Seq::empty());
        assert(without(items, group) =~= items.drop_first());
    } else {
        lemma_without_first(rest, group);
        assert(items.last() != group);
        assert(without(items, group) =~= rest.drop_first().push(items.last()));
        assert(rest.drop_first().push(items.last()) =~= items.drop_first());
    }
}

/// A skipped turn.
proof fn lemma_skipped(s: SchedulerState, plan: PlanState, f: FoldState)
    requires
        core_inv(s),
        plan_ok(s, plan),
        plan.next < plan.entries.len(),
        midway(s, plan, f),
        s.slot(plan.entries[plan.next as int])->0.stalled,
    ensures
        ({
            let group = plan.entries[plan.next as int];
            let g = taken(
                f,
                Decision::Offered {
                    pass: plan.pass,
                    tick: clock(s),
                    group,
                    outcome: s.offer_outcome(group),
                },
            );
            &&& midway(s, PlanState { next: plan.next + 1, ..plan }, g)
            &&& g.services == f.services
            &&& same_debts(f, g)
        }),
{
    let group = plan.entries[plan.next as int];
    let tick = clock(s);
    let outcome = s.offer_outcome(group);
    let h = f.settled();
    lemma_settled_debts(f);
    lemma_reached(s, h, Seq::empty(), tick);
    lemma_entry(s, h, group);
    lemma_pending(plan, group);
    let r = h.reached(tick);
    assert(r.entry(group) == h.entry(group));
    let g = r.offered(plan.pass, tick, group, outcome);
    lemma_same_tables(s, h, s, g);
    assert(g.settled() == g);
}

/// A turn that is taken.
#[verifier::spinoff_prover]
#[verifier::rlimit(60)]
proof fn lemma_dispatched(s: SchedulerState, plan: PlanState, f: FoldState, worker: int)
    requires
        core_inv(s),
        plan_ok(s, plan),
        plan.next < plan.entries.len(),
        midway(s, plan, f),
        !s.slot(plan.entries[plan.next as int])->0.stalled,
        0 <= worker < s.workers.len(),
        s.workers[worker] is None,
        s.tick < u64::MAX,
    ensures
        ({
            let group = plan.entries[plan.next as int];
            let offered = taken(
                f,
                Decision::Offered {
                    pass: plan.pass,
                    tick: clock(s),
                    group,
                    outcome: s.offer_outcome(group),
                },
            );
            let g = all_taken(offered, services_recorded(plan.pass, s.offer_records(group)));
            &&& midway(s.offered(group, worker), PlanState { next: plan.next + 1, ..plan }, g)
            &&& g.services == f.services + s.offer_records(group)
            &&& same_debts(f, g)
        }),
{
    let group = plan.entries[plan.next as int];
    let tick = clock(s);
    let outcome = s.offer_outcome(group);
    let slot = s.slot(group)->0;
    let n = slot.turn_len();
    let h = f.settled();
    lemma_settled_debts(f);
    lemma_reached(s, h, Seq::empty(), tick);
    lemma_pending(plan, group);
    law_turn_is_taken_unless_stalled(s, plan);
    assert(owed(slot));
    let r = h.reached(tick);
    lemma_same_tables(s, h, s, r);
    lemma_ready(s, r, group);
    lemma_entry(s, r, group);
    lemma_same_len(slot.queue, r.entry(group)->0.queue);
    lemma_room(s, r, worker);
    let opening = Opening {
        pass: plan.pass,
        tick,
        group,
        owed_total: r.entry(group)->0.owed().len() as u32,
        serviced: n as u32,
        cost: slot.served_cost(n) as u64,
    };
    let offered = r.offered(plan.pass, tick, group, outcome);
    assert(offered.groups == r.groups);
    assert(slot.served(0) == slot);
    assert(s.with_slot(group, slot).slots =~= s.slots);
    lemma_same_tables(s, r, s.with_slot(group, slot.served(0)), offered);
    assert(offered.violation is None);
    assert(serving(s, offered, opening, 0));
    lemma_services(s, offered, opening, n);
    let records = s.offer_records(group);
    let g = all_taken(offered, services_recorded(plan.pass, records));
    lemma_settled_turn(s, g, opening, worker);
    assert(same_debts(f, g)) by {
        assert forall|i: int| 0 <= i < f.groups.len() implies (#[trigger] g.groups[i]).gap
            == f.groups[i].gap && g.groups[i].restored == f.groups[i].restored
            && g.groups[i].group == f.groups[i].group by {
            assert(h.groups[i].gap == f.groups[i].gap);
            assert(g.groups[i].gap == offered.groups[i].gap);
        }
    }
}

/// The turn is settled as the scheduler settled it.
#[verifier::spinoff_prover]
#[verifier::rlimit(60)]
proof fn lemma_settled_turn(s: SchedulerState, f: FoldState, opening: Opening, worker: int)
    requires
        core_inv(s),
        s.slot(opening.group) is Some,
        owed(s.slot(opening.group)->0),
        !s.slot(opening.group)->0.stalled,
        0 <= worker < s.workers.len(),
        s.workers[worker] is None,
        s.tick < u64::MAX,
        opening.tick@ == s.tick,
        paid_from(s.workers, s.tick + 1),
        ({
            let slot = s.slot(opening.group)->0;
            &&& serving(s, f, opening, slot.turn_len())
            &&& opening.serviced == slot.turn_len()
            &&& opening.cost == slot.served_cost(slot.turn_len())
        }),
    ensures
        ({
            let t = s.offered(opening.group, worker);
            let g = f.settled();
            &&& g.recording is None
            &&& g.violation is None
            &&& same_counts(t, g)
            &&& same_groups(t, g)
            &&& same_workers(t, g, Seq::empty())
            &&& paid_from(t.workers, t.tick + 1)
            &&& g.open == f.open
            &&& g.tick == f.tick
            &&& g.last_armed == f.last_armed
            &&& g.last_retired == f.last_retired
            &&& g.services == f.services
        }),
{
    let group = opening.group;
    let slot = s.slot(group)->0;
    let n = slot.turn_len();
    assert(group_ok(slot, s.config, s.next_work));
    lemma_turn_len(slot, 0, s.config, s.next_work);
    lemma_served(slot, group, n, s.config, s.next_work);
    let served = slot.served(n);
    let mid = s.with_slot(group, served);
    let t = s.offered(group, worker);
    assert(still_owed(slot, n) =~= Seq::<WorkId>::empty()) by {
        lemma_service_order(served.queue);
        assert(slot.turn_ends(n));
    }
    lemma_entry(mid, f, group);
    let entry = f.entry(group)->0;
    let due = TickIndex(saturating_sum(opening.tick@, slot.served_cost(n)));
    let closed = GroupFold {
        occupancy: Some(Occupancy { pass: opening.pass, due }),
        ..entry
    };
    let k = find_entry(f.groups, group)->0;
    let g = f.settled();
    assert(g.groups == f.groups.update(k, closed));
    assert(g.violation is None);
    let last = GroupState { servicing: true, ..served };
    assert(t.slot(group) == Some(last));
    assert forall|i: int| 0 <= i < g.groups.len() implies {
        &&& t.slot((#[trigger] g.groups[i]).group) is Some
        &&& mirrors(t.slot(g.groups[i].group)->0, g.groups[i], t.next_work as int)
        &&& g.groups[i].occupancy is Some <==> t.slot(g.groups[i].group)->0.servicing
    } by {
        assert(mid.slot(f.groups[i].group) is Some);
        assert(f.groups[i].occupancy is Some <==> mid.slot(f.groups[i].group)->0.servicing
            && !Seq::<GroupId>::empty().contains(f.groups[i].group));
        if i != k {
            assert(f.groups[i].group@ != group@);
        }
    }
    lemma_updated(f.groups, k, closed, group);
    assert forall|other: GroupId| (#[trigger] t.slot(other)) is Some implies g.entry(other) is Some by {
        assert(mid.slot(other) is Some);
        lemma_updated(f.groups, k, closed, other);
    }
    assert forall|i: int| 0 <= i < g.groups.len() implies ((#[trigger] g.groups[i]).occupancy is Some
        <==> t.slot(g.groups[i].group)->0.servicing && !Seq::<GroupId>::empty().contains(
        g.groups[i].group,
    )) by {}
    assert forall|w: int| 0 <= w < t.workers.len() && (#[trigger] t.workers[w]) is Some implies g.entry(
        t.workers[w]->0.group,
    ) is Some && g.entry(t.workers[w]->0.group)->0.occupancy is Some && g.entry(
        t.workers[w]->0.group,
    )->0.occupancy->0.due == t.workers[w]->0.busy_until by {
        let other = t.workers[w]->0.group;
        lemma_updated(f.groups, k, closed, other);
        if w == worker {
            assert(g.entry(group) == Some(closed));
        } else {
            assert(mid.workers[w] is Some);
            assert(s.slots[s.workers[w]->0.group@ as int]->0.servicing);
            assert(other != group);
            lemma_entry(mid, f, other);
        }
    }
    assert(paid_from(t.workers, t.tick + 1)) by {
        assert forall|w: int|
            0 <= w < t.workers.len() && (#[trigger] t.workers[w]) is Some implies t.workers[w]->0.busy_until@
            >= t.tick + 1 by {
            if w != worker {
                assert(s.workers[w] is Some);
            }
        }
    }
}

/// What is recorded of one more turn.
pub proof fn lemma_turns_pushed(
    pass: PassIndex,
    tick: TickIndex,
    offers: Seq<Offer>,
    serviced: Seq<ServiceRecord>,
    offer: Offer,
    records: Seq<ServiceRecord>,
)
    requires
        turn_size(offer.outcome) == records.len(),
    ensures
        turns_recorded(pass, tick, offers.push(offer), serviced + records) == turns_recorded(
            pass,
            tick,
            offers,
            serviced,
        ) + seq![
            Decision::Offered { pass, tick, group: offer.group, outcome: offer.outcome },
        ] + services_recorded(pass, records),
{
    let all = serviced + records;
    let cut = all.len() - records.len();
    assert(offers.push(offer).drop_last() =~= offers);
    assert(all.take(cut) =~= serviced);
    assert(all.skip(cut) =~= records);
}

/// One turn of a pass, recorded, keeps the scheduler and its judge in agreement.
pub proof fn lemma_turn(s: SchedulerState, plan: PlanState, f: FoldState, worker: int)
    requires
        core_inv(s),
        plan_ok(s, plan),
        plan.next < plan.entries.len(),
        midway(s, plan, f),
        0 <= worker < s.workers.len(),
        s.workers[worker] is None,
        s.tick < u64::MAX,
    ensures
        ({
            let group = plan.entries[plan.next as int];
            let outcome = s.offer_outcome(group);
            let records = s.offer_records(group);
            let g = all_taken(
                f,
                seq![
                    Decision::Offered { pass: plan.pass, tick: clock(s), group, outcome },
                ] + services_recorded(plan.pass, records),
            );
            &&& turn_size(outcome) == records.len()
            &&& midway(s.offered(group, worker), PlanState { next: plan.next + 1, ..plan }, g)
            &&& g.services == f.services + records
            &&& same_debts(f, g)
        }),
{
    let group = plan.entries[plan.next as int];
    let outcome = s.offer_outcome(group);
    let records = s.offer_records(group);
    let first = seq![
        Decision::Offered { pass: plan.pass, tick: clock(s), group, outcome },
    ];
    law_turn_is_taken_unless_stalled(s, plan);
    lemma_all_taken(f, first, services_recorded(plan.pass, records));
    assert(first.drop_last() =~= Seq::empty());
    assert(all_taken(f, first) == taken(all_taken(f, first.drop_last()), first.last()));
    assert(all_taken(f, Seq::empty()) == f);
    if s.slot(group)->0.stalled {
        lemma_skipped(s, plan, f);
        assert(services_recorded(plan.pass, records) =~= Seq::empty());
        assert(f.services + records =~= f.services);
    } else {
        lemma_dispatched(s, plan, f, worker);
    }
}

} // verus!
