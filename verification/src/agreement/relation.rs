//! When a state of the scheduler and a fold of the judge say the same.

use vstd::prelude::*;

use crate::model::state::{ClassQueues, Dispatch, GroupState, PlanState, QueuedWork, SchedulerState};
use crate::oracle::fold::{
    by_priority, find_entry, find_item, is_entry, is_item, lemma_entry_found, lemma_item_found,
    of_class, FoldState, GroupFold, OpenPass,
};
use crate::oracle::sound::{lemma_entry_at, lemma_some_entry};
use crate::types::{GroupId, WorkClass};

verus! {

/// The items of a flat queue stand in the queues of their classes.
pub open spec fn same_queue(queue: ClassQueues, flat: Seq<QueuedWork>) -> bool {
    &&& of_class(flat, WorkClass::Control) == queue.control
    &&& of_class(flat, WorkClass::Command) == queue.command
    &&& of_class(flat, WorkClass::Snapshot) == queue.snapshot
    &&& of_class(flat, WorkClass::Bulk) == queue.bulk
}

/// Items in the order they were issued, all before `next_work`.
pub open(crate) spec fn issued(flat: Seq<QueuedWork>, next_work: int) -> bool {
    &&& forall|i: int| 0 <= i < flat.len() ==> (#[trigger] flat[i]).id@ < next_work
    &&& forall|i: int, j: int| 0 <= i < j < flat.len() ==> flat[i].id@ < flat[j].id@
}

/// A slot and an entry say the same of a group, but for the worker it holds.
pub open(crate) spec fn mirrors(slot: GroupState, entry: GroupFold, next_work: int) -> bool {
    &&& entry.incarnation == slot.incarnation
    &&& entry.state == slot.state
    &&& entry.poisoned == slot.poisoned
    &&& entry.stalled == slot.stalled
    &&& entry.counter == slot.counter
    &&& entry.quota == slot.quota
    &&& entry.sessions == slot.sessions
    &&& same_queue(slot.queue, entry.queue)
    &&& issued(entry.queue, next_work)
}

/// The entries stand in ascending order.
pub open spec fn ascending(groups: Seq<GroupFold>) -> bool {
    forall|i: int, j: int| 0 <= i < j < groups.len() ==> groups[i].group@ < groups[j].group@
}

/// Every created slot has its entry, and says the same.
pub open(crate) spec fn same_groups(s: SchedulerState, f: FoldState) -> bool {
    &&& ascending(f.groups)
    &&& forall|i: int|
        0 <= i < f.groups.len() ==> {
            &&& s.slot((#[trigger] f.groups[i]).group) is Some
            &&& mirrors(s.slot(f.groups[i].group)->0, f.groups[i], s.next_work as int)
        }
    &&& forall|group: GroupId| (#[trigger] s.slot(group)) is Some ==> f.entry(group) is Some
}

/// Every held worker is an occupancy with its deadline, but for those of the groups in `freed`.
pub open(crate) spec fn same_workers(s: SchedulerState, f: FoldState, freed: Seq<GroupId>) -> bool {
    &&& forall|i: int|
        0 <= i < f.groups.len() ==> ((#[trigger] f.groups[i]).occupancy is Some <==> s.slot(
            f.groups[i].group,
        )->0.servicing && !freed.contains(f.groups[i].group))
    &&& forall|w: int|
        0 <= w < s.workers.len() && (#[trigger] s.workers[w]) is Some && !freed.contains(
            s.workers[w]->0.group,
        ) ==> f.entry(s.workers[w]->0.group) is Some && f.entry(
            s.workers[w]->0.group,
        )->0.occupancy is Some && f.entry(s.workers[w]->0.group)->0.occupancy->0.due
            == s.workers[w]->0.busy_until
}

/// The counts are the same.
pub open(crate) spec fn same_counts(s: SchedulerState, f: FoldState) -> bool {
    &&& f.config == s.config
    &&& f.next_work == s.next_work
    &&& f.admitted == s.admitted
    &&& f.serviced == s.serviced
    &&& f.failed == s.failed
    &&& f.queued == s.queued
    &&& f.next_pass == s.next_pass
}

/// The pass in progress is the same, and has come as far.
pub open spec fn same_pass(plan: Option<PlanState>, open: Option<OpenPass>) -> bool {
    match plan {
        Some(plan) => {
            &&& open is Some
            &&& open->0.pass == plan.pass
            &&& open->0.pending == plan.entries.skip(plan.next as int)
            &&& open->0.offered == plan.entries.take(plan.next as int)
        },
        None => open is None,
    }
}

/// No boundary of a pass was reached after `tick`.
pub open(crate) spec fn bounded(f: FoldState, tick: int) -> bool {
    &&& f.last_armed is Some ==> f.last_armed->0@ <= tick
    &&& f.last_retired is Some ==> f.last_retired->0@ <= tick
}

/// Every held worker is paid at `tick` or later.
pub open(crate) spec fn paid_from(workers: Seq<Option<Dispatch>>, tick: int) -> bool {
    forall|w: int|
        0 <= w < workers.len() && (#[trigger] workers[w]) is Some ==> workers[w]->0.busy_until@
            >= tick
}

/// A settled fold says the same as the scheduler between two calls.
pub open(crate) spec fn settled_agree(s: SchedulerState, f: FoldState) -> bool {
    &&& f.recording is None
    &&& same_counts(s, f)
    &&& same_groups(s, f)
    &&& same_workers(s, f, Seq::empty())
    &&& same_pass(s.plan, f.open)
    &&& f.tick <= s.tick
    &&& bounded(f, s.tick as int)
    &&& paid_from(s.workers, s.tick + 1)
}

/// The scheduler and the fold agree: once the turn that is still being recorded is settled, bounds,
/// counts, the pass in progress and the held workers are the same, and so are, group by group, the
/// fields and the order of service; and no check has failed.
pub open(crate) spec fn agree(s: SchedulerState, f: FoldState) -> bool {
    &&& settled_agree(s, f.settled())
    &&& f.settled().violation is None
}

// --------------------------------------------------------------------- tables

/// An entry of an ascending table is found where it stands.
pub proof fn lemma_found(groups: Seq<GroupFold>, i: int)
    requires
        ascending(groups),
        0 <= i < groups.len(),
    ensures
        find_entry(groups, groups[i].group) == Some(i),
{
    assert(is_entry(groups, groups[i].group, i));
    lemma_entry_found(groups, groups[i].group, i);
}

/// The entry of a created slot, and where it stands.
pub proof fn lemma_entry(s: SchedulerState, f: FoldState, group: GroupId)
    requires
        same_groups(s, f),
    ensures
        f.entry(group) is Some <==> s.slot(group) is Some,
        f.entry(group) is Some ==> {
            let i = find_entry(f.groups, group)->0;
            &&& 0 <= i < f.groups.len()
            &&& f.groups[i].group == group
            &&& f.entry(group) == Some(f.groups[i])
            &&& mirrors(s.slot(group)->0, f.entry(group)->0, s.next_work as int)
        },
{
    if f.entry(group) is Some {
        lemma_entry_at(f.groups, group);
    }
}

/// A group that is in the table after one of its entries was replaced by one of the same group was
/// there before, and is found at the same place.
pub proof fn lemma_updated(groups: Seq<GroupFold>, k: int, entry: GroupFold, group: GroupId)
    requires
        ascending(groups),
        0 <= k < groups.len(),
        entry.group == groups[k].group,
    ensures
        ascending(groups.update(k, entry)),
        find_entry(groups.update(k, entry), group) == find_entry(groups, group),
{
    let next = groups.update(k, entry);
    if find_entry(groups, group) is Some {
        lemma_entry_at(groups, group);
        lemma_found(next, find_entry(groups, group)->0);
    } else if find_entry(next, group) is Some {
        lemma_entry_at(next, group);
        let i = find_entry(next, group)->0;
        lemma_some_entry(groups, group, i);
    }
}

/// Replacing a slot and its entry by ones that say the same keeps the agreement of all of them.
pub proof fn lemma_replaced(
    s: SchedulerState,
    f: FoldState,
    group: GroupId,
    slot: GroupState,
    entry: GroupFold,
    freed: Seq<GroupId>,
)
    requires
        same_groups(s, f),
        same_workers(s, f, freed),
        s.slot(group) is Some,
        entry.group == group,
        mirrors(slot, entry, s.next_work as int),
        slot.servicing == s.slot(group)->0.servicing,
        entry.occupancy == f.entry(group)->0.occupancy,
    ensures
        same_groups(s.with_slot(group, slot), f.with_entry(group, entry)),
        same_workers(s.with_slot(group, slot), f.with_entry(group, entry), freed),
        f.with_entry(group, entry).groups.len() == f.groups.len(),
{
    lemma_entry(s, f, group);
    let k = find_entry(f.groups, group)->0;
    let t = s.with_slot(group, slot);
    let g = f.with_entry(group, entry);
    assert(g.groups == f.groups.update(k, entry));
    lemma_updated(f.groups, k, entry, group);
    assert forall|i: int| 0 <= i < g.groups.len() implies {
        &&& t.slot((#[trigger] g.groups[i]).group) is Some
        &&& mirrors(t.slot(g.groups[i].group)->0, g.groups[i], t.next_work as int)
    } by {
        assert(s.slot(f.groups[i].group) is Some);
        if i != k {
            assert(f.groups[i].group@ != group@);
        }
    }
    assert forall|other: GroupId| (#[trigger] t.slot(other)) is Some implies g.entry(other) is Some by {
        assert(s.slot(other) is Some);
        lemma_updated(f.groups, k, entry, other);
    }
    assert forall|i: int| 0 <= i < g.groups.len() implies ((#[trigger] g.groups[i]).occupancy is Some
        <==> t.slot(g.groups[i].group)->0.servicing && !freed.contains(g.groups[i].group)) by {
        assert(f.groups[i].occupancy is Some <==> s.slot(f.groups[i].group)->0.servicing
            && !freed.contains(f.groups[i].group));
        if i != k {
            assert(f.groups[i].group@ != group@);
        }
    }
    assert forall|w: int|
        0 <= w < t.workers.len() && (#[trigger] t.workers[w]) is Some && !freed.contains(
            t.workers[w]->0.group,
        ) implies g.entry(t.workers[w]->0.group) is Some && g.entry(
        t.workers[w]->0.group,
    )->0.occupancy is Some && g.entry(t.workers[w]->0.group)->0.occupancy->0.due
        == t.workers[w]->0.busy_until by {
        let other = s.workers[w]->0.group;
        lemma_updated(f.groups, k, entry, other);
        lemma_entry(s, f, other);
    }
}

// --------------------------------------------------------------------- queues

/// Queues that hold the same hold equally many.
pub proof fn lemma_same_len(queue: ClassQueues, flat: Seq<QueuedWork>)
    requires
        same_queue(queue, flat),
    ensures
        flat.len() == queue.len(),
        by_priority(flat) == queue.service_order(),
{
    lemma_class_lens(flat);
}

/// Every item is of exactly one class.
proof fn lemma_class_lens(flat: Seq<QueuedWork>)
    ensures
        of_class(flat, WorkClass::Control).len() + of_class(flat, WorkClass::Command).len()
            + of_class(flat, WorkClass::Snapshot).len() + of_class(flat, WorkClass::Bulk).len()
            == flat.len(),
    decreases flat.len(),
{
    reveal(Seq::filter);
    if flat.len() > 0 {
        lemma_class_lens(flat.drop_last());
    }
}

/// No items are none of any class.
pub proof fn lemma_same_empty()
    ensures
        same_queue(ClassQueues::empty(), Seq::empty()),
{
    reveal(Seq::filter);
}

/// Appending the same item keeps queues the same.
pub proof fn lemma_same_push(queue: ClassQueues, flat: Seq<QueuedWork>, item: QueuedWork)
    requires
        same_queue(queue, flat),
    ensures
        same_queue(queue.push(item), flat.push(item)),
{
    reveal(Seq::filter);
    assert(flat.push(item).drop_last() =~= flat);
}

/// The item serviced next stands in the flat queue, and taking it out keeps queues the same.
pub proof fn lemma_same_pop(queue: ClassQueues, flat: Seq<QueuedWork>, next_work: int)
    requires
        same_queue(queue, flat),
        issued(flat, next_work),
        queue.len() > 0,
    ensures
        find_item(flat, queue.head().id) is Some,
        ({
            let i = find_item(flat, queue.head().id)->0;
            &&& 0 <= i < flat.len()
            &&& flat[i] == queue.head()
            &&& same_queue(queue.pop(), flat.remove(i))
            &&& issued(flat.remove(i), next_work)
        }),
{
    let class = if queue.control.len() > 0 {
        WorkClass::Control
    } else if queue.command.len() > 0 {
        WorkClass::Command
    } else if queue.snapshot.len() > 0 {
        WorkClass::Snapshot
    } else {
        WorkClass::Bulk
    };
    let head = queue.head();
    let own = of_class(flat, class);
    assert(own[0] == head);
    let pred = |item: QueuedWork| item.work.class() == class;
    flat.lemma_filter_contains_rev(pred, head);
    assert(flat.contains(head));
    let i = choose|i: int| 0 <= i < flat.len() && flat[i] == head;
    assert(is_item(flat, head.id, i)) by {
        assert forall|j: int| 0 <= j < i implies flat[j].id != head.id by {
            assert(flat[j].id@ < flat[i].id@);
        }
    }
    lemma_item_found(flat, head.id, i);
    flat.lemma_filter_pred(pred, 0);
    assert(head.work.class() == class);
    lemma_class_removed(flat, i, WorkClass::Control, next_work);
    lemma_class_removed(flat, i, WorkClass::Command, next_work);
    lemma_class_removed(flat, i, WorkClass::Snapshot, next_work);
    lemma_class_removed(flat, i, WorkClass::Bulk, next_work);
}

/// What taking out the oldest item of its class leaves of each class.
proof fn lemma_class_removed(flat: Seq<QueuedWork>, i: int, class: WorkClass, next_work: int)
    requires
        issued(flat, next_work),
        0 <= i < flat.len(),
        of_class(flat, flat[i].work.class()).len() > 0,
        of_class(flat, flat[i].work.class())[0] == flat[i],
    ensures
        of_class(flat.remove(i), class) == if flat[i].work.class() == class {
            of_class(flat, class).drop_first()
        } else {
            of_class(flat, class)
        },
{
    let pred = |item: QueuedWork| item.work.class() == class;
    let before = flat.take(i);
    let own = seq![flat[i]];
    let after = flat.skip(i + 1);
    assert(flat =~= before + own + after);
    assert(flat.remove(i) =~= before + after);
    Seq::filter_distributes_over_add(before, own, pred);
    Seq::filter_distributes_over_add(before + own, after, pred);
    Seq::filter_distributes_over_add(before, after, pred);
    assert(own.filter(pred) == if pred(flat[i]) {
        own
    } else {
        Seq::empty()
    }) by {
        reveal_with_fuel(Seq::filter, 2);
        assert(own.drop_last() =~= Seq::empty());
        if pred(flat[i]) {
            assert(Seq::<QueuedWork>::empty().push(flat[i]) =~= own);
        }
    }
    if flat[i].work.class() == class {
        let prefix = before.filter(pred);
        if prefix.len() > 0 {
            assert(of_class(flat, class)[0] == prefix[0]);
            before.lemma_filter_contains_rev(pred, prefix[0]);
            let j = choose|j: int| 0 <= j < before.len() && before[j] == prefix[0];
            assert(flat[j].id@ < flat[i].id@);
            assert(false);
        }
        assert(prefix =~= Seq::empty());
        assert(of_class(flat, class) =~= own + after.filter(pred));
        assert(of_class(flat, class).drop_first() =~= after.filter(pred));
        assert(of_class(flat.remove(i), class) =~= after.filter(pred));
    } else {
        assert(of_class(flat.remove(i), class) =~= of_class(flat, class));
    }
}

} // verus!
