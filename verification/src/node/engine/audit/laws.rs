//! What the running audit notes of each thing it observes, and what it blames.

use vstd::prelude::*;

use crate::node::engine::audit::{
    class_code, mixed, mixed_groups, mixed_items, names, skip_code, Audit, AuditState,
    DispatchedItem, ObservedCompletion, ObservedDispatch, ShadowView, SkipReason,
};
use crate::types::{GroupId, WorkClass};

verus! {

/// A group of the shadow could take a turn: it is available, nothing of it is in flight, and something
/// is queued.
pub open spec fn could_run(state: AuditState, group: u64) -> bool {
    &&& state.groups.contains_key(group)
    &&& state.groups[group].available
    &&& forall|work: u64| !#[trigger] state.groups[group].in_flight.contains(work)
    &&& exists|work: u64| #[trigger] state.groups[group].queued.contains_key(work)
}

proof fn lemma_could_run(state: AuditState, group: u64)
    ensures
        state.is_ready(group) <==> could_run(state, group),
{
    if state.groups.contains_key(group) {
        let flying = state.groups[group].in_flight;
        if forall|work: u64| !#[trigger] flying.contains(work) {
            assert(flying =~= Set::<u64>::empty());
        }
    }
}

/// A new group starts unavailable and empty, and keeps the turns it was given before. One that is there
/// already is blamed.
pub proof fn law_groups_are_registered(audit: &mut Audit, group: GroupId)
    requires
        call_ensures(Audit::register_group, (audit, group), ()),
    ensures
        ({
            let before = old(audit).state();
            let after = final(audit).state();
            let key = group@ as u64;
            &&& after.groups.contains_key(key)
            &&& !after.groups[key].available
            &&& after.groups[key].queued.dom().is_empty()
            &&& after.groups[key].in_flight.is_empty()
            &&& after.per_group.contains_key(key)
            &&& before.per_group.contains_key(key) ==> after.per_group[key] == before.per_group[key]
            &&& !before.per_group.contains_key(key) ==> after.per_group[key] == 0
            &&& after.invalid_turns == before.invalid_turns + if before.groups.contains_key(key) {
                1nat
            } else {
                0nat
            }
        }),
{
}

/// Availability is noted of the group that it is said of; nothing else of the group changes. A group
/// that is not there is blamed.
pub proof fn law_availability_is_set(audit: &mut Audit, group: GroupId, available: bool)
    requires
        call_ensures(Audit::set_available, (audit, group, available), ()),
    ensures
        ({
            let before = old(audit).state();
            let after = final(audit).state();
            let key = group@ as u64;
            let there = before.groups.contains_key(key);
            &&& there ==> after.groups[key].available == available && after.groups[key].queued
                == before.groups[key].queued && after.groups[key].in_flight
                == before.groups[key].in_flight && after.invalid_turns == before.invalid_turns
            &&& !there ==> after.groups == before.groups && after.invalid_turns
                == before.invalid_turns + 1
        }),
{
}

/// A group is removed; one that still has work, or is not there, is blamed.
pub proof fn law_groups_are_removed_empty(audit: &mut Audit, group: GroupId)
    requires
        call_ensures(Audit::remove_group, (audit, group), ()),
    ensures
        ({
            let before = old(audit).state();
            let after = final(audit).state();
            let key = group@ as u64;
            let view = before.groups[key];
            let empty = before.groups.contains_key(key) && (forall|work: u64|
                !#[trigger] view.queued.contains_key(work)) && (forall|work: u64|
                !#[trigger] view.in_flight.contains(work));
            &&& !after.groups.contains_key(key)
            &&& after.per_group == before.per_group
            &&& empty ==> after.invalid_turns == before.invalid_turns
            &&& !empty ==> after.invalid_turns == before.invalid_turns + 1
        }),
{
    let before = old(audit).state();
    let key = group@ as u64;
    let view = before.groups[key];
    if forall|work: u64| !#[trigger] view.queued.contains_key(work) {
        assert(view.queued =~= Map::<u64, WorkClass>::empty());
    }
    if forall|work: u64| !#[trigger] view.in_flight.contains(work) {
        assert(view.in_flight =~= Set::<u64>::empty());
    }
}

/// Admitted work is queued in its class; work that was there already, and work of no group, is blamed.
pub proof fn law_admissions_are_noted(audit: &mut Audit, group: GroupId, work: u64, class: WorkClass)
    requires
        call_ensures(Audit::observe_admission, (audit, group, work, class), ()),
    ensures
        ({
            let before = old(audit).state();
            let after = final(audit).state();
            let key = group@ as u64;
            let there = before.groups.contains_key(key);
            let twice = there && (before.groups[key].queued.contains_key(work)
                || before.groups[key].in_flight.contains(work));
            &&& there ==> after.groups[key].queued.contains_key(work)
                && after.groups[key].queued[work] == class && after.groups[key].in_flight
                == before.groups[key].in_flight
            &&& after.invalid_turns == before.invalid_turns + if !there || twice {
                1nat
            } else {
                0nat
            }
            &&& after.opportunities == before.opportunities
        }),
{
}

/// A plan is valid exactly when no pass is open and it names, in ascending order, the groups that could
/// run and no other. It is counted, and opens its pass with nobody served.
pub proof fn law_plans_are_noted(audit: &mut Audit, pass: u64, groups: Vec<GroupId>)
    requires
        call_ensures(Audit::observe_plan, (audit, pass, &groups), ()),
    ensures
        ({
            let before = old(audit).state();
            let after = final(audit).state();
            let valid = before.open is None && groups@.len() > 0 && (forall|i: int, j: int|
                0 <= i < j < groups@.len() ==> (#[trigger] groups@[i])@ < (#[trigger] groups@[j])@)
                && (forall|group: u64| #[trigger]
                names(groups@, group) <==> could_run(before, group));
            &&& after.plans == before.plans + 1
            &&& valid ==> after.invalid_plans == before.invalid_plans
            &&& !valid ==> after.invalid_plans == before.invalid_plans + 1
            &&& after.open matches Some(open) && open.pass_id == pass && open.dispatched == 0
                && open.skipped == 0 && open.terminal.is_empty() && forall|group: u64| #[trigger]
                open.planned.contains(group) <==> names(groups@, group)
            &&& after.groups == before.groups
            &&& after.invalid_turns == before.invalid_turns
        }),
{
    let before = old(audit).state();
    assert forall|group: u64| before.is_ready(group) <==> #[trigger] could_run(before, group) by {
        lemma_could_run(before, group);
    }
    if forall|group: u64| #[trigger] names(groups@, group) <==> could_run(before, group) {
        assert forall|group: u64| #[trigger] names(groups@, group) <==> before.is_ready(group) by {
            lemma_could_run(before, group);
        }
    }
    if forall|group: u64| #[trigger] names(groups@, group) <==> before.is_ready(group) {
        assert forall|group: u64| #[trigger] names(groups@, group) <==> could_run(before, group) by {
            lemma_could_run(before, group);
        }
    }
}

/// A skip is blamed where its reason is not the group's: unavailable before in flight before empty. The
/// opportunity is counted, and used, where the pass still owed it.
pub proof fn law_skips_are_noted(audit: &mut Audit, pass: u64, group: GroupId, reason: SkipReason)
    requires
        call_ensures(Audit::observe_skip, (audit, pass, group, reason), ()),
    ensures
        ({
            let before = old(audit).state();
            let after = final(audit).state();
            let key = group@ as u64;
            let view = before.groups[key];
            let there = before.groups.contains_key(key);
            let flying = exists|work: u64| #[trigger] view.in_flight.contains(work);
            let right = if !there || !view.available {
                reason == SkipReason::Unavailable
            } else if flying {
                reason == SkipReason::InFlight
            } else {
                reason == SkipReason::Empty
            };
            let owed = before.open is Some && before.open->0.pass_id == pass
                && before.open->0.planned.contains(key) && !before.open->0.terminal.contains(key);
            &&& after.opportunities == before.opportunities + 1
            &&& after.invalid_turns == before.invalid_turns + (if right {
                0nat
            } else {
                1nat
            }) + (if owed {
                0nat
            } else {
                1nat
            })
            &&& owed ==> (after.open matches Some(open) && open.terminal
                == before.open->0.terminal.insert(key) && open.skipped == before.open->0.skipped + 1
                && open.dispatched == before.open->0.dispatched)
            &&& !owed ==> after.open == before.open
            &&& after.groups == before.groups
        }),
{
    let before = old(audit).state();
    let key = group@ as u64;
    let view = before.groups[key];
    if !(exists|work: u64| #[trigger] view.in_flight.contains(work)) {
        assert(view.in_flight =~= Set::<u64>::empty());
    }
}

/// A dispatch of a group that could run, with its queued items in the order of their classes, in a pass
/// that still owed it, is blamed for nothing. Its items are then in flight, and the turn is the group's.
pub proof fn law_sound_dispatch_is_noted(audit: &mut Audit, dispatch: ObservedDispatch)
    requires
        call_ensures(Audit::observe_dispatch, (audit, &dispatch), ()),
        old(audit).state().groups.contains_key(dispatch.group_id@ as u64),
        old(audit).state().groups[dispatch.group_id@ as u64].available,
        old(audit).state().groups[dispatch.group_id@ as u64].in_flight.is_empty(),
        dispatch.items@.len() == 1,
        old(audit).state().groups[dispatch.group_id@ as u64].queued.contains_key(
            dispatch.items@[0].work_id,
        ),
        old(audit).state().groups[dispatch.group_id@ as u64].queued[dispatch.items@[0].work_id]
            == dispatch.items@[0].class,
        old(audit).state().open is Some,
        old(audit).state().open->0.pass_id == dispatch.pass_id,
        old(audit).state().open->0.planned.contains(dispatch.group_id@ as u64),
        !old(audit).state().open->0.terminal.contains(dispatch.group_id@ as u64),
        old(audit).state().per_group.contains_key(dispatch.group_id@ as u64),
        old(audit).state().per_group[dispatch.group_id@ as u64] < u64::MAX,
    ensures
        ({
            let before = old(audit).state();
            let after = final(audit).state();
            let key = dispatch.group_id@ as u64;
            let work = dispatch.items@[0].work_id;
            &&& after.invalid_turns == before.invalid_turns
            &&& after.opportunities == before.opportunities + 1
            &&& !after.groups[key].queued.contains_key(work)
            &&& after.groups[key].in_flight.contains(work)
            &&& after.per_group[key] == before.per_group[key] + 1
            &&& after.open matches Some(open) && open.dispatched == before.open->0.dispatched + 1
                && open.skipped == before.open->0.skipped && open.terminal.contains(key)
        }),
{
    let before = old(audit).state();
    let key = dispatch.group_id@ as u64;
    let view = before.groups[key];
    let items = dispatch.items@;
    assert(view.in_flight =~= Set::<u64>::empty());
    reveal_with_fuel(ShadowView::dispatch_all, 2);
    reveal_with_fuel(ShadowView::contradictions, 2);
    assert(items.drop_last() =~= Seq::empty());
    assert(items.last() == items[0]);
    assert(crate::node::engine::audit::classes_in_order(items));
}

/// An item of another class than it was queued in, one that was not queued, and one that is in flight
/// already contradict what is known; no other does. A contradicting item is blamed, and a known one is
/// in flight.
pub proof fn law_items_are_checked(view: ShadowView, item: DispatchedItem, before: Seq<DispatchedItem>)
    ensures
        view.contradicts(item) <==> !view.queued.contains_key(item.work_id)
            || view.queued[item.work_id] != item.class || view.in_flight.contains(item.work_id),
        !view.dispatch(item).queued.contains_key(item.work_id),
        view.queued.contains_key(item.work_id) && view.queued[item.work_id] == item.class
            ==> view.dispatch(item).in_flight == view.in_flight.insert(item.work_id),
        !(view.queued.contains_key(item.work_id) && view.queued[item.work_id] == item.class)
            ==> view.dispatch(item).in_flight == view.in_flight,
        view.contradictions(before.push(item)) == view.contradictions(before) + if view.dispatch_all(
            before,
        ).contradicts(item) {
            1nat
        } else {
            0nat
        },
        view.dispatch_all(before.push(item)) == view.dispatch_all(before).dispatch(item),
{
    assert(before.push(item).drop_last() =~= before);
}

/// Ended work is in flight no more; poison makes the group unavailable. Work that was not in flight is
/// blamed.
pub proof fn law_completed_dispatch_is_noted(
    audit: &mut Audit,
    group: GroupId,
    work: Vec<u64>,
    poisoned: bool,
)
    requires
        call_ensures(Audit::observe_dispatch_completion, (audit, group, &work, poisoned), ()),
        work@.len() == 1,
        old(audit).state().groups.contains_key(group@ as u64),
    ensures
        ({
            let before = old(audit).state().groups[group@ as u64];
            let after = final(audit).state().groups[group@ as u64];
            &&& after.in_flight == before.in_flight.remove(work@[0])
            &&& after.queued == before.queued
            &&& poisoned ==> !after.available
            &&& !poisoned ==> after.available == before.available
            &&& final(audit).state().invalid_turns == old(audit).state().invalid_turns
                + if before.in_flight.contains(work@[0]) {
                0nat
            } else {
                1nat
            }
        }),
{
    reveal_with_fuel(ShadowView::end_all, 2);
    reveal_with_fuel(ShadowView::not_in_flight, 2);
    assert(work@.drop_last() =~= Seq::empty());
    assert(work@.last() == work@[0]);
}

/// Failed work is queued no more; work that was not queued is blamed.
pub proof fn law_failed_work_is_noted(audit: &mut Audit, group: GroupId, work: Vec<u64>)
    requires
        call_ensures(Audit::observe_failed_queued, (audit, group, &work), ()),
        work@.len() == 1,
        old(audit).state().groups.contains_key(group@ as u64),
    ensures
        ({
            let before = old(audit).state().groups[group@ as u64];
            let after = final(audit).state().groups[group@ as u64];
            &&& after.queued == before.queued.remove(work@[0])
            &&& after.in_flight == before.in_flight
            &&& after.available == before.available
            &&& final(audit).state().invalid_turns == old(audit).state().invalid_turns
                + if before.queued.contains_key(work@[0]) {
                0nat
            } else {
                1nat
            }
        }),
{
    reveal_with_fuel(ShadowView::fail_all, 2);
    reveal_with_fuel(ShadowView::not_waiting, 2);
    assert(work@.drop_last() =~= Seq::empty());
    assert(work@.last() == work@[0]);
}

/// A pass is certified exactly when it is the open one, every group of its plan used its opportunity,
/// and the host counted the same; any other completion is an invalid plan. No pass is open afterwards.
pub proof fn law_completions_are_certified(audit: &mut Audit, completion: ObservedCompletion)
    requires
        call_ensures(Audit::observe_completion, (audit, completion), ()),
    ensures
        ({
            let before = old(audit).state();
            let after = final(audit).state();
            let open = before.open->0;
            let sound = before.open is Some && open.pass_id == completion.pass_id
                && open.planned.len() == completion.planned && (forall|group: u64| #[trigger]
                open.terminal.contains(group) <==> open.planned.contains(group)) && open.dispatched
                == completion.dispatched && open.skipped == completion.skipped && completion.planned
                == completion.dispatched + completion.skipped;
            &&& after.passes_completed == before.passes_completed + 1
            &&& after.open is None
            &&& sound ==> after.certified_passes == before.certified_passes + 1
                && after.invalid_plans == before.invalid_plans
            &&& !sound ==> after.certified_passes == before.certified_passes && after.invalid_plans
                == before.invalid_plans + 1
        }),
{
    let open = old(audit).state().open->0;
    if forall|group: u64| #[trigger]
        open.terminal.contains(group) <==> open.planned.contains(group) {
        assert(open.terminal =~= open.planned);
    }
}

/// Coverage is the number of groups that had a turn, and the gap is that between the most and the
/// fewest turns of a group that had one.
pub proof fn law_fairness_spans_the_groups(audit: Audit, r: (usize, u64), a: u64, b: u64)
    requires
        call_ensures(Audit::fairness, (&audit,), r),
        audit.state().per_group.contains_key(a),
        audit.state().per_group[a] != 0,
        audit.state().per_group.contains_key(b),
        audit.state().per_group[b] != 0,
    ensures
        audit.state().per_group[a] - audit.state().per_group[b] <= r.1,
        exists|c: u64, d: u64|
            #![trigger audit.state().per_group[c], audit.state().per_group[d]]
            audit.state().per_group.contains_key(c) && audit.state().per_group.contains_key(d)
                && audit.state().per_group[c] != 0 && audit.state().per_group[d] != 0
                && audit.state().per_group[c] - audit.state().per_group[d] == r.1,
        r.0 == Set::new(
            |group: u64|
                audit.state().per_group.contains_key(group) && audit.state().per_group[group] != 0,
        ).len(),
{
    let s = audit.state();
    assert(s.covered().contains(a));
    assert(s.covered() != Set::<u64>::empty());
    let (most, least) = choose|most: u64, least: u64| #[trigger]
        s.spans(most, least) && r.1 == s.per_group[most] - s.per_group[least];
    assert(s.spans(most, least));
    assert(s.covered().contains(b));
    assert(s.per_group[most] - s.per_group[least] == r.1);
}

/// A digest takes in one number after the other, each mixed in before the whole is multiplied.
pub proof fn law_digests_take_in_numbers(
    digest: u64,
    value: u64,
    groups: Seq<GroupId>,
    group: GroupId,
    items: Seq<DispatchedItem>,
    item: DispatchedItem,
)
    ensures
        mixed(digest, value) as int == ((digest ^ value) * 0x0000_0100_0000_01b3)
            % 0x1_0000_0000_0000_0000,
        mixed_groups(digest, Seq::empty()) == digest,
        mixed_groups(digest, groups.push(group)) == mixed(
            mixed_groups(digest, groups),
            group@ as u64,
        ),
        mixed_items(digest, Seq::empty()) == digest,
        mixed_items(digest, items.push(item)) == mixed(
            mixed(mixed_items(digest, items), item.work_id),
            class_code(item.class),
        ),
        class_code(WorkClass::Control) == 1 && class_code(WorkClass::Command) == 2 && class_code(
            WorkClass::Snapshot,
        ) == 3 && class_code(WorkClass::Bulk) == 4,
        skip_code(SkipReason::Unavailable) == 11 && skip_code(SkipReason::InFlight) == 12
            && skip_code(SkipReason::Empty) == 13,
{
    assert(groups.push(group).drop_last() =~= groups);
    assert(items.push(item).drop_last() =~= items);
}

} // verus!
