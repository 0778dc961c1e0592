//! What a profile plans, what its run goes through, and what an accepted mixed run has shown.

use vstd::prelude::*;

use crate::adapter::audit::{expected_for, ExpectedWork};
use crate::adapter::cluster::{DriveReport, DriveTurn, DrivenItem};
use crate::profile::mixed::{
    audit_mixed, belongs, groups_missing, is_ready, is_ready_plan, items_observed, planned_at,
    turns_observed, MixedAudit, MixedFault,
};
use crate::types::GroupId;

verus! {

// ------------------------------------------------------------------ mixed run

/// The work stands in a turn, as this item.
pub open spec fn runs_as(turns: Seq<DriveTurn>, n: int, k: int, i: int, work: u64) -> bool {
    &&& 0 <= k < n
    &&& 0 <= i < turns[k].items@.len()
    &&& turns[k].items@[i].work_id == work
}

/// The work was accepted.
pub open spec fn was_accepted(accepted: Seq<ExpectedWork>, work: u64) -> bool {
    exists|e: int| 0 <= e < accepted.len() && (#[trigger] accepted[e]).work_id == work
}

/// The item ran where its work was accepted for.
pub open spec fn ran_in_place(
    accepted: Seq<ExpectedWork>,
    group: GroupId,
    item: DrivenItem,
) -> bool {
    exists|e: int|
        0 <= e < accepted.len() && (#[trigger] accepted[e]).work_id == item.work_id
            && accepted[e].group_id == group && accepted[e].class == item.class
}

proof fn lemma_expected_one(accepted: Seq<ExpectedWork>, n: int, work: u64)
    requires
        0 <= n <= accepted.len(),
    ensures
        match expected_for(accepted, n, work) {
            Some(found) => exists|e: int|
                0 <= e < n && (#[trigger] accepted[e]) == found && found.work_id == work,
            None => forall|e: int| 0 <= e < n ==> (#[trigger] accepted[e]).work_id != work,
        },
    decreases n,
{
    if n > 0 {
        if accepted[n - 1].work_id == work {
            assert(accepted[n - 1] == expected_for(accepted, n, work)->0);
        } else {
            lemma_expected_one(accepted, n - 1, work);
        }
    }
}

/// What the items of one turn add to what was observed.
pub open spec fn items_shown(
    accepted: Seq<ExpectedWork>,
    group: GroupId,
    items: Seq<DrivenItem>,
    before: Set<u64>,
    after: Set<u64>,
    n: int,
) -> bool {
    &&& forall|work: u64| #[trigger]
        after.contains(work) <==> before.contains(work) || (was_accepted(accepted, work) && exists|
            i: int,
        |
            0 <= i < n && (#[trigger] items[i]).work_id == work)
    &&& forall|i: int|
        0 <= i < n && was_accepted(accepted, (#[trigger] items[i]).work_id) ==> ran_in_place(
            accepted,
            group,
            items[i],
        ) && !before.contains(items[i].work_id)
    &&& forall|i: int, j: int|
        0 <= i < j < n && was_accepted(accepted, (#[trigger] items[i]).work_id)
            ==> items[i].work_id != (#[trigger] items[j]).work_id
}

proof fn lemma_items_shown(
    accepted: Seq<ExpectedWork>,
    group: GroupId,
    items: Seq<DrivenItem>,
    observed: Set<u64>,
    n: int,
)
    requires
        0 <= n <= items.len(),
        items_observed(accepted, group, items, observed, n) is Ok,
    ensures
        items_shown(
            accepted,
            group,
            items,
            observed,
            items_observed(accepted, group, items, observed, n)->Ok_0,
            n,
        ),
    decreases n,
{
    if n > 0 {
        lemma_items_shown(accepted, group, items, observed, n - 1);
        let before = items_observed(accepted, group, items, observed, n - 1)->Ok_0;
        let after = items_observed(accepted, group, items, observed, n)->Ok_0;
        let item = items[n - 1];
        let found = expected_for(accepted, accepted.len() as int, item.work_id);
        lemma_expected_one(accepted, accepted.len() as int, item.work_id);
        assert(found is Some <==> was_accepted(accepted, item.work_id));
        if found is Some {
            let e = choose|e: int|
                0 <= e < accepted.len() && (#[trigger] accepted[e]) == found->0
                    && found->0.work_id == item.work_id;
            assert(accepted[e].work_id == item.work_id);
            assert(ran_in_place(accepted, group, item));
            assert(after == before.insert(item.work_id));
            assert(!before.contains(item.work_id));
        } else {
            assert(after == before);
        }
        assert forall|work: u64| #[trigger] after.contains(work) <==> observed.contains(work) || (
        was_accepted(accepted, work) && exists|i: int|
            0 <= i < n && (#[trigger] items[i]).work_id == work) by {
            if after.contains(work) && !before.contains(work) {
                assert(items[n - 1].work_id == work);
            }
            if before.contains(work) && !observed.contains(work) {
                let i = choose|i: int| 0 <= i < n - 1 && (#[trigger] items[i]).work_id == work;
                assert(items[i].work_id == work);
            }
            if was_accepted(accepted, work) && exists|i: int|
                0 <= i < n && (#[trigger] items[i]).work_id == work {
                let i = choose|i: int| 0 <= i < n && (#[trigger] items[i]).work_id == work;
                if i < n - 1 {
                    assert(items[i].work_id == work);
                    assert(before.contains(work));
                }
            }
        }
        assert forall|i: int, j: int|
            0 <= i < j < n && was_accepted(
                accepted,
                (#[trigger] items[i]).work_id,
            ) implies items[i].work_id != (#[trigger] items[j]).work_id by {
            if j == n - 1 && items[i].work_id == item.work_id {
                assert(before.contains(items[i].work_id));
            }
        }
    }
}

/// What the first `n` turns have shown.
pub open spec fn turns_shown(
    accepted: Seq<ExpectedWork>,
    turns: Seq<DriveTurn>,
    n: int,
    opportunities: Set<u64>,
    observed: Set<u64>,
) -> bool {
    &&& forall|k: int|
        0 <= k < n && turns[k].pass_id == turns[0].pass_id ==> opportunities.contains(
            (#[trigger] turns[k]).group_id@ as u64,
        )
    &&& forall|group: u64| #[trigger]
        opportunities.contains(group) ==> exists|k: int|
            0 <= k < n && turns[k].pass_id == turns[0].pass_id && (
            #[trigger] turns[k]).group_id@ == group
    &&& forall|k: int, l: int|
        0 <= k < l < n && turns[k].pass_id == turns[0].pass_id && turns[l].pass_id
            == turns[0].pass_id ==> (#[trigger] turns[k]).group_id != (#[trigger] turns[l]).group_id
    &&& forall|work: u64| #[trigger]
        observed.contains(work) ==> was_accepted(accepted, work) && exists|k: int, i: int|
            runs_as(turns, n, k, i, work)
    &&& forall|k: int, i: int, work: u64| #[trigger]
        runs_as(turns, n, k, i, work) && was_accepted(accepted, work) ==> observed.contains(work)
            && ran_in_place(accepted, turns[k].group_id, turns[k].items@[i])
    &&& forall|k: int, i: int, j: int|
        0 <= k < n && 0 <= i < j < turns[k].items@.len() ==> (
        #[trigger] turns[k].items@[i]).class.rank() <= (#[trigger] turns[k].items@[j]).class.rank()
    &&& forall|k: int, i: int, l: int, j: int, work: u64|
        #[trigger] runs_as(turns, n, k, i, work) && #[trigger] runs_as(turns, n, l, j, work)
            && was_accepted(accepted, work) ==> k == l && i == j
}

#[verifier::spinoff_prover]
#[verifier::rlimit(60)]
proof fn lemma_turns_shown(accepted: Seq<ExpectedWork>, turns: Seq<DriveTurn>, n: int)
    requires
        0 <= n <= turns.len(),
        turns_observed(accepted, turns, n) is Ok,
    ensures
        turns_shown(
            accepted,
            turns,
            n,
            turns_observed(accepted, turns, n)->Ok_0.opportunities,
            turns_observed(accepted, turns, n)->Ok_0.observed,
        ),
    decreases n,
{
    if n > 0 {
        let m = n - 1;
        lemma_turns_shown(accepted, turns, m);
        let before = turns_observed(accepted, turns, m)->Ok_0;
        let after = turns_observed(accepted, turns, n)->Ok_0;
        let turn = turns[m];
        let items = turn.items@;
        lemma_items_shown(accepted, turn.group_id, items, before.observed, items.len() as int);
        assert forall|k: int, i: int, work: u64| k < m implies runs_as(turns, m, k, i, work)
            == #[trigger] runs_as(turns, n, k, i, work) by {}
        assert forall|k: int, l: int|
            0 <= k < l < n && turns[k].pass_id == turns[0].pass_id && turns[l].pass_id
                == turns[0].pass_id implies (#[trigger] turns[k]).group_id != (
        #[trigger] turns[l]).group_id by {
            if l == m {
                assert(before.opportunities.contains(turns[k].group_id@ as u64));
                assert(!before.opportunities.contains(turn.group_id@ as u64));
            }
        }
        assert forall|group: u64| #[trigger] after.opportunities.contains(group) implies exists|
            k: int,
        |
            0 <= k < n && turns[k].pass_id == turns[0].pass_id && (
            #[trigger] turns[k]).group_id@ == group by {
            if before.opportunities.contains(group) {
                let k = choose|k: int|
                    0 <= k < m && turns[k].pass_id == turns[0].pass_id && (
                    #[trigger] turns[k]).group_id@ == group;
                assert(turns[k].group_id@ == group);
            } else {
                assert(turns[m].group_id@ == group);
            }
        }
        assert forall|work: u64| #[trigger] after.observed.contains(work) implies was_accepted(
            accepted,
            work,
        ) && exists|k: int, i: int| runs_as(turns, n, k, i, work) by {
            if before.observed.contains(work) {
                let (k, i) = choose|k: int, i: int| runs_as(turns, m, k, i, work);
                assert(runs_as(turns, n, k, i, work));
            } else {
                let i = choose|i: int| 0 <= i < items.len() && (#[trigger] items[i]).work_id == work;
                assert(runs_as(turns, n, m, i, work));
            }
        }
        assert forall|k: int, i: int, work: u64| #[trigger]
            runs_as(turns, n, k, i, work) && was_accepted(
                accepted,
                work,
            ) implies after.observed.contains(work) && ran_in_place(
            accepted,
            turns[k].group_id,
            turns[k].items@[i],
        ) by {
            if k == m {
                assert(items[i].work_id == work);
            } else {
                assert(runs_as(turns, m, k, i, work));
                assert(before.observed.contains(work));
            }
        }
        assert forall|k: int, i: int, l: int, j: int, work: u64|
            #[trigger] runs_as(turns, n, k, i, work) && #[trigger] runs_as(turns, n, l, j, work)
                && was_accepted(accepted, work) implies k == l && i == j by {
            if k == m && l == m {
                if i < j {
                    assert(items[i].work_id != items[j].work_id);
                }
                if j < i {
                    assert(items[j].work_id != items[i].work_id);
                }
            } else if k == m {
                assert(runs_as(turns, m, l, j, work));
                assert(before.observed.contains(work));
                assert(items[i].work_id == work);
            } else if l == m {
                assert(runs_as(turns, m, k, i, work));
                assert(before.observed.contains(work));
                assert(items[j].work_id == work);
            } else {
                assert(runs_as(turns, m, k, i, work));
                assert(runs_as(turns, m, l, j, work));
            }
        }
    }
}

proof fn lemma_all_observed(accepted: Seq<ExpectedWork>, observed: Set<u64>, e: int)
    requires
        0 <= e < accepted.len(),
        observed.finite(),
        observed.len() == accepted.len(),
        forall|work: u64| #[trigger] observed.contains(work) ==> was_accepted(accepted, work),
    ensures
        observed.contains(accepted[e].work_id),
{
    let ids = Seq::new(accepted.len(), |i: int| accepted[i].work_id);
    let all = ids.to_set();
    assert(ids[e] == accepted[e].work_id);
    assert(all.contains(ids[e]));
    ids.lemma_cardinality_of_set();
    vstd::seq_lib::seq_to_set_is_finite(ids);
    assert forall|work: u64| #[trigger] observed.contains(work) implies all.contains(work) by {
        let i = choose|i: int| 0 <= i < accepted.len() && (#[trigger] accepted[i]).work_id == work;
        assert(ids[i] == work);
    }
    vstd::set_lib::lemma_len_subset(observed, all);
    vstd::set_lib::lemma_subset_equality(observed, all);
}

proof fn lemma_none_missing(plan: Seq<GroupId>, opportunities: Set<u64>, n: int, i: int)
    requires
        0 <= i < n <= plan.len(),
        groups_missing(plan, opportunities, n) == 0,
    ensures
        opportunities.contains(plan[i]@ as u64),
    decreases n,
{
    if i < n - 1 {
        lemma_none_missing(plan, opportunities, n - 1, i);
    }
}

proof fn lemma_observed_finite(accepted: Seq<ExpectedWork>, turns: Seq<DriveTurn>, n: int)
    requires
        0 <= n <= turns.len(),
        turns_observed(accepted, turns, n) is Ok,
    ensures
        turns_observed(accepted, turns, n)->Ok_0.observed.finite(),
    decreases n,
{
    if n > 0 {
        lemma_observed_finite(accepted, turns, n - 1);
        let before = turns_observed(accepted, turns, n - 1)->Ok_0;
        let turn = turns[n - 1];
        lemma_items_finite(
            accepted,
            turn.group_id,
            turn.items@,
            before.observed,
            turn.items@.len() as int,
        );
    }
}

proof fn lemma_items_finite(
    accepted: Seq<ExpectedWork>,
    group: GroupId,
    items: Seq<DrivenItem>,
    observed: Set<u64>,
    n: int,
)
    requires
        observed.finite(),
        items_observed(accepted, group, items, observed, n) is Ok,
    ensures
        items_observed(accepted, group, items, observed, n)->Ok_0.finite(),
    decreases n,
{
    if n > 0 {
        lemma_items_finite(accepted, group, items, observed, n - 1);
    }
}

/// An accepted mixed run has shown, by its own report: the first plan holds, in ascending order, exactly
/// the groups that had accepted work; each of them had a turn in the first pass, and none had two; the
/// items of every turn come with the more urgent classes first; and every accepted work item ran, once,
/// in its own group and class.
pub proof fn law_mixed_runs_are_sound(
    accepted: Vec<ExpectedWork>,
    report: DriveReport,
    r: Result<MixedAudit, MixedFault>,
)
    requires
        call_ensures(audit_mixed, (&accepted, &report), r),
        r is Ok,
    ensures
        ({
            let turns = report.turns@;
            let n = turns.len() as int;
            let plan = report.plans@[0]@;
            &&& accepted@.len() > 0 && report.plans@.len() > 0 && n > 0
            &&& forall|i: int, j: int|
                0 <= i < j < plan.len() ==> (#[trigger] plan[i])@ < (#[trigger] plan[j])@
            &&& forall|i: int|
                0 <= i < plan.len() ==> exists|e: int|
                    0 <= e < accepted@.len() && (#[trigger] accepted@[e]).group_id == (
                    #[trigger] plan[i])
            &&& forall|e: int|
                0 <= e < accepted@.len() ==> plan.contains((#[trigger] accepted@[e]).group_id)
            &&& forall|e: int|
                0 <= e < accepted@.len() ==> exists|k: int|
                    0 <= k < n && turns[k].pass_id == turns[0].pass_id && (
                    #[trigger] turns[k]).group_id == (#[trigger] accepted@[e]).group_id
            &&& forall|k: int, l: int|
                0 <= k < l < n && turns[k].pass_id == turns[0].pass_id && turns[l].pass_id
                    == turns[0].pass_id ==> (#[trigger] turns[k]).group_id != (
                #[trigger] turns[l]).group_id
            &&& forall|k: int, i: int, j: int|
                0 <= k < n && 0 <= i < j < turns[k].items@.len() ==> (
                #[trigger] turns[k].items@[i]).class.rank() <= (
                #[trigger] turns[k].items@[j]).class.rank()
            &&& forall|e: int|
                0 <= e < accepted@.len() ==> exists|k: int, i: int|
                    runs_as(turns, n, k, i, (#[trigger] accepted@[e]).work_id)
            &&& forall|k: int, i: int, work: u64| #[trigger]
                runs_as(turns, n, k, i, work) && was_accepted(accepted@, work) ==> ran_in_place(
                    accepted@,
                    turns[k].group_id,
                    turns[k].items@[i],
                )
            &&& forall|k: int, i: int, l: int, j: int, work: u64|
                #[trigger] runs_as(turns, n, k, i, work) && #[trigger] runs_as(turns, n, l, j, work)
                    && was_accepted(accepted@, work) ==> k == l && i == j
            &&& r->Ok_0.passes == report.plans@.len()
            &&& r->Ok_0.ready_width == plan.len()
            &&& r->Ok_0.observed_work == accepted@.len()
            &&& r->Ok_0.widest_gap == 0
        }),
{
    let turns = report.turns@;
    let n = turns.len() as int;
    let plan = report.plans@[0]@;
    let list = accepted@;
    lemma_turns_shown(list, turns, n);
    lemma_observed_finite(list, turns, n);
    let state = turns_observed(list, turns, n)->Ok_0;
    assert(accepted.len() == list.len());
    assert(report.plans.len() == report.plans@.len());
    assert(report.plans@[0].len() == plan.len());
    assert(is_ready_plan(list, plan));
    assert forall|i: int| 0 <= i < plan.len() implies exists|e: int|
        0 <= e < list.len() && (#[trigger] list[e]).group_id == (#[trigger] plan[i]) by {
        let group = plan[i]@ as u64;
        assert(planned_at(plan, group, i));
        assert(is_ready(list, group));
        let e = choose|e: int| #[trigger] belongs(list, group, e);
        assert(list[e].group_id == plan[i]);
    }
    assert forall|e: int| 0 <= e < list.len() implies plan.contains(
        (#[trigger] list[e]).group_id,
    ) && exists|k: int|
        0 <= k < n && turns[k].pass_id == turns[0].pass_id && (#[trigger] turns[k]).group_id
            == list[e].group_id by {
        let group = list[e].group_id@ as u64;
        assert(belongs(list, group, e));
        assert(is_ready(list, group));
        let i = choose|i: int| planned_at(plan, group, i);
        assert(plan[i] == list[e].group_id);
        lemma_none_missing(plan, state.opportunities, plan.len() as int, i);
        let k = choose|k: int|
            0 <= k < n && turns[k].pass_id == turns[0].pass_id && (#[trigger] turns[k]).group_id@
                == group;
        assert(turns[k].group_id == list[e].group_id);
    }
    assert forall|e: int| 0 <= e < list.len() implies exists|k: int, i: int|
        runs_as(turns, n, k, i, (#[trigger] list[e]).work_id) by {
        lemma_all_observed(list, state.observed, e);
    }
}

/// A mixed run without accepted work, without a pass or without a turn is none. One whose first plan
/// misses a group with accepted work, or holds one without, is refused.
pub proof fn law_mixed_runs_need_their_plan(
    accepted: Vec<ExpectedWork>,
    report: DriveReport,
    r: Result<MixedAudit, MixedFault>,
    e: int,
)
    requires
        call_ensures(audit_mixed, (&accepted, &report), r),
    ensures
        accepted@.len() == 0 <==> r == Err::<MixedAudit, MixedFault>(MixedFault::NoWork),
        accepted@.len() > 0 && report.plans@.len() == 0 <==> r == Err::<MixedAudit, MixedFault>(
            MixedFault::NoPass,
        ),
        accepted@.len() > 0 && report.plans@.len() > 0 && 0 <= e < accepted@.len()
            && !report.plans@[0]@.contains(accepted@[e].group_id) ==> r == Err::<
            MixedAudit,
            MixedFault,
        >(MixedFault::PlanMismatch),
        r == Err::<MixedAudit, MixedFault>(MixedFault::NoTurns) ==> report.turns@.len() == 0,
        report.turns@.len() == 0 ==> r is Err,
{
    let list = accepted@;
    if list.len() > 0 && report.plans@.len() > 0 && 0 <= e < list.len() {
        let plan = report.plans@[0]@;
        let group = list[e].group_id@ as u64;
        assert(belongs(list, group, e));
        assert(is_ready(list, group));
        if is_ready_plan(list, plan) {
            let i = choose|i: int| planned_at(plan, group, i);
            assert(plan[i] == list[e].group_id);
        }
    }
    if report.turns@.len() > 0 {
        lemma_no_turns(list, report.turns@, report.turns@.len() as int);
    }
}

proof fn lemma_no_turns(accepted: Seq<ExpectedWork>, turns: Seq<DriveTurn>, n: int)
    ensures
        turns_observed(accepted, turns, n) is Err ==> {
            let fault = turns_observed(accepted, turns, n)->Err_0;
            fault is OfferedTwice || fault is ClassOrder || fault is RouteChanged
                || fault is ServicedTwice
        },
    decreases n,
{
    if n > 0 {
        lemma_no_turns(accepted, turns, n - 1);
        if turns_observed(accepted, turns, n - 1) is Ok {
            lemma_no_item_fault(
                accepted,
                turns[n - 1].group_id,
                turns[n - 1].items@,
                turns_observed(accepted, turns, n - 1)->Ok_0.observed,
                turns[n - 1].items@.len() as int,
            );
        }
    }
}

proof fn lemma_no_item_fault(
    accepted: Seq<ExpectedWork>,
    group: GroupId,
    items: Seq<DrivenItem>,
    observed: Set<u64>,
    n: int,
)
    ensures
        items_observed(accepted, group, items, observed, n) is Err ==> {
            let fault = items_observed(accepted, group, items, observed, n)->Err_0;
            fault is RouteChanged || fault is ServicedTwice
        },
    decreases n,
{
    if n > 0 {
        lemma_no_item_fault(accepted, group, items, observed, n - 1);
    }
}

} // verus!
