//! Audit of a run that mixes commands with system traffic and slow groups.

use vstd::prelude::*;

use crate::adapter::audit::{expected_for, ExpectedWork};
use crate::adapter::cluster::{DriveReport, DriveTurn, DrivenItem};
use crate::table::{
    contents, holds, lemma_contents_determine_rows, lemma_key_count, rows_ordered, Row, Table,
};
use crate::types::GroupId;

verus! {

/// What a mixed run amounted to.
#[derive(Clone, Copy, Debug, Eq, PartialEq, Structural)]
pub struct MixedAudit {
    /// Passes armed during the run.
    pub passes: usize,
    /// Groups that had a turn in the first pass.
    pub opportunities: usize,
    /// Groups that were ready for it.
    pub ready_width: usize,
    /// Ready groups that had none.
    pub widest_gap: usize,
    /// Accepted items that were serviced.
    pub observed_work: usize,
}

/// Why a mixed run is not what it should be.
#[derive(Clone, Copy, Debug, Eq, PartialEq, Structural)]
pub enum MixedFault {
    /// Nothing was accepted.
    NoWork,
    /// No pass was armed.
    NoPass,
    /// The first plan is not the ready groups in order.
    PlanMismatch,
    /// Nothing was dispatched.
    NoTurns,
    /// The first pass offered a group twice.
    OfferedTwice {
        /// The group.
        group_id: GroupId,
    },
    /// A turn serviced its classes out of order.
    ClassOrder {
        /// The group.
        group_id: GroupId,
    },
    /// An item was serviced under another group or class.
    RouteChanged {
        /// The item.
        work_id: u64,
    },
    /// An item was serviced twice.
    ServicedTwice {
        /// The item.
        work_id: u64,
    },
    /// Accepted items were never serviced.
    Disappeared {
        /// Items accepted.
        accepted: usize,
        /// Items serviced.
        observed: usize,
    },
    /// The first pass left ready groups out.
    Omitted {
        /// How many.
        missing: usize,
    },
}

/// What the turns amount to so far.
#[verifier::ext_equal]
pub struct MixedState {
    /// Groups that had a turn in the first pass.
    pub opportunities: Set<u64>,
    /// Accepted items that were serviced.
    pub observed: Set<u64>,
}

/// An accepted item belongs to the group.
pub open(crate) spec fn is_ready(accepted: Seq<ExpectedWork>, group: u64) -> bool {
    exists|i: int| #[trigger] belongs(accepted, group, i)
}

/// The item at `i` belongs to the group.
pub open(crate) spec fn belongs(accepted: Seq<ExpectedWork>, group: u64, i: int) -> bool {
    0 <= i < accepted.len() && accepted[i].group_id@ == group
}

/// The plan has the group at `i`.
pub open(crate) spec fn planned_at(plan: Seq<GroupId>, group: u64, i: int) -> bool {
    0 <= i < plan.len() && plan[i]@ == group
}

/// The plan names exactly the groups with accepted work, in ascending order.
pub open(crate) spec fn is_ready_plan(accepted: Seq<ExpectedWork>, plan: Seq<GroupId>) -> bool {
    &&& forall|i: int, j: int| 0 <= i < j < plan.len() ==> #[trigger] plan[i]@ < #[trigger] plan[j]@
    &&& forall|group: u64|
        #![trigger is_ready(accepted, group)]
        is_ready(accepted, group) <==> exists|i: int| planned_at(plan, group, i)
}

/// The items stand in the order of their classes.
pub open spec fn in_class_order(items: Seq<DrivenItem>) -> bool {
    forall|i: int, j: int|
        0 <= i < j < items.len() ==> (#[trigger] items[i]).class.rank() <= (
        #[trigger] items[j]).class.rank()
}

/// Items serviced once the first `n` items of a turn were, or the first thing wrong with them.
pub open spec fn items_observed(
    accepted: Seq<ExpectedWork>,
    group: GroupId,
    items: Seq<DrivenItem>,
    observed: Set<u64>,
    n: int,
) -> Result<Set<u64>, MixedFault>
    decreases n,
{
    if n <= 0 {
        Ok(observed)
    } else {
        match items_observed(accepted, group, items, observed, n - 1) {
            Err(fault) => Err(fault),
            Ok(before) => {
                let item = items[n - 1];
                match expected_for(accepted, accepted.len() as int, item.work_id) {
                    None => Ok(before),
                    Some(work) => if work.group_id != group || work.class != item.class {
                        Err(MixedFault::RouteChanged { work_id: item.work_id })
                    } else if before.contains(item.work_id) {
                        Err(MixedFault::ServicedTwice { work_id: item.work_id })
                    } else {
                        Ok(before.insert(item.work_id))
                    },
                }
            },
        }
    }
}

/// What one more turn amounts to.
pub open(crate) spec fn turn_observed(
    accepted: Seq<ExpectedWork>,
    first_pass: u64,
    turn: DriveTurn,
    before: MixedState,
) -> Result<MixedState, MixedFault> {
    let group = turn.group_id@ as u64;
    if turn.pass_id == first_pass && before.opportunities.contains(group) {
        Err(MixedFault::OfferedTwice { group_id: turn.group_id })
    } else if !in_class_order(turn.items@) {
        Err(MixedFault::ClassOrder { group_id: turn.group_id })
    } else {
        match items_observed(
            accepted,
            turn.group_id,
            turn.items@,
            before.observed,
            turn.items@.len() as int,
        ) {
            Err(fault) => Err(fault),
            Ok(observed) => Ok(
                MixedState {
                    opportunities: if turn.pass_id == first_pass {
                        before.opportunities.insert(group)
                    } else {
                        before.opportunities
                    },
                    observed,
                },
            ),
        }
    }
}

/// What the first `n` turns amount to, or the first thing wrong with them.
pub open(crate) spec fn turns_observed(
    accepted: Seq<ExpectedWork>,
    turns: Seq<DriveTurn>,
    n: int,
) -> Result<MixedState, MixedFault>
    decreases n,
{
    if n <= 0 {
        Ok(MixedState { opportunities: Set::empty(), observed: Set::empty() })
    } else {
        match turns_observed(accepted, turns, n - 1) {
            Err(fault) => Err(fault),
            Ok(before) => turn_observed(accepted, turns[0].pass_id, turns[n - 1], before),
        }
    }
}

/// Planned groups among the first `n` that had no turn.
pub open(crate) spec fn groups_missing(plan: Seq<GroupId>, opportunities: Set<u64>, n: int) -> nat
    decreases n,
{
    if n <= 0 {
        0
    } else {
        groups_missing(plan, opportunities, n - 1) + if opportunities.contains(
            plan[n - 1]@ as u64,
        ) {
            0nat
        } else {
            1nat
        }
    }
}

/// The verdict on a mixed run.
pub open(crate) spec fn mixed_verdict(accepted: Seq<ExpectedWork>, report: DriveReport) -> Result<
    MixedAudit,
    MixedFault,
> {
    let turns = report.turns@;
    if accepted.len() == 0 {
        Err(MixedFault::NoWork)
    } else if report.plans@.len() == 0 {
        Err(MixedFault::NoPass)
    } else if !is_ready_plan(accepted, report.plans@[0]@) {
        Err(MixedFault::PlanMismatch)
    } else if turns.len() == 0 {
        Err(MixedFault::NoTurns)
    } else {
        let plan = report.plans@[0]@;
        match turns_observed(accepted, turns, turns.len() as int) {
            Err(fault) => Err(fault),
            Ok(state) => {
                let missing = groups_missing(plan, state.opportunities, plan.len() as int);
                if state.observed.len() != accepted.len() {
                    Err(
                        MixedFault::Disappeared {
                            accepted: accepted.len() as usize,
                            observed: state.observed.len() as usize,
                        },
                    )
                } else if missing != 0 {
                    Err(MixedFault::Omitted { missing: missing as usize })
                } else {
                    Ok(
                        MixedAudit {
                            passes: report.plans@.len() as usize,
                            opportunities: state.opportunities.len() as usize,
                            ready_width: plan.len() as usize,
                            widest_gap: 0,
                            observed_work: state.observed.len() as usize,
                        },
                    )
                }
            },
        }
    }
}

/// The table holds the admission recorded last for every item.
spec fn tabulates(table: Map<u64, ExpectedWork>, accepted: Seq<ExpectedWork>) -> bool {
    forall|work: u64|
        #![trigger table.contains_key(work)]
        match expected_for(accepted, accepted.len() as int, work) {
            Some(expected) => table.contains_key(work) && table[work] == expected,
            None => !table.contains_key(work),
        }
}

fn expected_table(accepted: &Vec<ExpectedWork>) -> (r: Table<ExpectedWork>)
    ensures
        r.wf(),
        tabulates(r@, accepted@),
{
    let mut table: Table<ExpectedWork> = Table::new();
    let mut i: usize = 0;
    while i < accepted.len()
        invariant
            i <= accepted@.len(),
            table.wf(),
            forall|work: u64|
                #![trigger table@.contains_key(work)]
                match expected_for(accepted@, i as int, work) {
                    Some(expected) => table@.contains_key(work) && table@[work] == expected,
                    None => !table@.contains_key(work),
                },
        decreases accepted@.len() - i,
    {
        let ghost before = table@;
        table.insert(accepted[i].work_id, accepted[i]);
        proof {
            assert forall|work: u64|
                #![trigger table@.contains_key(work)]
                match expected_for(accepted@, i + 1, work) {
                    Some(expected) => table@.contains_key(work) && table@[work] == expected,
                    None => !table@.contains_key(work),
                } by {
                assert(before.contains_key(work) == (expected_for(accepted@, i as int, work)
                    is Some));
            }
        }
        i = i + 1;
    }
    table
}

fn ready_table(accepted: &Vec<ExpectedWork>) -> (r: Table<()>)
    ensures
        r.wf(),
        forall|group: u64| #[trigger] r@.contains_key(group) <==> is_ready(accepted@, group),
{
    let mut table: Table<()> = Table::new();
    let mut i: usize = 0;
    while i < accepted.len()
        invariant
            i <= accepted@.len(),
            table.wf(),
            forall|group: u64| #[trigger]
                table@.contains_key(group) <==> exists|k: int|
                    k < i && #[trigger] belongs(accepted@, group, k),
        decreases accepted@.len() - i,
    {
        let key: u64 = accepted[i].group_id.get() as u64;
        let ghost before = table@;
        table.insert(key, ());
        proof {
            assert(belongs(accepted@, key, i as int));
            assert forall|group: u64| #[trigger] table@.contains_key(group) <==> exists|k: int|
                k < i + 1 && #[trigger] belongs(accepted@, group, k) by {
                if table@.contains_key(group) && group != key {
                    assert(before.contains_key(group));
                    let k = choose|k: int| k < i && #[trigger] belongs(accepted@, group, k);
                    assert(belongs(accepted@, group, k));
                }
                if exists|k: int| k < i + 1 && #[trigger] belongs(accepted@, group, k) {
                    let k = choose|k: int| k < i + 1 && #[trigger] belongs(accepted@, group, k);
                    if k < i {
                        assert(before.contains_key(group));
                    }
                }
            }
        }
        i = i + 1;
    }
    proof {
        assert forall|group: u64| #[trigger] table@.contains_key(group) <==> is_ready(
            accepted@,
            group,
        ) by {
            if is_ready(accepted@, group) {
                let k = choose|k: int| #[trigger] belongs(accepted@, group, k);
                assert(k < i && belongs(accepted@, group, k));
            }
        }
    }
    table
}

/// Rows of the groups of a plan.
spec fn plan_rows(plan: Seq<GroupId>) -> Seq<Row<()>> {
    Seq::new(plan.len(), |i: int| Row { key: plan[i]@ as u64, value: () })
}

fn is_plan(accepted: &Vec<ExpectedWork>, ready: &Table<()>, plan: &Vec<GroupId>) -> (r: bool)
    requires
        ready.wf(),
        forall|group: u64| #[trigger] ready@.contains_key(group) <==> is_ready(accepted@, group),
    ensures
        r == is_ready_plan(accepted@, plan@),
        r ==> ready.count() == plan@.len(),
{
    proof {
        if is_ready_plan(accepted@, plan@) {
            let rows = plan_rows(plan@);
            assert(rows_ordered(rows)) by {
                assert forall|i: int, j: int| 0 <= i < j < rows.len() implies rows[i].key
                    < rows[j].key by {
                    assert(plan@[i]@ < plan@[j]@);
                }
            }
            assert(contents(rows) =~= ready@) by {
                assert forall|group: u64| #[trigger] contents(rows).contains_key(group)
                    <==> ready@.contains_key(group) by {
                    assert(is_ready(accepted@, group) <==> ready@.contains_key(group));
                    if contents(rows).contains_key(group) {
                        let i = choose|i: int| holds(rows, group, i);
                        assert(holds(rows, group, i));
                        assert(planned_at(plan@, group, i));
                    }
                    if ready@.contains_key(group) {
                        let i = choose|i: int| planned_at(plan@, group, i);
                        assert(planned_at(plan@, group, i));
                        assert(holds(rows, group, i));
                    }
                }
            }
            lemma_contents_determine_rows(rows, ready.all());
        }
    }
    if plan.len() != ready.len() {
        return false;
    }
    let mut i: usize = 0;
    while i < plan.len()
        invariant
            ready.wf(),
            i <= plan@.len(),
            plan@.len() == ready.count(),
            is_ready_plan(accepted@, plan@) ==> plan_rows(plan@) == ready.all(),
            forall|k: int| 0 <= k < i ==> #[trigger] plan@[k]@ == ready.key(k),
        decreases plan@.len() - i,
    {
        if plan[i].get() as u64 != ready.row_ref(i).key {
            assert(plan_rows(plan@)[i as int].key == plan@[i as int]@);
            return false;
        }
        i = i + 1;
    }
    proof {
        ready.lemma_rows();
        assert forall|a: int, b: int| 0 <= a < b < plan@.len() implies #[trigger] plan@[a]@
            < #[trigger] plan@[b]@ by {
            assert(ready.key(a) < ready.key(b));
        }
        assert forall|group: u64|
            #![trigger is_ready(accepted@, group)]
            is_ready(accepted@, group) <==> exists|i: int| planned_at(plan@, group, i) by {
            assert(ready@.contains_key(group) <==> is_ready(accepted@, group));
            if ready@.contains_key(group) {
                let k = choose|k: int| 0 <= k < ready.count() && ready.key(k) == group;
                assert(planned_at(plan@, group, k));
            }
            if exists|i: int| planned_at(plan@, group, i) {
                let k = choose|k: int| planned_at(plan@, group, k);
                assert(planned_at(plan@, group, k));
                assert(ready@.contains_key(ready.key(k)));
            }
        }
    }
    true
}

fn classes_ordered(items: &Vec<DrivenItem>) -> (r: bool)
    ensures
        r == in_class_order(items@),
{
    if items.len() == 0 {
        return true;
    }
    let mut i: usize = 1;
    while i < items.len()
        invariant
            1 <= i <= items@.len(),
            forall|a: int, b: int|
                0 <= a < b < i ==> (#[trigger] items@[a]).class.rank() <= (
                #[trigger] items@[b]).class.rank(),
        decreases items@.len() - i,
    {
        if items[i - 1].class.rank() > items[i].class.rank() {
            assert(items@[i - 1].class.rank() > items@[i as int].class.rank());
            return false;
        }
        i = i + 1;
    }
    true
}

/// A fault among the first items is the fault of all of them.
proof fn lemma_items_stop(
    accepted: Seq<ExpectedWork>,
    group: GroupId,
    items: Seq<DrivenItem>,
    observed: Set<u64>,
    n: int,
    m: int,
)
    requires
        0 <= n <= m,
        items_observed(accepted, group, items, observed, n) is Err,
    ensures
        items_observed(accepted, group, items, observed, m) == items_observed(
            accepted,
            group,
            items,
            observed,
            n,
        ),
    decreases m - n,
{
    if n < m {
        lemma_items_stop(accepted, group, items, observed, n, m - 1);
    }
}

/// A fault among the first turns is the fault of all of them.
proof fn lemma_turns_stop(accepted: Seq<ExpectedWork>, turns: Seq<DriveTurn>, n: int, m: int)
    requires
        0 <= n <= m,
        turns_observed(accepted, turns, n) is Err,
    ensures
        turns_observed(accepted, turns, m) == turns_observed(accepted, turns, n),
    decreases m - n,
{
    if n < m {
        lemma_turns_stop(accepted, turns, n, m - 1);
    }
}

fn observe_items(
    accepted: &Vec<ExpectedWork>,
    expected: &Table<ExpectedWork>,
    turn: &DriveTurn,
    observed: &mut Table<()>,
) -> (r: Option<MixedFault>)
    requires
        expected.wf(),
        old(observed).wf(),
        tabulates(expected@, accepted@),
    ensures
        final(observed).wf(),
        match items_observed(
            accepted@,
            turn.group_id,
            turn.items@,
            old(observed)@.dom(),
            turn.items@.len() as int,
        ) {
            Ok(after) => r is None && final(observed)@.dom() == after,
            Err(fault) => r == Some(fault),
        },
{
    let ghost start = observed@.dom();
    let ghost n = turn.items@.len() as int;
    let mut i: usize = 0;
    while i < turn.items.len()
        invariant
            i <= n,
            n == turn.items@.len(),
            start == old(observed)@.dom(),
            expected.wf(),
            observed.wf(),
            tabulates(expected@, accepted@),
            items_observed(accepted@, turn.group_id, turn.items@, start, i as int) == Ok::<
                Set<u64>,
                MixedFault,
            >(observed@.dom()),
        decreases n - i,
    {
        let item = turn.items[i];
        let ghost before = observed@.dom();
        if let Some(work) = expected.get(item.work_id) {
            if work.group_id != turn.group_id || work.class != item.class {
                proof {
                    lemma_items_stop(accepted@, turn.group_id, turn.items@, start, i + 1, n);
                }
                return Some(MixedFault::RouteChanged { work_id: item.work_id });
            }
            if observed.get(item.work_id).is_some() {
                proof {
                    lemma_items_stop(accepted@, turn.group_id, turn.items@, start, i + 1, n);
                }
                return Some(MixedFault::ServicedTwice { work_id: item.work_id });
            }
            observed.insert(item.work_id, ());
            assert(observed@.dom() =~= before.insert(item.work_id));
        }
        i = i + 1;
    }
    None
}

/// Audits a mixed run: the first pass plans exactly the groups with accepted work and gives each a
/// turn, and every accepted item is serviced once, where and as it was accepted.
pub fn audit_mixed(accepted: &Vec<ExpectedWork>, report: &DriveReport) -> (r: Result<
    MixedAudit,
    MixedFault,
>)
    ensures
        r == mixed_verdict(accepted@, *report),
{
    if accepted.len() == 0 {
        return Err(MixedFault::NoWork);
    }
    let expected = expected_table(accepted);
    let ready = ready_table(accepted);
    if report.plans.len() == 0 {
        return Err(MixedFault::NoPass);
    }
    let plan = &report.plans[0];
    if !is_plan(accepted, &ready, plan) {
        return Err(MixedFault::PlanMismatch);
    }
    if report.turns.len() == 0 {
        return Err(MixedFault::NoTurns);
    }
    let first_pass: u64 = report.turns[0].pass_id;
    let mut opportunities: Table<()> = Table::new();
    let mut observed: Table<()> = Table::new();
    let ghost turns = report.turns@;
    let mut i: usize = 0;
    assert(opportunities@.dom() =~= Set::<u64>::empty());
    assert(observed@.dom() =~= Set::<u64>::empty());
    while i < report.turns.len()
        invariant
            turns == report.turns@,
            i <= turns.len(),
            turns.len() > 0,
            first_pass == turns[0].pass_id,
            accepted@.len() > 0,
            report.plans@.len() > 0,
            is_ready_plan(accepted@, report.plans@[0]@),
            expected.wf(),
            opportunities.wf(),
            observed.wf(),
            tabulates(expected@, accepted@),
            turns_observed(accepted@, turns, i as int) == Ok::<MixedState, MixedFault>(
                MixedState { opportunities: opportunities@.dom(), observed: observed@.dom() },
            ),
        decreases turns.len() - i,
    {
        let turn = &report.turns[i];
        let key: u64 = turn.group_id.get() as u64;
        let ghost before = opportunities@.dom();
        let in_first = turn.pass_id == first_pass;
        if in_first && opportunities.get(key).is_some() {
            proof {
                lemma_turns_stop(accepted@, turns, i + 1, turns.len() as int);
            }
            return Err(MixedFault::OfferedTwice { group_id: turn.group_id });
        }
        if !classes_ordered(&turn.items) {
            proof {
                lemma_turns_stop(accepted@, turns, i + 1, turns.len() as int);
            }
            return Err(MixedFault::ClassOrder { group_id: turn.group_id });
        }
        if let Some(fault) = observe_items(accepted, &expected, turn, &mut observed) {
            proof {
                lemma_turns_stop(accepted@, turns, i + 1, turns.len() as int);
            }
            return Err(fault);
        }
        if in_first {
            opportunities.insert(key, ());
            assert(opportunities@.dom() =~= before.insert(key));
        }
        i = i + 1;
    }
    proof {
        lemma_key_count(opportunities);
        lemma_key_count(observed);
    }
    if observed.len() != accepted.len() {
        return Err(
            MixedFault::Disappeared { accepted: accepted.len(), observed: observed.len() },
        );
    }
    let missing: usize = count_missing(plan, &opportunities);
    if missing != 0 {
        return Err(MixedFault::Omitted { missing });
    }
    Ok(
        MixedAudit {
            passes: report.plans.len(),
            opportunities: opportunities.len(),
            ready_width: ready.len(),
            widest_gap: missing,
            observed_work: observed.len(),
        },
    )
}

fn count_missing(plan: &Vec<GroupId>, opportunities: &Table<()>) -> (r: usize)
    requires
        opportunities.wf(),
    ensures
        r == groups_missing(plan@, opportunities@.dom(), plan@.len() as int),
{
    let mut missing: usize = 0;
    let mut i: usize = 0;
    while i < plan.len()
        invariant
            opportunities.wf(),
            i <= plan@.len(),
            missing <= i,
            missing == groups_missing(plan@, opportunities@.dom(), i as int),
        decreases plan@.len() - i,
    {
        if opportunities.get(plan[i].get() as u64).is_none() {
            missing = missing + 1;
        }
        i = i + 1;
    }
    missing
}

/// No planned group is missing when the count is zero.
proof fn lemma_none_missing(plan: Seq<GroupId>, opportunities: Set<u64>, n: int, i: int)
    requires
        groups_missing(plan, opportunities, n) == 0,
        0 <= i < n,
    ensures
        opportunities.contains(plan[i]@ as u64),
    decreases n,
{
    if i < n - 1 {
        lemma_none_missing(plan, opportunities, n - 1, i);
    }
}

/// A mixed run that passes gave every group with accepted work a turn in the first pass: commands,
/// system traffic and slow groups do not starve each other.
pub proof fn law_mixed_run_starves_no_group(
    accepted: Seq<ExpectedWork>,
    report: DriveReport,
    group: u64,
)
    requires
        mixed_verdict(accepted, report) is Ok,
        is_ready(accepted, group),
    ensures
        turns_observed(accepted, report.turns@, report.turns@.len() as int) is Ok,
        turns_observed(
            accepted,
            report.turns@,
            report.turns@.len() as int,
        )->Ok_0.opportunities.contains(group),
        turns_observed(
            accepted,
            report.turns@,
            report.turns@.len() as int,
        )->Ok_0.observed.len() == accepted.len(),
{
    let plan = report.plans@[0]@;
    let state = turns_observed(accepted, report.turns@, report.turns@.len() as int)->Ok_0;
    let i = choose|i: int| planned_at(plan, group, i);
    assert(planned_at(plan, group, i));
    lemma_none_missing(plan, state.opportunities, plan.len() as int, i);
}

} // verus!
