//! Independent audit of one bounded run of the managed host.

use vstd::prelude::*;

use crate::adapter::cluster::state::group_key;
use crate::adapter::cluster::{DriveReport, DriveTurn, DrivenItem};
use crate::table::Table;
use crate::types::{GroupId, WorkClass};

verus! {

/// Independently supplied expectation for one bounded run.
#[derive(Debug)]
pub struct AcceptanceExpectation {
    /// Exact ready set, in deterministic group order, at the first pass.
    pub ready: Vec<GroupId>,
    /// Work accepted before the run, independent of the scheduler's reports.
    pub accepted: Vec<ExpectedWork>,
    /// Per-group item quota for the first opportunity, by group number.
    pub quotas: Table<usize>,
}

/// One independently recorded managed admission.
#[derive(Clone, Copy, Debug, Eq, PartialEq, Structural)]
pub struct ExpectedWork {
    /// Stable managed admission identity.
    pub work_id: u64,
    /// Group selected at admission.
    pub group_id: GroupId,
    /// Class selected at admission.
    pub class: WorkClass,
}

/// Counters of the managed scheduler at the audit boundary.
#[derive(Clone, Copy, Debug, Eq, PartialEq, Structural)]
pub struct ManagedMetrics {
    /// Queued accepted work.
    pub queued: usize,
    /// Accepted work in dispatches.
    pub in_flight_work: usize,
    /// Workers occupied.
    pub occupied_workers: usize,
    /// Total accepted work.
    pub admitted: u64,
    /// Total serviced work.
    pub serviced: u64,
    /// Total explicitly failed work.
    pub failed: u64,
}

/// Quantitative result of auditing a managed run.
#[derive(Clone, Copy, Debug, Eq, PartialEq, Structural)]
pub struct AcceptanceAuditReport {
    /// Passes armed during the run.
    pub passes: usize,
    /// Distinct group opportunities in the first pass.
    pub opportunities: usize,
    /// Largest missing-opportunity gap in the audited first pass.
    pub widest_gap: usize,
    /// Width of the independently expected ready set.
    pub ready_width: usize,
    /// Accepted work in the scheduler's conservation counters.
    pub admitted: u64,
    /// Successfully serviced work.
    pub serviced: u64,
    /// Explicitly failed work.
    pub failed: u64,
    /// Work still queued at the audit boundary.
    pub queued: usize,
    /// Work held by dispatches at the audit boundary.
    pub in_flight: usize,
}

/// Exact reason a managed history failed its independent audit.
#[derive(Clone, Debug, Eq, PartialEq)]
pub enum AcceptanceViolation {
    /// No pass was armed, so the run proved no opportunity property.
    EmptyRun,
    /// The scheduler's first immutable plan differs from the expected ready set.
    PlanMismatch {
        /// Expected ready set.
        expected: Vec<GroupId>,
        /// First plan.
        actual: Vec<GroupId>,
    },
    /// A group received more than one turn in one pass.
    DuplicateOpportunity {
        /// The group.
        group_id: GroupId,
    },
    /// A continuously ready group received no opportunity in the first pass.
    OpportunityGap {
        /// Every such group, in expected order.
        missing: Vec<GroupId>,
    },
    /// A turn named a group outside its pass.
    OpportunityOutsidePlan {
        /// The group.
        group_id: GroupId,
    },
    /// A group serviced more items than its consumer-owned quota.
    QuotaExceeded {
        /// The group.
        group_id: GroupId,
        /// Its quota.
        quota: usize,
        /// Items serviced.
        actual: usize,
    },
    /// Class priority walked backwards inside one turn.
    ClassOutOfOrder {
        /// The group.
        group_id: GroupId,
        /// Class of the item before.
        previous: WorkClass,
        /// Class of the item.
        actual: WorkClass,
    },
    /// A dispatch claimed an item absent from the independent admission log.
    UnknownWork {
        /// The item.
        work_id: u64,
    },
    /// A work item was dispatched under another group or class.
    WorkRouteChanged {
        /// The item.
        work_id: u64,
        /// Group it was admitted to.
        expected_group: GroupId,
        /// Group it was dispatched under.
        actual_group: GroupId,
        /// Class it was admitted in.
        expected_class: WorkClass,
        /// Class it was dispatched in.
        actual_class: WorkClass,
    },
    /// One accepted item received two terminal dispositions.
    DuplicateDisposition {
        /// The item.
        work_id: u64,
    },
    /// An accepted item disappeared from terminal and pending accounting.
    MissingDisposition {
        /// The item.
        work_id: u64,
    },
    /// Scheduler conservation counters do not balance.
    Conservation {
        /// Accepted.
        admitted: u64,
        /// Serviced.
        serviced: u64,
        /// Failed.
        failed: u64,
        /// Queued.
        queued: usize,
        /// In flight.
        in_flight: usize,
    },
    /// A quiescent acceptance run retained worker occupancy.
    WorkerStillOccupied {
        /// Workers occupied.
        workers: usize,
    },
}

/// The admission recorded last for a work item among the first `n`.
pub open spec fn expected_for(accepted: Seq<ExpectedWork>, n: int, work_id: u64) -> Option<
    ExpectedWork,
>
    decreases n,
{
    if n <= 0 {
        None
    } else if accepted[n - 1].work_id == work_id {
        Some(accepted[n - 1])
    } else {
        expected_for(accepted, n - 1, work_id)
    }
}

/// What is wrong with one dispatched item, given the class before it and the items already
/// accounted for.
pub open spec fn item_fault(
    group: GroupId,
    previous: Option<WorkClass>,
    item: DrivenItem,
    accepted: Seq<ExpectedWork>,
    terminal: Seq<u64>,
) -> Option<AcceptanceViolation> {
    let expected = expected_for(accepted, accepted.len() as int, item.work_id);
    if previous is Some && item.class.rank() < previous->0.rank() {
        Some(
            AcceptanceViolation::ClassOutOfOrder {
                group_id: group,
                previous: previous->0,
                actual: item.class,
            },
        )
    } else if expected is None {
        Some(AcceptanceViolation::UnknownWork { work_id: item.work_id })
    } else if expected->0.group_id != group || expected->0.class != item.class {
        Some(
            AcceptanceViolation::WorkRouteChanged {
                work_id: item.work_id,
                expected_group: expected->0.group_id,
                actual_group: group,
                expected_class: expected->0.class,
                actual_class: item.class,
            },
        )
    } else if terminal.contains(item.work_id) {
        Some(AcceptanceViolation::DuplicateDisposition { work_id: item.work_id })
    } else {
        None
    }
}

/// The items accounted for once the first `n` items of a turn have been audited, or the first
/// thing wrong with them.
pub open spec fn items_audit(
    group: GroupId,
    items: Seq<DrivenItem>,
    accepted: Seq<ExpectedWork>,
    terminal: Seq<u64>,
    n: int,
) -> Result<Seq<u64>, AcceptanceViolation>
    decreases n,
{
    if n <= 0 {
        Ok(terminal)
    } else {
        match items_audit(group, items, accepted, terminal, n - 1) {
            Err(violation) => Err(violation),
            Ok(before) => {
                let previous = if n >= 2 {
                    Some(items[n - 2].class)
                } else {
                    None
                };
                match item_fault(group, previous, items[n - 1], accepted, before) {
                    Some(violation) => Err(violation),
                    None => Ok(before.push(items[n - 1].work_id)),
                }
            },
        }
    }
}

/// Groups that took a turn and items accounted for.
#[verifier::ext_equal]
pub struct TurnsAudit {
    /// Groups that took a turn, in order.
    pub opportunities: Seq<GroupId>,
    /// Items accounted for, in order.
    pub terminal: Seq<u64>,
}

/// Quota of a group; none is zero.
pub open(crate) spec fn quota_of(expectation: AcceptanceExpectation, group: GroupId) -> usize {
    if expectation.quotas@.contains_key(group_key(group)) {
        expectation.quotas@[group_key(group)]
    } else {
        0
    }
}

/// What one turn of the audited pass adds, or what is wrong with it.
pub open(crate) spec fn turn_audit(
    expectation: AcceptanceExpectation,
    plan: Seq<GroupId>,
    turn: DriveTurn,
    before: TurnsAudit,
) -> Result<TurnsAudit, AcceptanceViolation> {
    let group = turn.group_id;
    let quota = quota_of(expectation, group);
    if !plan.contains(group) {
        Err(AcceptanceViolation::OpportunityOutsidePlan { group_id: group })
    } else if before.opportunities.contains(group) {
        Err(AcceptanceViolation::DuplicateOpportunity { group_id: group })
    } else if turn.items@.len() > quota {
        Err(
            AcceptanceViolation::QuotaExceeded {
                group_id: group,
                quota,
                actual: turn.items@.len() as usize,
            },
        )
    } else {
        match items_audit(
            group,
            turn.items@,
            expectation.accepted@,
            before.terminal,
            turn.items@.len() as int,
        ) {
            Err(violation) => Err(violation),
            Ok(terminal) => Ok(
                TurnsAudit { opportunities: before.opportunities.push(group), terminal },
            ),
        }
    }
}

/// What the turns of the first pass among the first `n` add up to, or the first thing wrong.
pub open(crate) spec fn turns_audit(
    expectation: AcceptanceExpectation,
    plan: Seq<GroupId>,
    turns: Seq<DriveTurn>,
    n: int,
) -> Result<TurnsAudit, AcceptanceViolation>
    decreases n,
{
    if n <= 0 {
        Ok(TurnsAudit { opportunities: Seq::empty(), terminal: Seq::empty() })
    } else {
        match turns_audit(expectation, plan, turns, n - 1) {
            Err(violation) => Err(violation),
            Ok(before) => if turns[n - 1].pass_id == turns[0].pass_id {
                turn_audit(expectation, plan, turns[n - 1], before)
            } else {
                Ok(before)
            },
        }
    }
}

/// First accepted item, from position `from` on, that is not accounted for.
pub open spec fn first_unaccounted(
    accepted: Seq<ExpectedWork>,
    terminal: Seq<u64>,
    from: int,
) -> Option<u64>
    decreases accepted.len() - from,
{
    if from < 0 || from >= accepted.len() {
        None
    } else if !terminal.contains(accepted[from].work_id) {
        Some(accepted[from].work_id)
    } else {
        first_unaccounted(accepted, terminal, from + 1)
    }
}

/// What the counters account for.
pub open spec fn accounted(metrics: ManagedMetrics) -> int {
    let total = metrics.serviced + metrics.failed + metrics.queued + metrics.in_flight_work;
    if total > u64::MAX {
        u64::MAX as int
    } else {
        total
    }
}

/// What is wrong with the counters.
pub open spec fn metrics_fault(metrics: ManagedMetrics) -> Option<AcceptanceViolation> {
    if metrics.admitted != accounted(metrics) {
        Some(
            AcceptanceViolation::Conservation {
                admitted: metrics.admitted,
                serviced: metrics.serviced,
                failed: metrics.failed,
                queued: metrics.queued,
                in_flight: metrics.in_flight_work,
            },
        )
    } else if metrics.occupied_workers != 0 {
        Some(AcceptanceViolation::WorkerStillOccupied { workers: metrics.occupied_workers })
    } else {
        None
    }
}

/// Expected groups that took no turn, in expected order.
pub open spec fn missing_groups(ready: Seq<GroupId>, opportunities: Seq<GroupId>) -> Seq<GroupId> {
    ready.filter(|group: GroupId| !opportunities.contains(group))
}

/// The verdict of the audit, rule by rule.
pub open(crate) spec fn audited(
    r: Result<AcceptanceAuditReport, AcceptanceViolation>,
    expectation: AcceptanceExpectation,
    report: DriveReport,
    metrics: ManagedMetrics,
) -> bool {
    let plans = report.plans@;
    let turns = report.turns@;
    let ready = expectation.ready@;
    if plans.len() == 0 {
        r is Err && r->Err_0 is EmptyRun
    } else if plans[0]@ != ready {
        &&& r is Err
        &&& r->Err_0 is PlanMismatch
        &&& r->Err_0->PlanMismatch_expected@ == ready
        &&& r->Err_0->PlanMismatch_actual@ == plans[0]@
    } else if turns.len() == 0 {
        r is Err && r->Err_0 is EmptyRun
    } else {
        match turns_audit(expectation, plans[0]@, turns, turns.len() as int) {
            Err(violation) => r == Err::<AcceptanceAuditReport, AcceptanceViolation>(violation),
            Ok(sound) => {
                let lost = first_unaccounted(expectation.accepted@, sound.terminal, 0);
                let missing = missing_groups(ready, sound.opportunities);
                if lost is Some && metrics.queued + metrics.in_flight_work == 0 {
                    r == Err::<AcceptanceAuditReport, AcceptanceViolation>(
                        AcceptanceViolation::MissingDisposition { work_id: lost->0 },
                    )
                } else if metrics_fault(metrics) is Some {
                    r == Err::<AcceptanceAuditReport, AcceptanceViolation>(
                        metrics_fault(metrics)->0,
                    )
                } else if missing.len() > 0 {
                    &&& r is Err
                    &&& r->Err_0 is OpportunityGap
                    &&& r->Err_0->OpportunityGap_missing@ == missing
                } else {
                    r == Ok::<AcceptanceAuditReport, AcceptanceViolation>(
                        AcceptanceAuditReport {
                            passes: plans.len() as usize,
                            opportunities: sound.opportunities.len() as usize,
                            widest_gap: 0,
                            ready_width: ready.len() as usize,
                            admitted: metrics.admitted,
                            serviced: metrics.serviced,
                            failed: metrics.failed,
                            queued: metrics.queued,
                            in_flight: metrics.in_flight_work,
                        },
                    )
                }
            },
        }
    }
}

fn lists_group(groups: &Vec<GroupId>, group: GroupId) -> (r: bool)
    ensures
        r == groups@.contains(group),
{
    let mut i: usize = 0;
    while i < groups.len()
        invariant
            i <= groups.len(),
            forall|j: int| 0 <= j < i ==> groups@[j] != group,
        decreases groups.len() - i,
    {
        if groups[i] == group {
            return true;
        }
        i = i + 1;
    }
    false
}

fn lists_work(items: &Vec<u64>, work_id: u64) -> (r: bool)
    ensures
        r == items@.contains(work_id),
{
    let mut i: usize = 0;
    while i < items.len()
        invariant
            i <= items.len(),
            forall|j: int| 0 <= j < i ==> items@[j] != work_id,
        decreases items.len() - i,
    {
        if items[i] == work_id {
            return true;
        }
        i = i + 1;
    }
    false
}

fn same_groups(a: &Vec<GroupId>, b: &Vec<GroupId>) -> (r: bool)
    ensures
        r == (a@ == b@),
{
    if a.len() != b.len() {
        return false;
    }
    let mut i: usize = 0;
    while i < a.len()
        invariant
            i <= a.len(),
            a.len() == b.len(),
            forall|j: int| 0 <= j < i ==> a@[j] == b@[j],
        decreases a.len() - i,
    {
        if a[i] != b[i] {
            return false;
        }
        i = i + 1;
    }
    assert(a@ =~= b@);
    true
}

fn copy_groups(groups: &Vec<GroupId>) -> (r: Vec<GroupId>)
    ensures
        r@ == groups@,
{
    let mut copy: Vec<GroupId> = Vec::new();
    let mut i: usize = 0;
    while i < groups.len()
        invariant
            i <= groups.len(),
            copy@ == groups@.take(i as int),
        decreases groups.len() - i,
    {
        copy.push(groups[i]);
        i = i + 1;
        assert(copy@ =~= groups@.take(i as int));
    }
    assert(groups@.take(i as int) =~= groups@);
    copy
}

fn find_expected(accepted: &Vec<ExpectedWork>, work_id: u64) -> (r: Option<ExpectedWork>)
    ensures
        r == expected_for(accepted@, accepted@.len() as int, work_id),
{
    let mut n: usize = accepted.len();
    while n > 0
        invariant
            n <= accepted.len(),
            expected_for(accepted@, accepted@.len() as int, work_id) == expected_for(
                accepted@,
                n as int,
                work_id,
            ),
        decreases n,
    {
        if accepted[n - 1].work_id == work_id {
            return Some(accepted[n - 1]);
        }
        n = n - 1;
    }
    None
}

fn audit_items(
    group_id: GroupId,
    items: &Vec<DrivenItem>,
    accepted: &Vec<ExpectedWork>,
    terminal: &mut Vec<u64>,
) -> (r: Result<(), AcceptanceViolation>)
    ensures
        match items_audit(group_id, items@, accepted@, old(terminal)@, items@.len() as int) {
            Ok(after) => r is Ok && final(terminal)@ == after,
            Err(violation) => r == Err::<(), AcceptanceViolation>(violation),
        },
{
    let ghost start = terminal@;
    let mut previous: Option<WorkClass> = None;
    let mut i: usize = 0;
    while i < items.len()
        invariant
            i <= items.len(),
            start == old(terminal)@,
            items_audit(group_id, items@, accepted@, start, i as int) == Ok::<
                Seq<u64>,
                AcceptanceViolation,
            >(terminal@),
            previous == if i >= 1 {
                Some(items@[i - 1].class)
            } else {
                None
            },
        decreases items.len() - i,
    {
        let item = items[i];
        if let Some(previous_class) = previous {
            if item.class.rank() < previous_class.rank() {
                proof {
                    lemma_items_stop(
                        group_id,
                        items@,
                        accepted@,
                        start,
                        i + 1,
                        items@.len() as int,
                    );
                }
                return Err(
                    AcceptanceViolation::ClassOutOfOrder {
                        group_id,
                        previous: previous_class,
                        actual: item.class,
                    },
                );
            }
        }
        previous = Some(item.class);
        let Some(expected) = find_expected(accepted, item.work_id) else {
            proof {
                lemma_items_stop(group_id, items@, accepted@, start, i + 1, items@.len() as int);
            }
            return Err(AcceptanceViolation::UnknownWork { work_id: item.work_id });
        };
        if expected.group_id != group_id || expected.class != item.class {
            proof {
                lemma_items_stop(group_id, items@, accepted@, start, i + 1, items@.len() as int);
            }
            return Err(
                AcceptanceViolation::WorkRouteChanged {
                    work_id: item.work_id,
                    expected_group: expected.group_id,
                    actual_group: group_id,
                    expected_class: expected.class,
                    actual_class: item.class,
                },
            );
        }
        if lists_work(terminal, item.work_id) {
            proof {
                lemma_items_stop(group_id, items@, accepted@, start, i + 1, items@.len() as int);
            }
            return Err(AcceptanceViolation::DuplicateDisposition { work_id: item.work_id });
        }
        terminal.push(item.work_id);
        i = i + 1;
    }
    Ok(())
}

/// The first thing wrong with a turn's items stays the first.
proof fn lemma_items_stop(
    group: GroupId,
    items: Seq<DrivenItem>,
    accepted: Seq<ExpectedWork>,
    terminal: Seq<u64>,
    n: int,
    m: int,
)
    requires
        n <= m,
        items_audit(group, items, accepted, terminal, n) is Err,
    ensures
        items_audit(group, items, accepted, terminal, m) == items_audit(
            group,
            items,
            accepted,
            terminal,
            n,
        ),
    decreases m - n,
{
    if n < m {
        lemma_items_stop(group, items, accepted, terminal, n, m - 1);
    }
}

/// The first thing wrong with the turns stays the first.
proof fn lemma_turns_stop(
    expectation: AcceptanceExpectation,
    plan: Seq<GroupId>,
    turns: Seq<DriveTurn>,
    n: int,
    m: int,
)
    requires
        n <= m,
        turns_audit(expectation, plan, turns, n) is Err,
    ensures
        turns_audit(expectation, plan, turns, m) == turns_audit(expectation, plan, turns, n),
    decreases m - n,
{
    if n < m {
        lemma_turns_stop(expectation, plan, turns, n, m - 1);
    }
}

fn audit_turns(
    expectation: &AcceptanceExpectation,
    turns: &Vec<DriveTurn>,
    plan: &Vec<GroupId>,
) -> (r: Result<(Vec<GroupId>, Vec<u64>), AcceptanceViolation>)
    requires
        turns@.len() > 0,
        expectation.quotas.wf(),
    ensures
        match turns_audit(*expectation, plan@, turns@, turns@.len() as int) {
            Ok(sound) => r is Ok && r->Ok_0.0@ == sound.opportunities && r->Ok_0.1@
                == sound.terminal,
            Err(violation) => r == Err::<(Vec<GroupId>, Vec<u64>), AcceptanceViolation>(violation),
        },
{
    let first_pass: u64 = turns[0].pass_id;
    let mut opportunities: Vec<GroupId> = Vec::new();
    let mut terminal: Vec<u64> = Vec::new();
    let ghost m = turns@.len() as int;
    let mut i: usize = 0;
    proof {
        assert(opportunities@ =~= Seq::<GroupId>::empty());
        assert(terminal@ =~= Seq::<u64>::empty());
    }
    while i < turns.len()
        invariant
            i <= turns.len(),
            turns@.len() > 0,
            m == turns@.len(),
            expectation.quotas.wf(),
            first_pass == turns@[0].pass_id,
            turns_audit(*expectation, plan@, turns@, i as int) == Ok::<
                TurnsAudit,
                AcceptanceViolation,
            >(TurnsAudit { opportunities: opportunities@, terminal: terminal@ }),
        decreases turns.len() - i,
    {
        if turns[i].pass_id == first_pass {
            let group_id = turns[i].group_id;
            let ghost before = TurnsAudit { opportunities: opportunities@, terminal: terminal@ };
            let ghost outcome = turn_audit(*expectation, plan@, turns@[i as int], before);
            assert(turns_audit(*expectation, plan@, turns@, i + 1) == outcome);
            if !lists_group(plan, group_id) {
                proof {
                    lemma_turns_stop(*expectation, plan@, turns@, i + 1, m);
                }
                return Err(AcceptanceViolation::OpportunityOutsidePlan { group_id });
            }
            if lists_group(&opportunities, group_id) {
                proof {
                    lemma_turns_stop(*expectation, plan@, turns@, i + 1, m);
                }
                return Err(AcceptanceViolation::DuplicateOpportunity { group_id });
            }
            let quota: usize = match expectation.quotas.get(group_id.get() as u64) {
                Some(quota) => quota,
                None => 0,
            };
            if turns[i].items.len() > quota {
                proof {
                    lemma_turns_stop(*expectation, plan@, turns@, i + 1, m);
                }
                return Err(
                    AcceptanceViolation::QuotaExceeded {
                        group_id,
                        quota,
                        actual: turns[i].items.len(),
                    },
                );
            }
            opportunities.push(group_id);
            let outcome = audit_items(
                group_id,
                &turns[i].items,
                &expectation.accepted,
                &mut terminal,
            );
            if let Err(violation) = outcome {
                proof {
                    lemma_turns_stop(*expectation, plan@, turns@, i + 1, m);
                }
                return Err(violation);
            }
        }
        i = i + 1;
    }
    Ok((opportunities, terminal))
}

fn audit_metrics(metrics: &ManagedMetrics) -> (r: Option<AcceptanceViolation>)
    ensures
        r == metrics_fault(*metrics),
{
    let accounted: u64 = metrics.serviced.saturating_add(metrics.failed).saturating_add(
        metrics.queued as u64,
    ).saturating_add(metrics.in_flight_work as u64);
    if metrics.admitted != accounted {
        return Some(
            AcceptanceViolation::Conservation {
                admitted: metrics.admitted,
                serviced: metrics.serviced,
                failed: metrics.failed,
                queued: metrics.queued,
                in_flight: metrics.in_flight_work,
            },
        );
    }
    if metrics.occupied_workers != 0 {
        return Some(
            AcceptanceViolation::WorkerStillOccupied { workers: metrics.occupied_workers },
        );
    }
    None
}

/// Audits one bounded run without consulting a group or scheduler state.
///
/// The expectation is built from caller-observed admission receipts; the report and the metrics are
/// the scheduler's outputs. The first violation is reported.
pub fn audit_acceptance(
    expectation: &AcceptanceExpectation,
    report: &DriveReport,
    metrics: &ManagedMetrics,
) -> (r: Result<AcceptanceAuditReport, AcceptanceViolation>)
    requires
        expectation.quotas.wf(),
    ensures
        audited(r, *expectation, *report, *metrics),
{
    if report.plans.len() == 0 {
        return Err(AcceptanceViolation::EmptyRun);
    }
    let first_plan = &report.plans[0];
    if !same_groups(first_plan, &expectation.ready) {
        return Err(
            AcceptanceViolation::PlanMismatch {
                expected: copy_groups(&expectation.ready),
                actual: copy_groups(first_plan),
            },
        );
    }
    if report.turns.len() == 0 {
        return Err(AcceptanceViolation::EmptyRun);
    }
    let (opportunities, terminal) = match audit_turns(expectation, &report.turns, first_plan) {
        Ok(sound) => sound,
        Err(violation) => {
            return Err(violation);
        },
    };
    if metrics.queued == 0 && metrics.in_flight_work == 0 {
        let mut i: usize = 0;
        while i < expectation.accepted.len()
            invariant
                i <= expectation.accepted.len(),
                first_unaccounted(expectation.accepted@, terminal@, 0) == first_unaccounted(
                    expectation.accepted@,
                    terminal@,
                    i as int,
                ),
                metrics.queued == 0 && metrics.in_flight_work == 0,
                report.plans@.len() > 0,
                report.plans@[0]@ == expectation.ready@,
                report.turns@.len() > 0,
                first_plan@ == report.plans@[0]@,
                turns_audit(
                    *expectation,
                    first_plan@,
                    report.turns@,
                    report.turns@.len() as int,
                ) is Ok,
                turns_audit(
                    *expectation,
                    first_plan@,
                    report.turns@,
                    report.turns@.len() as int,
                )->Ok_0.terminal == terminal@,
            decreases expectation.accepted.len() - i,
        {
            let work_id: u64 = expectation.accepted[i].work_id;
            if !lists_work(&terminal, work_id) {
                return Err(AcceptanceViolation::MissingDisposition { work_id });
            }
            i = i + 1;
        }
    }
    if let Some(violation) = audit_metrics(metrics) {
        return Err(violation);
    }
    let ready = &expectation.ready;
    let mut missing: Vec<GroupId> = Vec::new();
    let mut k: usize = 0;
    proof {
        reveal(Seq::filter);
        assert(ready@.take(0) =~= Seq::<GroupId>::empty());
        assert(missing@ =~= missing_groups(ready@.take(0), opportunities@));
    }
    while k < ready.len()
        invariant
            k <= ready.len(),
            missing@ == missing_groups(ready@.take(k as int), opportunities@),
        decreases ready.len() - k,
    {
        proof {
            reveal(Seq::filter);
            assert(ready@.take(k + 1).drop_last() =~= ready@.take(k as int));
            assert(ready@.take(k + 1).last() == ready@[k as int]);
        }
        if !lists_group(&opportunities, ready[k]) {
            missing.push(ready[k]);
        }
        k = k + 1;
    }
    assert(ready@.take(k as int) =~= ready@);
    if missing.len() > 0 {
        return Err(AcceptanceViolation::OpportunityGap { missing });
    }
    Ok(
        AcceptanceAuditReport {
            passes: report.plans.len(),
            opportunities: opportunities.len(),
            widest_gap: 0,
            ready_width: expectation.ready.len(),
            admitted: metrics.admitted,
            serviced: metrics.serviced,
            failed: metrics.failed,
            queued: metrics.queued,
            in_flight: metrics.in_flight_work,
        },
    )
}

/// An accepted run gave every expected group a turn in the first pass, no more than one each, and
/// its counters balance with no worker left occupied.
pub proof fn law_accepted_run_is_fair(
    expectation: AcceptanceExpectation,
    report: DriveReport,
    metrics: ManagedMetrics,
    r: Result<AcceptanceAuditReport, AcceptanceViolation>,
    group: GroupId,
)
    requires
        audited(r, expectation, report, metrics),
        r is Ok,
        expectation.ready@.contains(group),
    ensures
        report.plans@.len() > 0,
        report.plans@[0]@ == expectation.ready@,
        turns_audit(
            expectation,
            report.plans@[0]@,
            report.turns@,
            report.turns@.len() as int,
        )->Ok_0.opportunities.contains(group),
        metrics.admitted == accounted(metrics),
        metrics.occupied_workers == 0,
{
    let sound = turns_audit(
        expectation,
        report.plans@[0]@,
        report.turns@,
        report.turns@.len() as int,
    )->Ok_0;
    let ready = expectation.ready@;
    if !sound.opportunities.contains(group) {
        let missing = missing_groups(ready, sound.opportunities);
        let pred = |group: GroupId| !sound.opportunities.contains(group);
        ready.filter_lemma(pred);
        let i = ready.index_of(group);
        assert(ready[i] == group);
        assert(pred(ready[i]));
        assert(ready.filter(pred).contains(group));
    }
}

} // verus!
