//! How long a group has been denied its turn, counted over the plans that were armed.

use vstd::prelude::*;

use crate::oracle::fold::{widest_denial, Gap, GroupFold};
use crate::oracle::site::SchedulingViolation;
use crate::oracle::{judges, FairnessReport, ReferenceScheduler};
use crate::types::PassIndex;

verus! {

/// The gap after a run of plans, each of which denied the group at its pass or did not.
pub open spec fn gap_after(plans: Seq<Option<PassIndex>>) -> Gap
    decreases plans.len(),
{
    if plans.len() == 0 {
        Gap::none()
    } else {
        match plans.last() {
            Some(pass) => gap_after(plans.drop_last()).denied(pass),
            None => gap_after(plans.drop_last()).satisfied(),
        }
    }
}

/// Every plan from `i` up to `j` denied the group.
pub open spec fn denies(plans: Seq<Option<PassIndex>>, i: int, j: int) -> bool {
    &&& 0 <= i <= j <= plans.len()
    &&& forall|k: int| i <= k < j ==> (#[trigger] plans[k]) is Some
}

proof fn lemma_gap(plans: Seq<Option<PassIndex>>)
    ensures
        ({
            let gap = gap_after(plans);
            let n = plans.len() as int;
            &&& gap.run <= n && denies(plans, n - gap.run, n)
            &&& gap.run < n ==> plans[n - gap.run - 1] is None
            &&& gap.run > 0 ==> gap.run_from == plans[n - gap.run]
            &&& gap.run <= gap.worst
            &&& forall|i: int, j: int| #[trigger] denies(plans, i, j) ==> j - i <= gap.worst
            &&& gap.worst > 0 ==> exists|i: int, j: int| #[trigger]
                denies(plans, i, j) && j - i == gap.worst && gap.worst_from == plans[i]
        }),
    decreases plans.len(),
{
    if plans.len() > 0 {
        let before = plans.drop_last();
        let n = plans.len() as int;
        lemma_gap(before);
        let old_gap = gap_after(before);
        let gap = gap_after(plans);
        assert forall|k: int| 0 <= k < n - 1 implies before[k] == #[trigger] plans[k] by {}
        assert forall|i: int, j: int| #[trigger] denies(plans, i, j) && j < n implies denies(
            before,
            i,
            j,
        ) by {}
        assert forall|i: int, j: int| #[trigger] denies(before, i, j) implies denies(plans, i, j) by {
            assert forall|k: int| i <= k < j implies (#[trigger] plans[k]) is Some by {
                assert(before[k] is Some);
            }
        }
        if plans.last() is Some {
            assert(denies(plans, n - gap.run, n)) by {
                assert forall|k: int| n - gap.run <= k < n implies (#[trigger] plans[k]) is Some by {
                    if k < n - 1 {
                        assert(before[k] is Some);
                    }
                }
            }
            if gap.run < n {
                assert(plans[n - gap.run - 1] == before[n - 1 - old_gap.run - 1]);
            }
            assert forall|i: int, j: int| #[trigger] denies(plans, i, j) implies j - i <= gap.worst by {
                if j == n && j - i > gap.run {
                    assert(plans[n - gap.run - 1] is Some);
                }
            }
            if gap.worst > old_gap.worst {
                assert(gap.worst_from == plans[n - gap.run]);
            } else {
                let (i, j) = choose|i: int, j: int| #[trigger]
                    denies(before, i, j) && j - i == old_gap.worst && old_gap.worst_from == before[i];
                assert(denies(plans, i, j));
            }
        } else {
            assert(denies(plans, n, n));
            assert forall|i: int, j: int| #[trigger] denies(plans, i, j) implies j - i <= gap.worst by {
                if j == n && i < n {
                    assert(plans[n - 1] is Some);
                } else if j == n {
                }
            }
            if gap.worst > 0 {
                let (i, j) = choose|i: int, j: int| #[trigger]
                    denies(before, i, j) && j - i == old_gap.worst && old_gap.worst_from == before[i];
                assert(denies(plans, i, j));
            }
        }
    } else {
        assert(denies(plans, 0, 0));
    }
}

/// The gap of a group is its longest run of consecutive denials: no run is longer, one is as long, and
/// the pass it is reported from is the pass that run began at. Where nothing was denied it is zero.
pub proof fn law_gap_is_the_longest_run_of_denials(plans: Seq<Option<PassIndex>>)
    ensures
        forall|i: int, j: int| #[trigger]
            denies(plans, i, j) ==> j - i <= gap_after(plans).worst,
        gap_after(plans).worst > 0 ==> exists|i: int, j: int| #[trigger]
            denies(plans, i, j) && j - i == gap_after(plans).worst && gap_after(plans).worst_from
                == plans[i],
        (forall|k: int| 0 <= k < plans.len() ==> (#[trigger] plans[k]) is None) ==> gap_after(
            plans,
        ).worst == 0,
{
    lemma_gap(plans);
    if gap_after(plans).worst > 0 {
        let (i, j) = choose|i: int, j: int| #[trigger]
            denies(plans, i, j) && j - i == gap_after(plans).worst;
        assert(plans[i] is Some);
    }
}

proof fn lemma_widest(groups: Seq<GroupFold>, n: int)
    requires
        0 <= n <= groups.len(),
    ensures
        match widest_denial(groups, n) {
            Some(i) => {
                &&& 0 <= i < n && groups[i].gap.worst > 0
                &&& forall|k: int|
                    0 <= k < n ==> (#[trigger] groups[k]).gap.worst <= groups[i].gap.worst
                &&& forall|k: int| 0 <= k < i ==> (#[trigger] groups[k]).gap.worst < groups[i].gap.worst
            },
            None => forall|k: int| 0 <= k < n ==> (#[trigger] groups[k]).gap.worst == 0,
        },
    decreases n,
{
    if n > 0 {
        lemma_widest(groups, n - 1);
    }
}

/// A history without another fault is refused for the widest gap of all its groups, the first such
/// group's, and is certified only where no group was ever denied a turn it was owed.
pub proof fn law_widest_gap_is_reported(
    judge: ReferenceScheduler,
    r: Result<FairnessReport, SchedulingViolation>,
)
    requires
        judges(r, judge.implied()),
        judge.implied().violation is None,
    ensures
        ({
            let groups = judge.implied().groups;
            &&& r is Ok <==> forall|k: int|
                0 <= k < groups.len() ==> (#[trigger] groups[k]).gap.worst == 0
            &&& r matches Err(fault) ==> fault is OpportunityGap && exists|i: int|
                0 <= i < groups.len() && (#[trigger] groups[i]).group == fault->OpportunityGap_group
                    && fault->OpportunityGap_denied_passes == groups[i].gap.worst as u32 && (
                groups[i].gap.worst_from is Some ==> fault->OpportunityGap_from_pass
                    == groups[i].gap.worst_from->0) && forall|k: int|
                    0 <= k < groups.len() ==> (#[trigger] groups[k]).gap.worst
                        <= groups[i].gap.worst
        }),
{
    let groups = judge.implied().groups;
    lemma_widest(groups, groups.len() as int);
    if let Some(i) = widest_denial(groups, groups.len() as int) {
        assert(groups[i].gap.worst > 0);
    }
}

} // verus!
