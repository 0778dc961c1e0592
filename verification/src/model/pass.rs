//! One pass, over as many ticks as it takes.

use vstd::prelude::*;

use crate::model::laws::{
    law_plan_is_the_ready_set, law_turns_follow_the_plan, lemma_traversal_frame, offered_groups,
};
use crate::model::reachable::{inv, lemma_awake_inv};
use crate::model::run::{
    called, can_call, can_run_from, lemma_called_inv, lemma_ran_inv, ran_from, Call,
};
use crate::model::state::{PlanState, ReportState, SchedulerState};
use crate::types::{GroupId, PassIndex, ReadinessSignal};

verus! {

/// The call is a tick that completes a pass.
pub open(crate) spec fn completes(s: SchedulerState, call: Call) -> bool {
    match call {
        Call::Step { signals } => s.stepped(signals).1.progress is Completed,
        Call::Invoke { .. } => false,
    }
}

/// None of these calls completes a pass.
pub open(crate) spec fn unfinished(s: SchedulerState, calls: Seq<Call>) -> bool
    decreases calls.len(),
{
    calls.len() == 0 || unfinished(s, calls.drop_last()) && !completes(
        ran_from(s, calls.drop_last()),
        calls.last(),
    )
}

/// Groups that a call offered a turn, in order.
pub open(crate) spec fn offers_of(s: SchedulerState, call: Call) -> Seq<GroupId> {
    match call {
        Call::Step { signals } => offered_groups(s.stepped(signals).1.offers),
        Call::Invoke { .. } => Seq::empty(),
    }
}

/// Groups that these calls offered a turn, in order.
pub open(crate) spec fn offers_from(s: SchedulerState, calls: Seq<Call>) -> Seq<GroupId>
    decreases calls.len(),
{
    if calls.len() == 0 {
        Seq::empty()
    } else {
        offers_from(s, calls.drop_last()) + offers_of(
            ran_from(s, calls.drop_last()),
            calls.last(),
        )
    }
}

/// A tick belongs to this pass and arms nothing.
pub open(crate) spec fn resumes(s: SchedulerState, call: Call, pass: PassIndex) -> bool {
    match call {
        Call::Step { signals } => s.stepped(signals).1.armed is None && s.stepped(signals).1.pass
            == Some(pass),
        Call::Invoke { .. } => true,
    }
}

/// Every tick among these calls belongs to this pass and arms nothing.
pub open(crate) spec fn all_resume(s: SchedulerState, calls: Seq<Call>, pass: PassIndex) -> bool
    decreases calls.len(),
{
    calls.len() == 0 || all_resume(s, calls.drop_last(), pass) && resumes(
        ran_from(s, calls.drop_last()),
        calls.last(),
        pass,
    )
}

/// One call while a pass is in progress.
proof fn lemma_resumed(s: SchedulerState, call: Call)
    requires
        inv(s),
        can_call(s, call),
        s.plan is Some,
    ensures
        ({
            let plan = s.plan->0;
            let t = called(s, call);
            &&& resumes(s, call, plan.pass)
            &&& completes(s, call) ==> offers_of(s, call) == plan.entries.skip(plan.next as int)
            &&& !completes(s, call) ==> {
                &&& t.plan is Some
                &&& t.plan->0.pass == plan.pass
                &&& t.plan->0.entries == plan.entries
                &&& plan.next <= t.plan->0.next <= plan.entries.len()
                &&& offers_of(s, call) == plan.entries.subrange(
                    plan.next as int,
                    t.plan->0.next as int,
                )
            }
        }),
{
    let plan = s.plan->0;
    match call {
        Call::Invoke { operation } => {
            assert(called(s, call).plan == s.plan);
            assert(plan.entries.subrange(plan.next as int, plan.next as int) =~= Seq::empty());
        },
        Call::Step { signals } => {
            lemma_awake_inv(s, signals);
            let idle = SchedulerState { plan: None, ..s.awake(signals) };
            let report = ReportState { pass: Some(plan.pass), ..s.opening_report(signals) };
            law_turns_follow_the_plan(idle, plan, report);
            lemma_traversal_frame(idle, plan, report);
            let (t, told) = s.stepped(signals);
            assert(offered_groups(report.offers) =~= Seq::empty());
            if told.progress is Completed {
                assert(offered_groups(told.offers) =~= plan.entries.skip(plan.next as int));
            } else {
                assert(offered_groups(told.offers) =~= plan.entries.subrange(
                    plan.next as int,
                    t.plan->0.next as int,
                ));
            }
        },
    }
}

/// Calls that do not complete the pass in progress.
proof fn lemma_all_resumed(s: SchedulerState, calls: Seq<Call>)
    requires
        inv(s),
        can_run_from(s, calls),
        s.plan is Some,
        unfinished(s, calls),
    ensures
        ({
            let plan = s.plan->0;
            let t = ran_from(s, calls);
            &&& inv(t)
            &&& t.plan is Some
            &&& t.plan->0.pass == plan.pass
            &&& t.plan->0.entries == plan.entries
            &&& plan.next <= t.plan->0.next <= plan.entries.len()
            &&& offers_from(s, calls) == plan.entries.subrange(
                plan.next as int,
                t.plan->0.next as int,
            )
            &&& all_resume(s, calls, plan.pass)
        }),
    decreases calls.len(),
{
    let plan = s.plan->0;
    lemma_ran_inv(s, calls);
    if calls.len() == 0 {
        assert(plan.entries.subrange(plan.next as int, plan.next as int) =~= Seq::empty());
    } else {
        let rest = calls.drop_last();
        lemma_all_resumed(s, rest);
        let u = ran_from(s, rest);
        lemma_resumed(u, calls.last());
        let t = ran_from(s, calls);
        assert(plan.entries.subrange(plan.next as int, u.plan->0.next as int)
            + plan.entries.subrange(u.plan->0.next as int, t.plan->0.next as int)
            =~= plan.entries.subrange(plan.next as int, t.plan->0.next as int));
    }
}

/// A pass is what its plan says, over as many ticks as it takes and whatever is asked in between: the
/// plan that a tick armed names each group that was ready then once and no other; the turns of that
/// tick and of the later ones, one after the other, are the plan in order, all of it when the pass is
/// completed; and every later tick belongs to the pass and arms nothing.
pub proof fn law_pass_offers_its_plan_in_order(
    s: SchedulerState,
    signals: Seq<ReadinessSignal>,
    calls: Seq<Call>,
)
    requires
        inv(s),
        can_call(s, Call::Step { signals }),
        s.stepped(signals).1.armed is Some,
        can_run_from(s.stepped(signals).0, calls),
        calls.len() > 0 ==> !(s.stepped(signals).1.progress is Completed) && unfinished(
            s.stepped(signals).0,
            calls.drop_last(),
        ),
    ensures
        ({
            let (t, report) = s.stepped(signals);
            let plan = report.armed->0;
            let offers = offered_groups(report.offers) + offers_from(t, calls);
            let done = if calls.len() == 0 {
                report.progress is Completed
            } else {
                completes(ran_from(t, calls.drop_last()), calls.last())
            };
            &&& forall|group: GroupId| #[trigger] plan.contains(group) <==> s.awake(signals).ready(
                group@ as int,
            )
            &&& forall|i: int, j: int| 0 <= i < j < plan.len() ==> plan[i] != plan[j]
            &&& report.pass is Some
            &&& all_resume(t, calls, report.pass->0)
            &&& done ==> offers == plan
            &&& !done ==> ran_from(t, calls).plan is Some && offers == plan.take(
                ran_from(t, calls).plan->0.next as int,
            )
        }),
{
    lemma_awake_inv(s, signals);
    let awake = s.awake(signals);
    law_plan_is_the_ready_set(awake);
    lemma_called_inv(s, Call::Step { signals });
    let (t, report) = s.stepped(signals);
    let opening = s.opening_report(signals);
    if awake.plan is Some {
        lemma_traversal_frame(
            SchedulerState { plan: None, ..awake },
            awake.plan->0,
            ReportState { pass: Some(awake.plan->0.pass), ..opening },
        );
    }
    let entries = awake.plan_order();
    let first = PlanState { pass: awake.next_pass, entries, next: 0 };
    let armed = SchedulerState { next_pass: PassIndex::at(awake.next_pass@ + 1), ..awake };
    let told = ReportState { pass: Some(awake.next_pass), armed: Some(entries), ..opening };
    law_turns_follow_the_plan(armed, first, told);
    lemma_traversal_frame(armed, first, told);
    assert(offered_groups(told.offers) =~= Seq::empty());
    assert(report.armed == Some(entries));
    let here = offered_groups(report.offers);
    if calls.len() == 0 {
        assert(here + offers_from(t, calls) =~= here);
        if report.progress is Completed {
            assert(here =~= entries);
        } else {
            assert(here =~= entries.take(t.plan->0.next as int));
        }
    } else {
        let rest = calls.drop_last();
        let at = t.plan->0.next as int;
        assert(here =~= entries.take(at));
        lemma_all_resumed(t, rest);
        let u = ran_from(t, rest);
        lemma_resumed(u, calls.last());
        let next = u.plan->0.next as int;
        let done = completes(u, calls.last());
        if done {
            assert(here + (entries.subrange(at, next) + entries.skip(next)) =~= entries);
        } else {
            let last = ran_from(t, calls).plan->0.next as int;
            assert(here + (entries.subrange(at, next) + entries.subrange(next, last))
                =~= entries.take(last));
        }
    }
}

} // verus!
