//! What the fairness report of a history says of the events in it.

use vstd::prelude::*;

use crate::history::{HistoryEvent, Operation};
use crate::oracle::fold::{find_entry, FoldState};
use crate::oracle::laws::{
    law_certified_means_sound_and_fair, law_every_item_is_accounted_for, law_first_fault_stands,
};
use crate::oracle::site::{FaultSite, SchedulingViolation};
use crate::oracle::sound::{
    armed_plans, entry_ok, event_ok, fold_ok, lemma_entry_at, lemma_plan_judged, lemma_plans_folded,
    lemma_reached_ok, lemma_settled_ok,
};
use crate::oracle::{judges, FairnessReport, ReferenceScheduler};
use crate::types::{GroupId, PassIndex, SchedulerConfig, TickIndex};

verus! {

/// Number of plans that a history retires.
pub open spec fn retired_plans(log: Seq<HistoryEvent>) -> nat
    decreases log.len(),
{
    if log.len() == 0 {
        0
    } else {
        retired_plans(log.drop_last()) + if log.last() is PassCompleted {
            1nat
        } else {
            0nat
        }
    }
}

/// Number of turns that a history hands out.
pub open spec fn offered_turns(log: Seq<HistoryEvent>) -> nat
    decreases log.len(),
{
    if log.len() == 0 {
        0
    } else {
        offered_turns(log.drop_last()) + if log.last() is GroupOffered {
            1nat
        } else {
            0nat
        }
    }
}

/// The event at `i` arms a plan of `n` groups.
pub open spec fn arms(log: Seq<HistoryEvent>, i: int, n: nat) -> bool {
    &&& 0 <= i < log.len()
    &&& log[i] matches HistoryEvent::PassArmed { plan, .. } && plan@.len() == n
}

/// A length as a count states it.
spec fn stated(n: nat) -> nat {
    if n > u32::MAX {
        u32::MAX as nat
    } else {
        n
    }
}

/// No plan is wider than `w`, and some plan is as wide, unless there is none.
spec fn is_widest(log: Seq<HistoryEvent>, w: u32) -> bool {
    &&& forall|i: int, n: nat| #[trigger] arms(log, i, n) ==> stated(n) <= w
    &&& w > 0 ==> exists|i: int, n: nat| #[trigger] arms(log, i, n) && stated(n) == w
}

/// The numbers of the report are those of another state.
spec fn same_numbers(s: FoldState, t: FoldState) -> bool {
    &&& t.opportunities == s.opportunities
    &&& t.passes_completed == s.passes_completed
    &&& t.widest_plan == s.widest_plan
}

proof fn lemma_requests_count_nothing(s: FoldState, operation: Operation)
    ensures
        same_numbers(s, s.invoked(operation)),
{
}

proof fn lemma_services_count_nothing(s: FoldState, event: HistoryEvent)
    requires
        event is WorkServiced,
    ensures
        same_numbers(s, s.absorbed(event)),
{
}

proof fn lemma_judging_counts_nothing(s: FoldState, pass: PassIndex, plan: Seq<GroupId>, n: nat)
    ensures
        same_numbers(s, s.plan_judged(pass, plan, n)),
    decreases n,
{
    if n > 0 {
        lemma_judging_counts_nothing(s, pass, plan, (n - 1) as nat);
    }
}

/// The state in which an armed plan is judged.
spec fn before_judging(s: FoldState, pass: PassIndex, tick: TickIndex) -> FoldState {
    s.judged(
        s.open is Some,
        FaultSite::ArmedOverAnOpenPass,
        SchedulingViolation::PassArmedWhileOpen { open: s.open->0.pass, armed: pass },
    ).judged(
        pass != s.next_pass,
        FaultSite::ArmedOutOfOrder,
        SchedulingViolation::PassOutOfOrder { expected: s.next_pass, observed: pass },
    ).judged(
        s.last_armed is Some && tick@ <= s.last_armed->0@,
        FaultSite::ArmedTickReused,
        SchedulingViolation::PassBoundaryReused { pass, tick },
    )
}

/// What one more event does to the numbers of the report.
proof fn lemma_counted(s: FoldState, event: HistoryEvent)
    ensures
        s.absorbed(event).opportunities == s.opportunities + if event is GroupOffered {
            1nat
        } else {
            0nat
        },
        s.absorbed(event).violation is None ==> s.absorbed(event).passes_completed
            == s.passes_completed + if event is PassCompleted {
            1nat
        } else {
            0nat
        },
        event matches HistoryEvent::PassArmed { plan, .. } ==> s.absorbed(event).widest_plan == (
        if stated(plan@.len()) > s.widest_plan {
            stated(plan@.len())
        } else {
            s.widest_plan as nat
        }),
        !(event is PassArmed) ==> s.absorbed(event).widest_plan == s.widest_plan,
{
    let t = if s.continues(event) {
        s
    } else {
        s.settled()
    };
    assert(same_numbers(s, t));
    match event {
        HistoryEvent::Invoked { operation, .. } => {
            lemma_requests_count_nothing(t, operation);
        },
        HistoryEvent::PassArmed { pass, tick, plan } => {
            let r = t.reached(tick);
            assert(same_numbers(t, r));
            lemma_judging_counts_nothing(before_judging(r, pass, tick), pass, plan@, plan@.len());
        },
        HistoryEvent::WorkServiced { .. } => {
            lemma_services_count_nothing(s, event);
        },
        HistoryEvent::WorkerReleased { tick, group } => {
            assert(same_numbers(t, t.release(tick, group)));
        },
        _ => {},
    }
}

/// A history without a fault has none in its beginning either.
proof fn lemma_sound_before(config: SchedulerConfig, log: Seq<HistoryEvent>)
    requires
        log.len() > 0,
        FoldState::folded(config, log).violation is None,
    ensures
        FoldState::folded(config, log.drop_last()).violation is None,
{
    if FoldState::folded(config, log.drop_last()).violation is Some {
        law_first_fault_stands(FoldState::folded(config, log.drop_last()), log.last());
    }
}

/// The numbers of the report count the events.
proof fn lemma_numbers(config: SchedulerConfig, log: Seq<HistoryEvent>)
    ensures
        FoldState::folded(config, log).opportunities == offered_turns(log),
        FoldState::folded(config, log).violation is None ==> FoldState::folded(
            config,
            log,
        ).passes_completed == retired_plans(log),
        is_widest(log, FoldState::folded(config, log).widest_plan),
    decreases log.len(),
{
    let s = FoldState::folded(config, log);
    if log.len() > 0 {
        let rest = log.drop_last();
        let before = FoldState::folded(config, rest);
        lemma_numbers(config, rest);
        lemma_counted(before, log.last());
        if s.violation is None {
            lemma_sound_before(config, log);
        }
        assert forall|i: int, n: nat| #[trigger] arms(log, i, n) implies stated(n)
            <= s.widest_plan by {
            if i < rest.len() {
                assert(arms(rest, i, n));
            }
        }
        if s.widest_plan > 0 {
            if s.widest_plan == before.widest_plan {
                let (i, n) = choose|i: int, n: nat| #[trigger]
                    arms(rest, i, n) && stated(n) == before.widest_plan;
                assert(arms(log, i, n));
            } else {
                let n = log.last()->PassArmed_plan@.len();
                assert(arms(log, log.len() - 1, n));
            }
        }
    }
}

// ------------------------------------------------------------------ plan size

/// A plan that is judged without a fault names ready groups, each once.
proof fn lemma_sound_plan(s: FoldState, pass: PassIndex, plan: Seq<GroupId>, n: nat)
    requires
        n <= plan.len(),
        s.plan_judged(pass, plan, n).violation is None,
    ensures
        s.violation is None,
        forall|i: int| 0 <= i < n ==> s.is_ready(#[trigger] plan[i]),
        forall|i: int, j: int| 0 <= i < j < n ==> plan[i] != plan[j],
    decreases n,
{
    if n > 0 {
        lemma_sound_plan(s, pass, plan, (n - 1) as nat);
        assert forall|i: int, j: int| 0 <= i < j < n implies plan[i] != plan[j] by {
            if j == n - 1 {
                assert(plan.take(n - 1)[i] == plan[i]);
            }
        }
    }
}

/// Numbers below a bound, each once, are no more than the bound.
proof fn lemma_distinct_numbers(plan: Seq<GroupId>, bound: nat)
    requires
        forall|i: int| 0 <= i < plan.len() ==> (#[trigger] plan[i])@ < bound,
        forall|i: int, j: int| 0 <= i < j < plan.len() ==> plan[i] != plan[j],
    ensures
        plan.len() <= bound,
    decreases bound,
{
    if plan.len() > 0 {
        if exists|k: int| 0 <= k < plan.len() && (#[trigger] plan[k])@ == bound - 1 {
            let k = choose|k: int| 0 <= k < plan.len() && (#[trigger] plan[k])@ == bound - 1;
            let rest = plan.remove(k);
            assert forall|i: int| 0 <= i < rest.len() implies (#[trigger] rest[i])@ < bound - 1 by {
                let j = if i < k {
                    i
                } else {
                    i + 1
                };
                assert(rest[i] == plan[j]);
                assert(plan[j] != plan[k]);
            }
            assert forall|i: int, j: int| 0 <= i < j < rest.len() implies rest[i] != rest[j] by {
                let a = if i < k {
                    i
                } else {
                    i + 1
                };
                let b = if j < k {
                    j
                } else {
                    j + 1
                };
                assert(plan[a] != plan[b]);
            }
            lemma_distinct_numbers(rest, (bound - 1) as nat);
        } else {
            assert(plan[0]@ < bound);
            lemma_distinct_numbers(plan, (bound - 1) as nat);
        }
    }
}

/// A plan that raises no fault is no larger than the table.
proof fn lemma_plan_fits(s: FoldState, event: HistoryEvent, n: nat)
    requires
        fold_ok(s, n),
        event is PassArmed,
        s.absorbed(event).violation is None,
    ensures
        event->PassArmed_plan@.len() <= u32::MAX,
{
    let pass = event->PassArmed_pass;
    let tick = event->PassArmed_tick;
    let plan = event->PassArmed_plan@;
    lemma_settled_ok(s, n);
    lemma_reached_ok(s.settled(), tick, n);
    let r = s.settled().reached(tick);
    let ordered = before_judging(r, pass, tick);
    lemma_plan_judged(ordered, pass, plan, plan.len());
    lemma_sound_plan(ordered, pass, plan, plan.len());
    assert forall|i: int| 0 <= i < plan.len() implies (#[trigger] plan[i])@ < u32::MAX by {
        assert(ordered.is_ready(plan[i]));
        lemma_entry_at(ordered.groups, plan[i]);
        let k = find_entry(ordered.groups, plan[i])->0;
        assert(entry_ok(r.groups[k], r.config, r.passes_armed));
    }
    lemma_distinct_numbers(plan, u32::MAX as nat);
}

/// No plan of a sound history is larger than a count can state.
proof fn lemma_plans_fit(config: SchedulerConfig, log: Seq<HistoryEvent>, i: int, n: nat)
    requires
        config.valid(),
        forall|k: int| 0 <= k < log.len() ==> event_ok(#[trigger] log[k]),
        FoldState::folded(config, log).violation is None,
        arms(log, i, n),
    ensures
        n <= u32::MAX,
    decreases log.len(),
{
    let rest = log.drop_last();
    assert forall|k: int| 0 <= k < rest.len() implies event_ok(#[trigger] rest[k]) by {
        assert(rest[k] == log[k]);
    }
    lemma_sound_before(config, log);
    if i == log.len() - 1 {
        law_every_item_is_accounted_for(config, rest);
        lemma_plan_fits(FoldState::folded(config, rest), log.last(), rest.len());
    } else {
        assert(arms(rest, i, n));
        lemma_plans_fit(config, rest, i, n);
    }
}

/// The report of a certified history counts its events: one armed plan, retired plan and turn for each
/// event that states one. Its widest plan is as wide as every plan that was armed, and as wide as one
/// of them, or zero when none was. No turn that was owed was withheld.
pub proof fn law_report_counts_the_history(judge: ReferenceScheduler, report: FairnessReport)
    requires
        judge.bounds().valid(),
        forall|i: int| 0 <= i < judge.recorded().len() ==> event_ok(#[trigger] judge.recorded()[i]),
        judges(Ok(report), judge.implied()),
    ensures
        report.passes_armed == armed_plans(judge.recorded()),
        report.passes_completed == retired_plans(judge.recorded()),
        report.opportunities == offered_turns(judge.recorded()),
        forall|i: int, n: nat| #[trigger]
            arms(judge.recorded(), i, n) ==> n <= report.widest_plan,
        report.widest_plan > 0 ==> exists|i: int| #[trigger]
            arms(judge.recorded(), i, report.widest_plan as nat),
        report.widest_gap == 0,
{
    let config = judge.bounds();
    let log = judge.recorded();
    let s = FoldState::folded(config, log);
    let end = s.finished();
    law_every_item_is_accounted_for(config, log);
    law_certified_means_sound_and_fair(end);
    if s.violation is Some {
        law_first_fault_stands(s, arbitrary());
    }
    assert(same_numbers(s, end));
    lemma_plans_folded(config, log);
    lemma_numbers(config, log);
    assert forall|i: int, n: nat| #[trigger] arms(log, i, n) implies n <= report.widest_plan by {
        lemma_plans_fit(config, log, i, n);
    }
    if report.widest_plan > 0 {
        let (i, n) = choose|i: int, n: nat| #[trigger]
            arms(log, i, n) && stated(n) == s.widest_plan;
        lemma_plans_fit(config, log, i, n);
        assert(arms(log, i, report.widest_plan as nat));
    }
}

} // verus!
