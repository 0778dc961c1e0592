//! Laws between the scheduler and its judge.

use vstd::prelude::*;

use crate::agreement::debts::{
    lemma_request_square, lemma_step_square, relapses, returned_after, square,
};
use crate::agreement::record::{
    all_taken, can_record, lemma_all_taken, lemma_folded, recorded, statements, step_recorded,
    turn_size, turns_recorded, Decision,
};
use crate::agreement::relation::{
    agree, lemma_entry, lemma_found, lemma_same_len, same_groups, settled_agree,
};
use crate::agreement::requests::lemma_invoked;
use crate::agreement::step::lemma_stepped;
use crate::agreement::turn::{lemma_occupied, lemma_ready, lemma_settled_debts};
use crate::history::{HistoryEvent, Operation};
use crate::model::laws::law_initial_state_reachable;
use crate::model::reachable::inv;
use crate::model::run::{
    answers, called, can_run, failures, lemma_called_inv, ran, run_answers, run_failures,
    run_services, services, Call,
};
use crate::model::state::{
    count_slots, departed, ids_where, slot_view, slot_views, GroupState, ReportState,
    SchedulerState,
};
use crate::oracle::fold::{count_groups, find_entry, fold_views, worst_gap, FoldState, GroupFold};
use crate::oracle::laws::{law_certified_means_sound_and_fair, some_group_denied};
use crate::types::{
    GroupId, Offer, PassIndex, ReadinessSignal, SchedulerConfig, ServiceRecord, TickIndex,
};

verus! {

// ---------------------------------------------------------------------- views

/// Number of entries below slot `n`.
spec fn splits(f: FoldState, n: int, k: int) -> bool {
    &&& 0 <= k <= f.groups.len()
    &&& forall|i: int| 0 <= i < k ==> (#[trigger] f.groups[i]).group@ < n
    &&& forall|i: int| k <= i < f.groups.len() ==> (#[trigger] f.groups[i]).group@ >= n
}

/// One more slot moves the split past its entry, when it has one.
proof fn lemma_split(s: SchedulerState, f: FoldState, n: int, k: int)
    requires
        inv(s),
        same_groups(s, f),
        0 <= n < s.slots.len(),
        splits(f, n, k),
    ensures
        s.slots[n] is Some ==> k < f.groups.len() && f.groups[k].group == GroupId::at(n) && splits(
            f,
            n + 1,
            k + 1,
        ),
        s.slots[n] is None ==> splits(f, n + 1, k),
{
    let group = GroupId::at(n);
    assert(group@ == n);
    assert(s.slot(group) == s.slots[n]);
    lemma_entry(s, f, group);
    if s.slots[n] is Some {
        let i = find_entry(f.groups, group)->0;
        assert(f.groups[i].group@ == n);
        assert(i >= k);
        if i > k {
            assert(f.groups[k].group@ < f.groups[i].group@);
            assert(f.groups[k].group@ >= n);
        }
        assert forall|j: int| k + 1 <= j < f.groups.len() implies (#[trigger] f.groups[j]).group@ >= n
            + 1 by {
            assert(f.groups[k].group@ < f.groups[j].group@);
        }
    } else {
        assert forall|j: int| k <= j < f.groups.len() implies (#[trigger] f.groups[j]).group@ >= n + 1 by {
            assert(s.slot(f.groups[j].group) is Some);
        }
    }
}

/// The views of the first `n` slots are the views of the entries below `n`, and whatever is counted
/// alike counts alike.
proof fn lemma_views(
    s: SchedulerState,
    f: FoldState,
    n: int,
    pred: spec_fn(GroupState) -> bool,
    other: spec_fn(GroupFold) -> bool,
) -> (k: int)
    requires
        inv(s),
        settled_agree(s, f),
        0 <= n <= s.slots.len(),
        forall|i: int|
            0 <= i < f.groups.len() ==> other(#[trigger] f.groups[i]) == pred(
                s.slot(f.groups[i].group)->0,
            ),
    ensures
        splits(f, n, k),
        slot_views(s.slots.take(n)) == fold_views(f).take(k),
        count_slots(s.slots.take(n), pred) == count_groups(f.groups, k, other),
        ids_where(0, n, |id: int| s.ready(id)).len() == count_groups(
            f.groups,
            k,
            |g: GroupFold| f.is_ready(g.group),
        ),
    decreases n,
{
    if n == 0 {
        assert(s.slots.take(0) =~= Seq::empty());
        assert(fold_views(f).take(0) =~= Seq::empty());
        0
    } else {
        let k = lemma_views(s, f, n - 1, pred, other);
        lemma_split(s, f, n - 1, k);
        assert(s.slots.take(n).drop_last() =~= s.slots.take(n - 1));
        assert(s.slots.take(n).last() == s.slots[n - 1]);
        let group = GroupId::at(n - 1);
        lemma_ready(s, f, group);
        if s.slots[n - 1] is Some {
            let slot = s.slots[n - 1]->0;
            assert(s.slot(group) == Some(slot));
            lemma_entry(s, f, group);
            lemma_found(f.groups, k);
            lemma_same_len(slot.queue, f.groups[k].queue);
            lemma_occupied(s, f, group);
            assert(fold_views(f)[k] == slot_view(group, slot));
            assert(fold_views(f).take(k + 1) =~= fold_views(f).take(k).push(
                slot_view(group, slot),
            ));
            assert(other(f.groups[k]) == pred(slot));
            k + 1
        } else {
            assert(!s.ready(n - 1));
            k
        }
    }
}

/// A judge that agrees with the scheduler has the same view: every slot ever created, once each, in
/// ascending order.
pub proof fn law_views_agree(s: SchedulerState, f: FoldState)
    requires
        inv(s),
        agree(s, f),
    ensures
        fold_views(f.finished()) == slot_views(s.slots),
        f.finished().queued == s.queued,
        f.finished().violation is None,
        forall|i: int, j: int|
            0 <= i < j < fold_views(f.finished()).len() ==> (#[trigger] fold_views(
                f.finished(),
            )[i]).group@ < (#[trigger] fold_views(f.finished())[j]).group@,
        forall|group: GroupId|
            s.slot(group) is Some <==> #[trigger] f.finished().entry(group) is Some,
{
    let g = f.settled();
    assert(f.finished() == g);
    let k = lemma_views(s, g, s.slots.len() as int, |slot: GroupState| true, |e: GroupFold| true);
    assert(k == g.groups.len()) by {
        if k < g.groups.len() {
            assert(s.slot(g.groups[k].group) is Some);
        }
    }
    assert(s.slots.take(s.slots.len() as int) =~= s.slots);
    assert(fold_views(g).take(k) =~= fold_views(g));
    assert forall|group: GroupId| s.slot(group) is Some <==> #[trigger] g.entry(group) is Some by {
        lemma_entry(s, g, group);
    }
}

/// A judge that agrees with the scheduler has the same summary.
pub proof fn law_summaries_agree(s: SchedulerState, f: FoldState)
    requires
        inv(s),
        agree(s, f),
    ensures
        ({
            let g = f.finished();
            let n = g.groups.len() as int;
            &&& count_groups(
                g.groups,
                n,
                |e: GroupFold| !(e.state is Removed || e.state is Tombstoned),
            ) == count_slots(s.slots, |slot: GroupState| !departed(slot))
            &&& count_groups(g.groups, n, |e: GroupFold| e.poisoned) == count_slots(
                s.slots,
                |slot: GroupState| slot.poisoned,
            )
            &&& count_groups(g.groups, n, |e: GroupFold| g.is_ready(e.group))
                == s.ready_ids().len()
            &&& g.queued == s.queued
            &&& g.admitted == s.admitted
            &&& g.serviced == s.serviced
            &&& g.failed == s.failed
        }),
{
    let g = f.settled();
    assert(f.finished() == g);
    let live = |slot: GroupState| !departed(slot);
    let live_fold = |e: GroupFold| !(e.state is Removed || e.state is Tombstoned);
    let sick = |slot: GroupState| slot.poisoned;
    let sick_fold = |e: GroupFold| e.poisoned;
    assert forall|i: int| 0 <= i < g.groups.len() implies live_fold(#[trigger] g.groups[i]) == live(
        s.slot(g.groups[i].group)->0,
    ) && sick_fold(g.groups[i]) == sick(s.slot(g.groups[i].group)->0) by {
        assert(s.slot(g.groups[i].group) is Some);
    }
    let k = lemma_views(s, g, s.slots.len() as int, live, live_fold);
    let j = lemma_views(s, g, s.slots.len() as int, sick, sick_fold);
    assert(s.slots.take(s.slots.len() as int) =~= s.slots);
    assert(k == g.groups.len() && j == g.groups.len()) by {
        if k < g.groups.len() {
            assert(s.slot(g.groups[k].group) is Some);
        }
        if j < g.groups.len() {
            assert(s.slot(g.groups[j].group) is Some);
        }
    }
}

// ---------------------------------------------------------------------- calls

/// The judge follows the scheduler: from agreement, a call and the events recorded of it lead to
/// agreement again. The judge derives the answer the scheduler gave, the services and the failures
/// it reported, the same view and the same counts, and finds no fault.
pub proof fn law_judge_follows_the_scheduler(s: SchedulerState, f: FoldState, call: Call)
    requires
        inv(s),
        agree(s, f),
        can_record(s, call),
    ensures
        ({
            let t = called(s, call);
            let g = all_taken(f, recorded(s, call));
            &&& inv(t)
            &&& agree(t, g)
            &&& g.outcomes == f.outcomes + answers(s, call)
            &&& g.services == f.services + services(s, call)
            &&& g.failures == f.failures + failures(s, call)
            &&& fold_views(g.finished()) == slot_views(t.slots)
            &&& g.finished().queued == t.queued
            &&& g.finished().admitted == t.admitted
            &&& g.finished().serviced == t.serviced
            &&& g.finished().failed == t.failed
            &&& g.finished().violation is None
        }),
{
    let t = called(s, call);
    let g = all_taken(f, recorded(s, call));
    lemma_called_inv(s, call);
    match call {
        Call::Invoke { operation } => {
            lemma_invocation_followed(s, f, operation);
        },
        Call::Step { signals } => {
            lemma_step_followed(s, f, signals);
        },
    }
    law_views_agree(t, g);
    law_summaries_agree(t, g);
}

/// The judge follows a request.
proof fn lemma_invocation_followed(s: SchedulerState, f: FoldState, operation: Operation)
    requires
        inv(s),
        agree(s, f),
        can_record(s, Call::Invoke { operation }),
    ensures
        ({
            let call = Call::Invoke { operation };
            let g = all_taken(f, recorded(s, call));
            &&& agree(called(s, call), g)
            &&& g == f.settled().invoked(operation)
            &&& g.settled() == g
            &&& g.outcomes == f.outcomes + answers(s, call)
            &&& g.services == f.services + services(s, call)
            &&& g.failures == f.failures + failures(s, call)
        }),
{
    lemma_settled_debts(f);
    let h = f.settled();
    lemma_invoked(s, h, operation);
    let one = seq![Decision::Invoked { operation }];
    assert(one.drop_last() =~= Seq::empty());
    assert(all_taken(f, Seq::empty()) == f);
    assert(all_taken(f, one) == h.invoked(operation));
    assert(f.services + Seq::empty() =~= f.services);
}

/// The judge follows a tick.
proof fn lemma_step_followed(s: SchedulerState, f: FoldState, signals: Seq<ReadinessSignal>)
    requires
        inv(s),
        agree(s, f),
        can_record(s, Call::Step { signals }),
    ensures
        ({
            let call = Call::Step { signals };
            let g = all_taken(f, recorded(s, call));
            &&& agree(called(s, call), g)
            &&& g.settled() == all_taken(f.settled(), recorded(s, call)).settled()
            &&& g.outcomes == f.outcomes + answers(s, call)
            &&& g.services == f.services + services(s, call)
            &&& g.failures == f.failures + failures(s, call)
        }),
{
    let all = recorded(s, Call::Step { signals });
    let report = s.stepped(signals).1;
    lemma_settled_debts(f);
    let h = f.settled();
    lemma_stepped(s, h, signals);
    lemma_step_opens(signals, report);
    lemma_from_settled(f, all);
    lemma_settled_debts(all_taken(h, all));
    assert(f.outcomes + Seq::empty() =~= f.outcomes);
    assert(f.failures + Seq::empty() =~= f.failures);
    if all.len() == 0 {
        assert(all =~= Seq::empty());
        assert(all_taken(f, all) == f);
        assert(all_taken(h, all) == h);
    }
}

/// Turns are recorded from an offer on.
proof fn lemma_turns_open(
    pass: PassIndex,
    tick: TickIndex,
    offers: Seq<Offer>,
    serviced: Seq<ServiceRecord>,
)
    ensures
        turns_recorded(pass, tick, offers, serviced).len() > 0 ==> turns_recorded(
            pass,
            tick,
            offers,
            serviced,
        )[0] is Offered,
    decreases offers.len(),
{
    if offers.len() > 0 {
        let cut = serviced.len() - turn_size(offers.last().outcome);
        lemma_turns_open(pass, tick, offers.drop_last(), serviced.take(cut));
    }
}

/// A tick is not recorded from a service on.
proof fn lemma_step_opens(signals: Seq<ReadinessSignal>, report: ReportState)
    ensures
        step_recorded(signals, report).len() > 0 ==> !(step_recorded(signals, report)[0] is Serviced)
            && !(step_recorded(signals, report)[0] is Observed),
{
    lemma_turns_open(report.pass->0, TickIndex(report.tick), report.offers, report.serviced);
}

/// What is recorded of a tick is taken in alike before and after the turn in progress is settled,
/// unless nothing is recorded.
proof fn lemma_from_settled(f: FoldState, decisions: Seq<Decision>)
    requires
        decisions.len() > 0 ==> !(decisions[0] is Serviced) && !(decisions[0] is Observed),
    ensures
        decisions.len() > 0 ==> all_taken(f, decisions) == all_taken(f.settled(), decisions),
        decisions.len() == 0 ==> all_taken(f, decisions).settled() == all_taken(
            f.settled(),
            decisions,
        ),
    decreases decisions.len(),
{
    lemma_settled_debts(f);
    if decisions.len() == 1 {
        assert(decisions.drop_last() =~= Seq::empty());
        assert(all_taken(f, Seq::empty()) == f);
        assert(all_taken(f.settled(), Seq::empty()) == f.settled());
    } else if decisions.len() > 1 {
        lemma_from_settled(f, decisions.drop_last());
    }
}

// ----------------------------------------------------------------------- runs

/// Everything recorded of a run, in order.
pub open(crate) spec fn run_recorded(config: SchedulerConfig, calls: Seq<Call>) -> Seq<Decision>
    decreases calls.len(),
{
    if calls.len() == 0 {
        Seq::empty()
    } else {
        run_recorded(config, calls.drop_last()) + recorded(
            ran(config, calls.drop_last()),
            calls.last(),
        )
    }
}

/// Every one of these calls can be made, and leaves one tick of the clock in reserve.
pub open(crate) spec fn can_record_run(config: SchedulerConfig, calls: Seq<Call>) -> bool
    decreases calls.len(),
{
    calls.len() == 0 || can_record_run(config, calls.drop_last()) && can_record(
        ran(config, calls.drop_last()),
        calls.last(),
    )
}

/// A new judge agrees with a new scheduler.
pub proof fn law_new_judge_agrees(config: SchedulerConfig)
    ensures
        agree(SchedulerState::initial(config), FoldState::initial(config)),
{
}

/// A run that can be recorded can be made.
proof fn lemma_can_run(config: SchedulerConfig, calls: Seq<Call>)
    requires
        can_record_run(config, calls),
    ensures
        can_run(config, calls),
    decreases calls.len(),
{
    if calls.len() > 0 {
        lemma_can_run(config, calls.drop_last());
    }
}

/// The judge follows a whole run.
proof fn lemma_run_followed(config: SchedulerConfig, calls: Seq<Call>)
    requires
        config.valid(),
        can_record_run(config, calls),
    ensures
        ({
            let f = all_taken(FoldState::initial(config), run_recorded(config, calls));
            &&& inv(ran(config, calls))
            &&& agree(ran(config, calls), f)
            &&& f.outcomes == run_answers(config, calls)
            &&& f.services == run_services(config, calls)
            &&& f.failures == run_failures(config, calls)
        }),
    decreases calls.len(),
{
    if calls.len() == 0 {
        law_new_judge_agrees(config);
        law_initial_state_reachable(config);
    } else {
        let rest = calls.drop_last();
        lemma_run_followed(config, rest);
        let s = ran(config, rest);
        let f = all_taken(FoldState::initial(config), run_recorded(config, rest));
        law_judge_follows_the_scheduler(s, f, calls.last());
        lemma_all_taken(
            FoldState::initial(config),
            run_recorded(config, rest),
            recorded(s, calls.last()),
        );
    }
}

/// A run of a new scheduler, recorded, replays: whatever callers concluded in between, the history
/// implies the answers, services and failures that the scheduler gave, its view and its summary, and
/// no check fails.
pub proof fn law_recorded_run_replays(
    config: SchedulerConfig,
    calls: Seq<Call>,
    log: Seq<HistoryEvent>,
)
    requires
        config.valid(),
        can_record_run(config, calls),
        statements(log) == run_recorded(config, calls),
    ensures
        ({
            let s = ran(config, calls);
            let f = FoldState::folded(config, log).finished();
            let n = f.groups.len() as int;
            &&& f.violation is None
            &&& f.outcomes == run_answers(config, calls)
            &&& f.services == run_services(config, calls)
            &&& f.failures == run_failures(config, calls)
            &&& fold_views(f) == slot_views(s.slots)
            &&& f.queued == s.queued
            &&& f.admitted == s.admitted
            &&& f.serviced == s.serviced
            &&& f.failed == s.failed
            &&& count_groups(
                f.groups,
                n,
                |e: GroupFold| !(e.state is Removed || e.state is Tombstoned),
            ) == count_slots(s.slots, |slot: GroupState| !departed(slot))
            &&& count_groups(f.groups, n, |e: GroupFold| e.poisoned) == count_slots(
                s.slots,
                |slot: GroupState| slot.poisoned,
            )
            &&& count_groups(f.groups, n, |e: GroupFold| f.is_ready(e.group))
                == s.ready_ids().len()
        }),
{
    lemma_folded(config, log);
    lemma_run_followed(config, calls);
    let f = FoldState::folded(config, log);
    law_views_agree(ran(config, calls), f);
    law_summaries_agree(ran(config, calls), f);
    lemma_settled_debts(f);
}

/// Groups whose stall was broken since a plan was last armed.
pub open(crate) spec fn run_returned(config: SchedulerConfig, calls: Seq<Call>) -> Set<GroupId>
    decreases calls.len(),
{
    if calls.len() == 0 {
        Set::empty()
    } else {
        returned_after(
            ran(config, calls.drop_last()),
            run_returned(config, calls.drop_last()),
            calls.last(),
        )
    }
}

/// Somewhere in the run, a stalled group is reported available, and stalled again before a plan is
/// armed.
pub open(crate) spec fn run_relapses(config: SchedulerConfig, calls: Seq<Call>) -> bool
    decreases calls.len(),
{
    calls.len() > 0 && (run_relapses(config, calls.drop_last()) || relapses(
        ran(config, calls.drop_last()),
        run_returned(config, calls.drop_last()),
        calls.last(),
    ))
}

/// Nobody is denied a turn in a run without relapse.
proof fn lemma_run_square(config: SchedulerConfig, calls: Seq<Call>)
    requires
        config.valid(),
        can_record_run(config, calls),
        !run_relapses(config, calls),
    ensures
        square(
            ran(config, calls),
            all_taken(FoldState::initial(config), run_recorded(config, calls)).settled(),
            run_returned(config, calls),
        ),
    decreases calls.len(),
{
    let start = FoldState::initial(config);
    if calls.len() > 0 {
        let rest = calls.drop_last();
        lemma_run_square(config, rest);
        lemma_run_followed(config, rest);
        lemma_run_followed(config, calls);
        let s = ran(config, rest);
        let f = all_taken(start, run_recorded(config, rest));
        let h = f.settled();
        let returned = run_returned(config, rest);
        lemma_settled_debts(f);
        lemma_all_taken(start, run_recorded(config, rest), recorded(s, calls.last()));
        match calls.last() {
            Call::Invoke { operation } => {
                lemma_invocation_followed(s, f, operation);
                lemma_request_square(s, h, operation, returned);
            },
            Call::Step { signals } => {
                lemma_step_followed(s, f, signals);
                lemma_step_square(s, h, signals, returned);
                lemma_settled_square(
                    ran(config, calls),
                    all_taken(h, recorded(s, calls.last())),
                    run_returned(config, calls),
                );
            },
        }
    }
}

/// Settling leaves everything square.
proof fn lemma_settled_square(s: SchedulerState, f: FoldState, returned: Set<GroupId>)
    requires
        square(s, f, returned),
    ensures
        square(s, f.settled(), returned),
{
    lemma_settled_debts(f);
    let g = f.settled();
    assert forall|i: int| 0 <= i < g.groups.len() implies (#[trigger] g.groups[i]).gap.worst == 0 && (
    g.groups[i].restored ==> returned.contains(g.groups[i].group)) by {
        assert(f.groups[i].gap.worst == 0);
    }
}

/// A run in which no group relapses is certified: no check fails and nobody is denied a turn. A group
/// relapses when it is stalled, reported available, and stalled again before a plan is armed: the
/// judge then holds that the plan owes it a turn, and the scheduler goes by the last report.
pub proof fn law_recorded_run_is_certified(
    config: SchedulerConfig,
    calls: Seq<Call>,
    log: Seq<HistoryEvent>,
)
    requires
        config.valid(),
        can_record_run(config, calls),
        statements(log) == run_recorded(config, calls),
        !run_relapses(config, calls),
    ensures
        FoldState::folded(config, log).finished().verdict() is None,
        worst_gap(FoldState::folded(config, log).finished().groups) == 0,
{
    lemma_folded(config, log);
    lemma_run_followed(config, calls);
    lemma_run_square(config, calls);
    law_views_agree(ran(config, calls), FoldState::folded(config, log));
    let f = FoldState::folded(config, log).finished();
    assert(f == FoldState::folded(config, log).settled());
    assert(!some_group_denied(f));
    law_certified_means_sound_and_fair(f);
}

} // verus!
