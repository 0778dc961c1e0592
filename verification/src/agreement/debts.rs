//! What a run owes the groups whose stalls were broken.

use vstd::prelude::*;

use crate::agreement::record::{
    all_taken, clock, lemma_all_taken, releases_recorded, signals_recorded, step_recorded, taken,
    Decision,
};
use crate::agreement::relation::{
    ascending, lemma_found, lemma_updated, paid_from, same_groups, settled_agree,
};
use crate::agreement::requests::lemma_same_tables;
use crate::agreement::step::{
    before_turns, lemma_signals, lemma_stepped, lemma_stepped_frame, lemma_woken, waking, woken,
};
use crate::agreement::turn::{lemma_ready, same_debts};
use crate::history::Operation;
use crate::model::reachable::{
    core_inv, group_ok, inv, lemma_all_signalled_inv, lemma_armed, lemma_awake_inv,
    lemma_core_frame, lemma_first_free, lemma_offered, lemma_plan_order, lemma_served,
    lemma_turn_len, owed, plan_ok,
};
use crate::model::run::{called, Call};
use crate::model::state::{first_free, PlanState, ReportState, SchedulerState};
use crate::oracle::fold::{find_entry, rank_of, FoldState, GroupFold};
use crate::oracle::sound::{lemma_entry_at, lemma_rank};
use crate::types::{GroupId, Offer, PassIndex, ReadinessSignal, TickIndex};

verus! {

/// Groups in `returned`, and those that these reports found stalled and made available.
pub open spec fn returned_by(
    s: SchedulerState,
    returned: Set<GroupId>,
    signals: Seq<ReadinessSignal>,
) -> Set<GroupId>
    decreases signals.len(),
{
    if signals.len() == 0 {
        returned
    } else {
        let rest = signals.drop_last();
        let last = signals.last();
        let before = returned_by(s, returned, rest);
        let slot = s.all_signalled(rest).slot(last.group);
        if last.availability is Available && slot is Some && slot->0.stalled {
            before.insert(last.group)
        } else {
            before
        }
    }
}

/// Some of these reports stalls a group that returned before.
pub open spec fn relapsed(
    s: SchedulerState,
    returned: Set<GroupId>,
    signals: Seq<ReadinessSignal>,
) -> bool
    decreases signals.len(),
{
    signals.len() > 0 && (relapsed(s, returned, signals.drop_last())
        || signals.last().availability is Stalled && returned_by(
        s,
        returned,
        signals.drop_last(),
    ).contains(signals.last().group))
}

/// Groups whose stall was broken since a plan was last armed, after this call.
pub open(crate) spec fn returned_after(
    s: SchedulerState,
    returned: Set<GroupId>,
    call: Call,
) -> Set<GroupId> {
    match call {
        Call::Invoke { .. } => returned,
        Call::Step { signals } => if s.stepped(signals).1.armed is Some {
            Set::empty()
        } else {
            returned_by(s, returned, signals)
        },
    }
}

/// The call stalls a group whose stall was broken since a plan was last armed.
pub open spec fn relapses(s: SchedulerState, returned: Set<GroupId>, call: Call) -> bool {
    match call {
        Call::Invoke { .. } => false,
        Call::Step { signals } => relapsed(s, returned, signals),
    }
}

/// Nobody was denied a turn; only groups that returned are owed one for it, and none of them is
/// stalled.
pub open(crate) spec fn square(s: SchedulerState, f: FoldState, returned: Set<GroupId>) -> bool {
    &&& forall|i: int|
        0 <= i < f.groups.len() ==> (#[trigger] f.groups[i]).gap.worst == 0 && (
        f.groups[i].restored ==> returned.contains(f.groups[i].group))
    &&& forall|group: GroupId|
        #[trigger] returned.contains(group) && s.slot(group) is Some ==> !s.slot(group)->0.stalled
}

/// A fold with the same debts, and a scheduler with the same stalls, are as square.
proof fn lemma_square(
    s: SchedulerState,
    f: FoldState,
    t: SchedulerState,
    g: FoldState,
    returned: Set<GroupId>,
)
    requires
        square(s, f, returned),
        g.groups.len() == f.groups.len(),
        forall|i: int|
            0 <= i < f.groups.len() ==> (#[trigger] g.groups[i]).gap == f.groups[i].gap
                && g.groups[i].restored == f.groups[i].restored && g.groups[i].group
                == f.groups[i].group,
        forall|group: GroupId|
            (#[trigger] t.slot(group)) is Some && t.slot(group)->0.stalled ==> s.slot(group) is Some
                && s.slot(group)->0.stalled,
    ensures
        square(t, g, returned),
{
    assert forall|i: int| 0 <= i < g.groups.len() implies (#[trigger] g.groups[i]).gap.worst == 0 && (
    g.groups[i].restored ==> returned.contains(g.groups[i].group)) by {
        assert(f.groups[i].gap.worst == 0);
    }
    assert forall|group: GroupId| #[trigger] returned.contains(group) && t.slot(group) is Some implies !t.slot(
        group,
    )->0.stalled by {}
}

// ------------------------------------------------------------------- requests

/// The entry owes no more than one of the fold's for the same group, or nothing at all.
spec fn no_more(f: FoldState, entry: GroupFold) -> bool {
    ||| entry.gap.worst == 0 && !entry.restored
    ||| exists|j: int|
        0 <= j < f.groups.len() && (#[trigger] f.groups[j]).group == entry.group
            && f.groups[j].gap == entry.gap && (entry.restored ==> f.groups[j].restored)
}

/// A request makes no debt.
#[verifier::spinoff_prover]
#[verifier::rlimit(40)]
proof fn lemma_request_debts(f: FoldState, operation: Operation)
    requires
        ascending(f.groups),
    ensures
        forall|i: int|
            0 <= i < f.invoked(operation).groups.len() ==> no_more(
                f,
                #[trigger] f.invoked(operation).groups[i],
            ),
{
    let g = f.invoked(operation);
    let group = operation.group();
    if f.entry(group) is Some {
        lemma_entry_at(f.groups, group);
        let k = find_entry(f.groups, group)->0;
        assert forall|i: int| 0 <= i < g.groups.len() implies no_more(f, #[trigger] g.groups[i]) by {
            lemma_one_touched(f, operation, k);
            assert(f.groups[i].group == g.groups[i].group);
        }
    } else {
        match operation {
            Operation::Lifecycle { request, .. } => {
                lemma_rank(f.groups, group);
                let at = rank_of(f.groups, group) as int;
                assert forall|i: int| 0 <= i < g.groups.len() implies no_more(
                    f,
                    #[trigger] g.groups[i],
                ) by {
                    if f.lifecycle_outcome(group, request) is Created {
                        if i < at {
                            assert(g.groups[i] == f.groups[i]);
                        } else if i > at {
                            assert(g.groups[i] == f.groups[i - 1]);
                        }
                    } else {
                        assert(g.groups == f.groups);
                        assert(f.groups[i] == g.groups[i]);
                    }
                }
            },
            Operation::OpenSession { incarnation, .. } => {
                assert(f.address(group, incarnation) is Some);
                assert forall|i: int| 0 <= i < g.groups.len() implies no_more(
                    f,
                    #[trigger] g.groups[i],
                ) by {
                    assert(f.groups[i] == g.groups[i]);
                }
            },
            Operation::Submit { incarnation, .. } => {
                assert(f.address(group, incarnation) is Some);
                assert forall|i: int| 0 <= i < g.groups.len() implies no_more(
                    f,
                    #[trigger] g.groups[i],
                ) by {
                    assert(f.groups[i] == g.groups[i]);
                }
            },
        }
    }
}

/// A request touches one entry, and only lets its debt fall.
proof fn lemma_one_touched(f: FoldState, operation: Operation, k: int)
    requires
        f.entry(operation.group()) is Some,
        find_entry(f.groups, operation.group()) == Some(k),
        0 <= k < f.groups.len(),
        f.groups[k].group == operation.group(),
        ascending(f.groups),
    ensures
        ({
            let g = f.invoked(operation);
            &&& g.groups.len() == f.groups.len()
            &&& forall|i: int|
                0 <= i < f.groups.len() ==> (#[trigger] g.groups[i]).group == f.groups[i].group
                    && g.groups[i].gap == f.groups[i].gap && (g.groups[i].restored
                    ==> f.groups[i].restored)
        }),
{
    let group = operation.group();
    match operation {
        Operation::Lifecycle { request, .. } => {
            let entry = f.entry(group)->0;
            let moved = GroupFold { state: request.target(), ..entry };
            let h = f.with_entry(group, moved);
            lemma_updated(f.groups, k, moved, group);
            assert(h.groups == f.groups.update(k, moved));
        },
        _ => {},
    }
}

/// A request stalls nobody.
proof fn lemma_request_stalls(s: SchedulerState, operation: Operation, group: GroupId)
    ensures
        ({
            let t = called(s, Call::Invoke { operation });
            t.slot(group) is Some && t.slot(group)->0.stalled ==> s.slot(group) is Some && s.slot(
                group,
            )->0.stalled
        }),
{
}

/// A request leaves everything square.
pub proof fn lemma_request_square(
    s: SchedulerState,
    f: FoldState,
    operation: Operation,
    returned: Set<GroupId>,
)
    requires
        same_groups(s, f),
        square(s, f, returned),
    ensures
        square(called(s, Call::Invoke { operation }), f.invoked(operation), returned),
{
    let t = called(s, Call::Invoke { operation });
    let g = f.invoked(operation);
    lemma_request_debts(f, operation);
    assert forall|i: int| 0 <= i < g.groups.len() implies (#[trigger] g.groups[i]).gap.worst == 0 && (
    g.groups[i].restored ==> returned.contains(g.groups[i].group)) by {
        assert(no_more(f, g.groups[i]));
    }
    assert forall|group: GroupId| #[trigger] returned.contains(group) && t.slot(group) is Some implies !t.slot(
        group,
    )->0.stalled by {
        lemma_request_stalls(s, operation, group);
    }
}

// ----------------------------------------------------------------------- step

/// The clock does not enter into the reports.
proof fn lemma_signalled_slots(s: SchedulerState, t: SchedulerState, signals: Seq<ReadinessSignal>)
    requires
        t.slots == s.slots,
        t.config == s.config,
    ensures
        t.all_signalled(signals).slots == s.all_signalled(signals).slots,
        t.all_signalled(signals).config == s.all_signalled(signals).config,
    decreases signals.len(),
{
    if signals.len() > 0 {
        lemma_signalled_slots(s, t, signals.drop_last());
    }
}

/// One report on a fold, entry by entry.
proof fn lemma_reported_entries(f: FoldState, tick: TickIndex, signal: ReadinessSignal)
    requires
        f.recording is None,
        ascending(f.groups),
    ensures
        ({
            let g = taken(
                f,
                Decision::Reported { tick, group: signal.group, availability: signal.availability },
            );
            &&& g.recording is None
            &&& g.groups.len() == f.groups.len()
            &&& forall|i: int|
                0 <= i < f.groups.len() ==> (#[trigger] g.groups[i]).group == f.groups[i].group
                    && g.groups[i].gap == f.groups[i].gap && (g.groups[i].restored
                    ==> f.groups[i].restored || f.groups[i].group == signal.group
                    && f.groups[i].stalled && signal.availability is Available)
        }),
{
    let r = f.reached(tick);
    assert(r.groups.len() == f.groups.len());
    assert forall|i: int| 0 <= i < f.groups.len() implies (#[trigger] r.groups[i]).group
        == f.groups[i].group && r.groups[i].gap == f.groups[i].gap && r.groups[i].restored
        == f.groups[i].restored && r.groups[i].stalled == f.groups[i].stalled by {}
    if r.entry(signal.group) is Some {
        lemma_entry_at(r.groups, signal.group);
        let k = find_entry(r.groups, signal.group)->0;
        assert(r.entry(signal.group) == Some(r.groups[k]));
    }
}

/// The reports of a tick.
proof fn lemma_signals_square(
    s: SchedulerState,
    f: FoldState,
    signals: Seq<ReadinessSignal>,
    returned: Set<GroupId>,
)
    requires
        inv(s),
        waking(s, f, Seq::empty()),
        square(s, f, returned),
        !relapsed(s, returned, signals),
    ensures
        square(
            s.all_signalled(signals),
            all_taken(f, signals_recorded(clock(s), signals)),
            returned_by(s, returned, signals),
        ),
    decreases signals.len(),
{
    let all = signals_recorded(clock(s), signals);
    if signals.len() == 0 {
        assert(all =~= Seq::empty());
    } else {
        let rest = signals.drop_last();
        let last = signals.last();
        lemma_signals_square(s, f, rest, returned);
        lemma_signals(s, f, rest);
        lemma_all_signalled_inv(s, rest);
        assert(all.drop_last() =~= signals_recorded(clock(s), rest));
        let u = s.all_signalled(rest);
        let t = s.all_signalled(signals);
        let h = all_taken(f, signals_recorded(clock(s), rest));
        let g = all_taken(f, all);
        let before = returned_by(s, returned, rest);
        let after = returned_by(s, returned, signals);
        lemma_reported_entries(h, clock(s), last);
        assert forall|i: int| 0 <= i < g.groups.len() implies (#[trigger] g.groups[i]).gap.worst == 0
            && (g.groups[i].restored ==> after.contains(g.groups[i].group)) by {
            assert(h.groups[i].gap.worst == 0);
            assert(u.slot(h.groups[i].group) is Some);
        }
        assert forall|group: GroupId| #[trigger] after.contains(group) && t.slot(group) is Some implies !t.slot(
            group,
        )->0.stalled by {
            assert(before.contains(group) || group == last.group);
            if group == last.group {
                assert(u.slot(group) is Some);
                assert(group@ < u.config.groups_bound());
            } else {
                assert(t.slot(group) == u.slot(group));
            }
        }
    }
}

/// A release makes no debt.
proof fn lemma_release_debts(f: FoldState, tick: TickIndex, group: GroupId)
    requires
        f.recording is None,
    ensures
        same_debts(f, taken(f, Decision::Released { tick, group })),
        taken(f, Decision::Released { tick, group }).recording is None,
{
    let h = f.release(tick, group);
    if f.entry(group) is Some {
        lemma_entry_at(f.groups, group);
    }
    assert forall|i: int| 0 <= i < f.groups.len() implies (#[trigger] h.groups[i]).gap
        == f.groups[i].gap && h.groups[i].restored == f.groups[i].restored && h.groups[i].group
        == f.groups[i].group by {}
    let g = taken(f, Decision::Released { tick, group });
    assert forall|i: int| 0 <= i < f.groups.len() implies (#[trigger] g.groups[i]).gap
        == f.groups[i].gap && g.groups[i].restored == f.groups[i].restored && g.groups[i].group
        == f.groups[i].group by {
        assert(h.groups[i].gap == f.groups[i].gap);
    }
}

/// Releases make no debt.
proof fn lemma_releases_debts(f: FoldState, tick: TickIndex, released: Seq<GroupId>)
    requires
        f.recording is None,
    ensures
        same_debts(f, all_taken(f, releases_recorded(tick, released))),
        all_taken(f, releases_recorded(tick, released)).recording is None,
    decreases released.len(),
{
    let all = releases_recorded(tick, released);
    if released.len() == 0 {
        assert(all =~= Seq::empty());
    } else {
        let rest = released.drop_last();
        lemma_releases_debts(f, tick, rest);
        assert(all.drop_last() =~= releases_recorded(tick, rest));
        let h = all_taken(f, releases_recorded(tick, rest));
        lemma_release_debts(h, tick, released.last());
        let g = all_taken(f, all);
        assert forall|i: int| 0 <= i < f.groups.len() implies (#[trigger] g.groups[i]).gap
            == f.groups[i].gap && g.groups[i].restored == f.groups[i].restored
            && g.groups[i].group == f.groups[i].group by {
            assert(h.groups[i].gap == f.groups[i].gap);
        }
    }
}

/// Turns stall nobody and break no stall.
proof fn lemma_traversal_stalls(s: SchedulerState, plan: PlanState, report: ReportState, group: GroupId)
    requires
        core_inv(s),
        plan_ok(s, plan),
    ensures
        ({
            let t = s.traversed(plan, report).0;
            &&& t.slot(group) is Some <==> s.slot(group) is Some
            &&& t.slot(group) is Some ==> t.slot(group)->0.stalled == s.slot(group)->0.stalled
        }),
    decreases plan.entries.len() - plan.next,
{
    if plan.next < plan.entries.len() {
        lemma_first_free(s.workers, 0);
        match first_free(s.workers, 0) {
            None => {},
            Some(worker) => {
                let own = plan.entries[plan.next as int];
                let slot = s.slot(own)->0;
                lemma_offered(s, plan, worker);
                assert(group_ok(slot, s.config, s.next_work));
                assert(owed(slot));
                lemma_turn_len(slot, 0, s.config, s.next_work);
                lemma_served(slot, own, slot.turn_len(), s.config, s.next_work);
                lemma_traversal_stalls(
                    s.offered(own, worker),
                    PlanState { next: plan.next + 1, ..plan },
                    ReportState {
                        offers: report.offers.push(
                            Offer { group: own, outcome: s.offer_outcome(own) },
                        ),
                        serviced: report.serviced + s.offer_records(own),
                        ..report
                    },
                    group,
                );
            },
        }
    }
}

/// The turns of a tick stall nobody.
proof fn lemma_step_stalls(s: SchedulerState, signals: Seq<ReadinessSignal>, group: GroupId)
    requires
        inv(s),
        s.tick < u64::MAX - 1,
        s.plan is None ==> s.next_pass@ < u64::MAX,
    ensures
        ({
            let t = s.stepped(signals).0;
            let awake = s.awake(signals);
            t.slot(group) is Some && t.slot(group)->0.stalled ==> awake.slot(group) is Some
                && awake.slot(group)->0.stalled
        }),
{
    let awake = s.awake(signals);
    let opening = s.opening_report(signals);
    lemma_awake_inv(s, signals);
    match awake.plan {
        Some(plan) => {
            let idle = SchedulerState { plan: None, ..awake };
            lemma_core_frame(awake, idle);
            lemma_traversal_stalls(
                idle,
                plan,
                ReportState { pass: Some(plan.pass), ..opening },
                group,
            );
        },
        None => {
            let entries = awake.plan_order();
            if entries.len() > 0 {
                lemma_armed(awake);
                lemma_traversal_stalls(
                    SchedulerState { next_pass: PassIndex::at(awake.next_pass@ + 1), ..awake },
                    PlanState { pass: awake.next_pass, entries, next: 0 },
                    ReportState { pass: Some(awake.next_pass), armed: Some(entries), ..opening },
                    group,
                );
            }
        },
    }
}

/// The reports and releases of a tick that stalls no group that returned.
proof fn lemma_woken_square(
    s: SchedulerState,
    f: FoldState,
    signals: Seq<ReadinessSignal>,
    returned: Set<GroupId>,
)
    requires
        inv(s),
        settled_agree(s, f),
        f.violation is None,
        s.tick < u64::MAX - 1,
        square(s, f, returned),
        !relapsed(s, returned, signals),
    ensures
        square(
            s.awake(signals),
            woken(f, signals, s.stepped(signals).1),
            returned_by(s, returned, signals),
        ),
{
    let report = s.stepped(signals).1;
    let awake = s.awake(signals);
    let ticked = SchedulerState { tick: (s.tick + 1) as u64, ..s };
    lemma_core_frame(s, ticked);
    lemma_stepped_frame(s, signals);
    lemma_same_tables(s, f, ticked, f);
    assert(waking(ticked, f, Seq::empty()));
    lemma_square(s, f, ticked, f, returned);
    lemma_same_reports(s, ticked, returned, signals);
    lemma_signals_square(ticked, f, signals, returned);
    lemma_signals(ticked, f, signals);
    let tick = TickIndex(report.tick);
    let a = all_taken(f, signals_recorded(tick, signals));
    let told = ticked.all_signalled(signals);
    lemma_all_taken(
        f,
        signals_recorded(tick, signals),
        releases_recorded(tick, report.released),
    );
    lemma_releases_debts(a, tick, report.released);
    let w = woken(f, signals, report);
    let now = returned_by(s, returned, signals);
    assert forall|group: GroupId|
        (#[trigger] awake.slot(group)) is Some && awake.slot(group)->0.stalled implies told.slot(
        group,
    ) is Some && told.slot(group)->0.stalled by {}
    lemma_square(told, a, awake, w, now);
}

/// Arming a plan over the ready set settles every debt, when no group that returned is stalled.
proof fn lemma_armed_square(
    s: SchedulerState,
    w: FoldState,
    start: FoldState,
    pass: PassIndex,
    returned: Set<GroupId>,
)
    requires
        inv(s),
        waking(s, w, Seq::empty()),
        paid_from(s.workers, s.tick + 1),
        square(s, w, returned),
        start.groups.len() == w.groups.len(),
        forall|i: int|
            0 <= i < w.groups.len() ==> #[trigger] start.groups[i] == w.accounted(
                pass,
                s.plan_order(),
                i,
            ),
    ensures
        square(s, start, Set::empty()),
{
    let plan = s.plan_order();
    lemma_plan_order(s);
    assert forall|i: int| 0 <= i < start.groups.len() implies (
    #[trigger] start.groups[i]).gap.worst == 0 && !start.groups[i].restored by {
        assert(start.groups[i] == w.accounted(pass, plan, i));
        let entry = w.groups[i];
        assert(entry.gap.worst == 0);
        lemma_found(w.groups, i);
        lemma_ready(s, w, entry.group);
        assert(s.slot(entry.group) is Some);
        if w.is_owed(entry.group) && !plan.contains(entry.group) {
            if entry.restored {
                assert(returned.contains(entry.group));
            }
            assert(!entry.stalled);
            assert(w.is_ready(entry.group));
            assert(s.ready(entry.group@ as int));
            assert(plan.contains(GroupId::at(entry.group@ as int)));
            assert(false);
        }
    }
}

/// A tick that stalls no group that returned leaves everything square.
pub proof fn lemma_step_square(
    s: SchedulerState,
    f: FoldState,
    signals: Seq<ReadinessSignal>,
    returned: Set<GroupId>,
)
    requires
        inv(s),
        settled_agree(s, f),
        f.violation is None,
        s.tick < u64::MAX - 1,
        s.plan is None ==> s.next_pass@ < u64::MAX,
        square(s, f, returned),
        !relapsed(s, returned, signals),
    ensures
        square(
            s.stepped(signals).0,
            all_taken(f, step_recorded(signals, s.stepped(signals).1)),
            returned_after(s, returned, Call::Step { signals }),
        ),
{
    let (t, report) = s.stepped(signals);
    let awake = s.awake(signals);
    lemma_stepped_frame(s, signals);
    lemma_stepped(s, f, signals);
    lemma_woken(s, f, signals);
    lemma_woken_square(s, f, signals, returned);
    let w = woken(f, signals, report);
    let start = before_turns(f, signals, report);
    let g = all_taken(f, step_recorded(signals, report));
    assert forall|group: GroupId|
        (#[trigger] t.slot(group)) is Some && t.slot(group)->0.stalled implies awake.slot(
        group,
    ) is Some && awake.slot(group)->0.stalled by {
        lemma_step_stalls(s, signals, group);
    }
    if report.armed is None {
        lemma_square(awake, w, t, g, returned_by(s, returned, signals));
    } else {
        assert(report.armed->0 == awake.plan_order());
        lemma_armed_square(
            awake,
            w,
            start,
            s.next_pass,
            returned_by(s, returned, signals),
        );
        lemma_square(awake, start, t, g, Set::empty());
    }
}

/// The clock does not enter into what returns.
proof fn lemma_same_reports(
    s: SchedulerState,
    t: SchedulerState,
    returned: Set<GroupId>,
    signals: Seq<ReadinessSignal>,
)
    requires
        t.slots == s.slots,
        t.config == s.config,
    ensures
        returned_by(t, returned, signals) == returned_by(s, returned, signals),
        relapsed(t, returned, signals) == relapsed(s, returned, signals),
    decreases signals.len(),
{
    if signals.len() > 0 {
        lemma_same_reports(s, t, returned, signals.drop_last());
        lemma_signalled_slots(s, t, signals.drop_last());
    }
}

} // verus!
