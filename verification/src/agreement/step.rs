//! A tick, recorded, keeps the scheduler and its judge in agreement.

use vstd::prelude::*;

use crate::agreement::record::{
    all_taken, arming_recorded, clock, lemma_all_taken, releases_recorded, retirement_recorded,
    services_recorded, signals_recorded, step_recorded, taken, turns_recorded, Decision,
};
use crate::agreement::relation::{
    agree, ascending, bounded, lemma_entry, lemma_found, lemma_replaced, lemma_updated, mirrors,
    paid_from, same_counts, same_groups, same_pass, same_workers, settled_agree,
};
use crate::agreement::requests::lemma_same_tables;
use crate::agreement::turn::{
    lemma_occupied, lemma_reached, lemma_ready, lemma_settled_debts, lemma_turn, lemma_turns_pushed,
    midway, same_debts,
};
use crate::model::laws::lemma_traversal_frame;
use crate::model::reachable::{
    core_inv, inv, lemma_all_signalled_inv, lemma_armed, lemma_awake_inv, lemma_core_frame,
    lemma_first_free, lemma_ids_where, lemma_offered, lemma_plan_order, plan_ok,
};
use crate::model::state::{first_free, PlanState, ReportState, SchedulerState};
use crate::oracle::fold::{distinct, find_entry, FoldState, GroupFold};
use crate::types::{GroupId, Offer, PassIndex, ReadinessSignal, TickIndex};

verus! {

/// The scheduler and the fold agree at the start of a tick, when the clock has moved and the groups
/// in `freed` have been released.
pub open(crate) spec fn waking(s: SchedulerState, f: FoldState, freed: Seq<GroupId>) -> bool {
    &&& f.recording is None
    &&& f.violation is None
    &&& same_counts(s, f)
    &&& same_groups(s, f)
    &&& same_workers(s, f, freed)
    &&& same_pass(s.plan, f.open)
    &&& f.tick <= s.tick
    &&& bounded(f, s.tick - 1)
    &&& paid_from(s.workers, s.tick as int)
}

/// What the start of a tick leaves as it was.
pub open(crate) spec fn unasked(f: FoldState, g: FoldState) -> bool {
    &&& g.outcomes == f.outcomes
    &&& g.failures == f.failures
    &&& g.services == f.services
}

// -------------------------------------------------------------------- reports

/// One readiness report.
proof fn lemma_reported(s: SchedulerState, f: FoldState, signal: ReadinessSignal)
    requires
        inv(s),
        waking(s, f, Seq::empty()),
    ensures
        ({
            let g = taken(
                f,
                Decision::Reported {
                    tick: clock(s),
                    group: signal.group,
                    availability: signal.availability,
                },
            );
            &&& waking(s.signalled(signal), g, Seq::empty())
            &&& unasked(f, g)
        }),
{
    let tick = clock(s);
    let group = signal.group;
    lemma_reached(s, f, Seq::empty(), tick);
    let r = f.reached(tick);
    lemma_same_tables(s, f, s, r);
    lemma_entry(s, r, group);
    let g = r.availability(group, signal.availability);
    if s.slot(group) is Some {
        let slot = s.slot(group)->0;
        let entry = r.entry(group)->0;
        let next = s.signalled(signal).slot(group)->0;
        let told = GroupFold {
            stalled: next.stalled,
            restored: if signal.availability is Available {
                entry.restored || (!r.exhausted_mid_traversal() && !r.occupied(group)
                    && entry.stalled && entry.dispatchable_but_for_availability())
            } else {
                entry.restored
            },
            ..entry
        };
        lemma_replaced(s, r, group, next, told, Seq::empty());
        assert(g == r.with_entry(group, told));
    }
}

/// All readiness reports of a tick.
pub proof fn lemma_signals(s: SchedulerState, f: FoldState, signals: Seq<ReadinessSignal>)
    requires
        inv(s),
        waking(s, f, Seq::empty()),
    ensures
        ({
            let g = all_taken(f, signals_recorded(clock(s), signals));
            &&& waking(s.all_signalled(signals), g, Seq::empty())
            &&& unasked(f, g)
        }),
    decreases signals.len(),
{
    let all = signals_recorded(clock(s), signals);
    if signals.len() > 0 {
        let rest = signals.drop_last();
        lemma_signals(s, f, rest);
        lemma_all_signalled_inv(s, rest);
        assert(all.drop_last() =~= signals_recorded(clock(s), rest));
        lemma_reported(
            s.all_signalled(rest),
            all_taken(f, signals_recorded(clock(s), rest)),
            signals.last(),
        );
    } else {
        assert(all =~= Seq::empty());
    }
}

// ------------------------------------------------------------------- releases

/// One release.
#[verifier::spinoff_prover]
#[verifier::rlimit(40)]
proof fn lemma_release(s: SchedulerState, f: FoldState, freed: Seq<GroupId>, group: GroupId)
    requires
        inv(s),
        waking(s, f, freed),
        s.group_due(group@ as int),
        !freed.contains(group),
    ensures
        ({
            let g = taken(f, Decision::Released { tick: clock(s), group });
            &&& waking(s, g, freed.push(group))
            &&& unasked(f, g)
        }),
{
    let tick = clock(s);
    let w = choose|w: int| #[trigger] s.worker_due(w) && s.workers[w]->0.group@ == group@;
    assert(s.workers[w] is Some);
    assert(s.workers[w]->0.group == group);
    lemma_entry(s, f, group);
    let entry = f.entry(group)->0;
    let k = find_entry(f.groups, group)->0;
    assert(entry.occupancy->0.due@ == tick@);
    let none = GroupFold { occupancy: None, ..entry };
    let h = f.release(tick, group);
    assert(h == f.with_entry(group, none));
    assert(h.groups == f.groups.update(k, none));
    lemma_updated(f.groups, k, none, group);
    let more = freed.push(group);
    assert(more.last() == group);
    assert forall|other: GroupId| #[trigger] more.contains(other) <==> freed.contains(other) || other
        == group by {
        if freed.contains(other) {
            let i = choose|i: int| 0 <= i < freed.len() && freed[i] == other;
            assert(more[i] == other);
        }
        if other == group {
            assert(more[freed.len() as int] == group);
        }
    }
    assert forall|i: int| 0 <= i < h.groups.len() implies {
        &&& s.slot((#[trigger] h.groups[i]).group) is Some
        &&& mirrors(s.slot(h.groups[i].group)->0, h.groups[i], s.next_work as int)
        &&& h.groups[i].occupancy is Some <==> s.slot(h.groups[i].group)->0.servicing
            && !more.contains(h.groups[i].group)
    } by {
        assert(s.slot(f.groups[i].group) is Some);
        assert(f.groups[i].occupancy is Some <==> s.slot(f.groups[i].group)->0.servicing
            && !freed.contains(f.groups[i].group));
        if i != k {
            assert(f.groups[i].group@ != group@);
        }
    }
    assert forall|other: GroupId| (#[trigger] s.slot(other)) is Some implies h.entry(other) is Some by {
        lemma_updated(f.groups, k, none, other);
        assert(f.entry(other) is Some);
    }
    assert forall|v: int|
        0 <= v < s.workers.len() && (#[trigger] s.workers[v]) is Some && !more.contains(
            s.workers[v]->0.group,
        ) implies h.entry(s.workers[v]->0.group) is Some && h.entry(
        s.workers[v]->0.group,
    )->0.occupancy is Some && h.entry(s.workers[v]->0.group)->0.occupancy->0.due
        == s.workers[v]->0.busy_until by {
        let other = s.workers[v]->0.group;
        assert(!freed.contains(other) && other != group);
        lemma_updated(f.groups, k, none, other);
        lemma_entry(s, f, other);
    }
    assert(same_groups(s, h));
    assert(same_workers(s, h, more));
    lemma_reached(s, h, more, tick);
    lemma_same_tables(s, h, s, h.reached(tick));
}

/// The first `k` releases of a tick.
proof fn lemma_releases(s: SchedulerState, f: FoldState, k: nat)
    requires
        inv(s),
        waking(s, f, Seq::empty()),
        k <= s.due_ids().len(),
    ensures
        ({
            let freed = s.due_ids().take(k as int);
            let g = all_taken(f, releases_recorded(clock(s), freed));
            &&& waking(s, g, freed)
            &&& unasked(f, g)
        }),
    decreases k,
{
    let ids = s.due_ids();
    let freed = ids.take(k as int);
    let all = releases_recorded(clock(s), freed);
    if k == 0 {
        assert(freed =~= Seq::empty());
        assert(all =~= Seq::empty());
    } else {
        let rest = ids.take(k - 1);
        lemma_releases(s, f, (k - 1) as nat);
        let group = ids[k - 1];
        let pred = |id: int| s.group_due(id);
        lemma_ids_where(0, s.slots.len() as int, pred);
        assert(pred(ids[k - 1]@ as int));
        assert(!rest.contains(group)) by {
            if rest.contains(group) {
                let i = choose|i: int| 0 <= i < rest.len() && rest[i] == group;
                assert(ids[i]@ < ids[k - 1]@);
            }
        }
        assert(all.drop_last() =~= releases_recorded(clock(s), rest));
        assert(freed =~= rest.push(group));
        lemma_release(s, all_taken(f, releases_recorded(clock(s), rest)), rest, group);
    }
}

/// Once every due worker has been released, the scheduler has released them too.
proof fn lemma_awake(s: SchedulerState, f: FoldState)
    requires
        inv(s),
        waking(s, f, s.due_ids()),
    ensures
        waking(s.released(), f, Seq::empty()),
        paid_from(s.released().workers, s.tick + 1),
{
    let t = s.released();
    let ids = s.due_ids();
    let pred = |id: int| s.group_due(id);
    lemma_ids_where(0, s.slots.len() as int, pred);
    assert forall|group: GroupId| s.slot(group) is Some implies (#[trigger] ids.contains(group)
        <==> s.group_due(group@ as int)) by {
        assert(group == GroupId::at(group@ as int));
        if ids.contains(group) {
            let i = choose|i: int| 0 <= i < ids.len() && ids[i] == group;
            assert(pred(ids[i]@ as int));
        }
        if s.group_due(group@ as int) {
            assert(pred(group@ as int));
        }
    }
    assert forall|i: int| 0 <= i < f.groups.len() implies {
        &&& t.slot((#[trigger] f.groups[i]).group) is Some
        &&& mirrors(t.slot(f.groups[i].group)->0, f.groups[i], t.next_work as int)
        &&& f.groups[i].occupancy is Some <==> t.slot(f.groups[i].group)->0.servicing
            && !Seq::<GroupId>::empty().contains(f.groups[i].group)
    } by {
        let group = f.groups[i].group;
        assert(s.slot(group) is Some);
        assert(s.slots[group@ as int] is Some);
        assert(ids.contains(group) <==> s.group_due(group@ as int));
        assert(f.groups[i].occupancy is Some <==> s.slot(group)->0.servicing && !ids.contains(
            group,
        ));
        assert(t.slots[group@ as int] is Some);
    }
    assert forall|group: GroupId| (#[trigger] t.slot(group)) is Some implies f.entry(group) is Some by {
        assert(s.slot(group) is Some);
    }
    assert forall|w: int|
        0 <= w < t.workers.len() && (#[trigger] t.workers[w]) is Some implies f.entry(
        t.workers[w]->0.group,
    ) is Some && f.entry(t.workers[w]->0.group)->0.occupancy is Some && f.entry(
        t.workers[w]->0.group,
    )->0.occupancy->0.due == t.workers[w]->0.busy_until && t.workers[w]->0.busy_until@ >= s.tick
        + 1 by {
        assert(!s.worker_due(w));
        assert(s.workers[w] is Some);
        let group = s.workers[w]->0.group;
        assert(s.slots[group@ as int] is Some);
        if ids.contains(group) {
            assert(s.slot(group) is Some);
            let v = choose|v: int| #[trigger] s.worker_due(v) && s.workers[v]->0.group@ == group@;
            assert(s.workers[v] is Some);
            assert(v == w);
        }
    }
}

// --------------------------------------------------------------------- arming

/// A list without repetition is its distinct entries.
proof fn lemma_all_distinct(plan: Seq<GroupId>)
    requires
        forall|i: int, j: int| 0 <= i < j < plan.len() ==> plan[i]@ != plan[j]@,
    ensures
        distinct(plan) == plan,
    decreases plan.len(),
{
    if plan.len() > 0 {
        let rest = plan.drop_last();
        lemma_all_distinct(rest);
        assert(!rest.contains(plan.last())) by {
            if rest.contains(plan.last()) {
                let i = choose|i: int| 0 <= i < rest.len() && rest[i] == plan.last();
                assert(plan[i]@ != plan[plan.len() - 1]@);
            }
        }
        assert(rest.push(plan.last()) =~= plan);
    }
}

/// Judging a plan of ready groups without repetition raises nothing.
proof fn lemma_plan_judged(f: FoldState, pass: PassIndex, plan: Seq<GroupId>, n: nat)
    requires
        n <= plan.len(),
        forall|i: int, j: int| 0 <= i < j < plan.len() ==> plan[i]@ != plan[j]@,
        forall|i: int| 0 <= i < plan.len() ==> f.is_ready(#[trigger] plan[i]),
    ensures
        f.plan_judged(pass, plan, n) == f,
    decreases n,
{
    if n > 0 {
        lemma_plan_judged(f, pass, plan, (n - 1) as nat);
        let group = plan[n - 1];
        if plan.take(n - 1).contains(group) {
            let rest = plan.take(n - 1);
            let i = choose|i: int| 0 <= i < rest.len() && rest[i] == group;
            assert(plan[i]@ != plan[n - 1]@);
        }
    }
}

/// A plan armed over the ready set.
proof fn lemma_arming(s: SchedulerState, f: FoldState)
    requires
        inv(s),
        waking(s, f, Seq::empty()),
        paid_from(s.workers, s.tick + 1),
        s.plan is None,
        s.next_pass@ < u64::MAX,
        s.plan_order().len() > 0,
    ensures
        ({
            let plan = PlanState { pass: s.next_pass, entries: s.plan_order(), next: 0 };
            let g = taken(
                f,
                Decision::Armed { pass: s.next_pass, tick: clock(s), plan: s.plan_order() },
            );
            &&& midway(
                SchedulerState { next_pass: PassIndex::at(s.next_pass@ + 1), ..s },
                plan,
                g,
            )
            &&& unasked(f, g)
            &&& g.recording is None
            &&& g.groups.len() == f.groups.len()
            &&& forall|i: int|
                0 <= i < f.groups.len() ==> #[trigger] g.groups[i] == f.accounted(
                    s.next_pass,
                    s.plan_order(),
                    i,
                )
        }),
{
    let tick = clock(s);
    let pass = s.next_pass;
    let entries = s.plan_order();
    lemma_reached(s, f, Seq::empty(), tick);
    let r = f.reached(tick);
    lemma_same_tables(s, f, s, r);
    lemma_plan_order(s);
    assert forall|i: int| 0 <= i < entries.len() implies r.is_ready(#[trigger] entries[i]) by {
        lemma_ready(s, r, entries[i]);
        assert(s.ready(entries[i]@ as int));
    }
    lemma_plan_judged(r, pass, entries, entries.len());
    lemma_all_distinct(entries);
    let g = r.armed(pass, tick, entries);
    assert(entries.skip(0) =~= entries);
    assert(entries.take(0) =~= Seq::empty());
    let t = SchedulerState { next_pass: PassIndex::at(pass@ + 1), ..s };
    assert forall|i: int| 0 <= i < g.groups.len() implies {
        &&& #[trigger] g.groups[i] == r.accounted(pass, entries, i)
        &&& g.groups[i] == f.accounted(pass, entries, i)
        &&& g.groups[i].group == f.groups[i].group
    } by {
        let group = f.groups[i].group;
        lemma_found(f.groups, i);
        assert(r.entry(group) == f.entry(group));
        lemma_occupied(s, f, group);
        lemma_occupied(s, r, group);
    }
    lemma_decorated(s, f, t, g);
    assert(g.settled() == g);
}

/// Debts and denials do not enter into the agreement.
proof fn lemma_decorated(s: SchedulerState, f: FoldState, t: SchedulerState, g: FoldState)
    requires
        same_groups(s, f),
        same_workers(s, f, Seq::empty()),
        t.slots == s.slots,
        t.workers == s.workers,
        t.next_work == s.next_work,
        g.groups.len() == f.groups.len(),
        forall|i: int|
            0 <= i < f.groups.len() ==> #[trigger] g.groups[i] == (GroupFold {
                gap: g.groups[i].gap,
                restored: g.groups[i].restored,
                ..f.groups[i]
            }),
    ensures
        same_groups(t, g),
        same_workers(t, g, Seq::empty()),
{
    assert forall|i: int| 0 <= i < g.groups.len() implies {
        &&& t.slot((#[trigger] g.groups[i]).group) is Some
        &&& mirrors(t.slot(g.groups[i].group)->0, g.groups[i], t.next_work as int)
        &&& g.groups[i].group == f.groups[i].group
        &&& g.groups[i].occupancy is Some <==> t.slot(g.groups[i].group)->0.servicing
            && !Seq::<GroupId>::empty().contains(g.groups[i].group)
    } by {
        assert(s.slot(f.groups[i].group) is Some);
        assert(f.groups[i].occupancy is Some <==> s.slot(f.groups[i].group)->0.servicing
            && !Seq::<GroupId>::empty().contains(f.groups[i].group));
    }
    assert(ascending(g.groups)) by {
        assert forall|i: int, j: int| 0 <= i < j < g.groups.len() implies g.groups[i].group@
            < g.groups[j].group@ by {
            assert(g.groups[i].group == f.groups[i].group);
            assert(g.groups[j].group == f.groups[j].group);
        }
    }
    assert forall|group: GroupId| (#[trigger] f.entry(group)) is Some implies g.entry(group) is Some
        && g.entry(group)->0.occupancy == f.entry(group)->0.occupancy by {
        crate::oracle::sound::lemma_entry_at(f.groups, group);
        let i = find_entry(f.groups, group)->0;
        assert(g.groups[i].group == group);
        lemma_found(g.groups, i);
    }
    assert forall|group: GroupId| (#[trigger] t.slot(group)) is Some implies g.entry(group) is Some by {
        assert(s.slot(group) is Some);
        assert(f.entry(group) is Some);
    }
    assert forall|w: int|
        0 <= w < t.workers.len() && (#[trigger] t.workers[w]) is Some implies g.entry(
        t.workers[w]->0.group,
    ) is Some && g.entry(t.workers[w]->0.group)->0.occupancy is Some && g.entry(
        t.workers[w]->0.group,
    )->0.occupancy->0.due == t.workers[w]->0.busy_until by {
        assert(s.workers[w] is Some);
        assert(f.entry(s.workers[w]->0.group) is Some);
    }
}

// ------------------------------------------------------------------ traversal

/// The rest of a pass.
#[verifier::spinoff_prover]
#[verifier::rlimit(40)]
proof fn lemma_traversed(
    s: SchedulerState,
    plan: PlanState,
    report: ReportState,
    start: FoldState,
)
    requires
        core_inv(s),
        s.plan is None,
        plan_ok(s, plan),
        s.tick < u64::MAX,
        report.tick == s.tick,
        midway(
            s,
            plan,
            all_taken(
                start,
                turns_recorded(plan.pass, clock(s), report.offers, report.serviced),
            ),
        ),
        all_taken(
            start,
            turns_recorded(plan.pass, clock(s), report.offers, report.serviced),
        ).services == start.services + report.serviced,
        same_debts(
            start,
            all_taken(
                start,
                turns_recorded(plan.pass, clock(s), report.offers, report.serviced),
            ),
        ),
    ensures
        ({
            let (t, told) = s.traversed(plan, report);
            let g = all_taken(
                start,
                turns_recorded(plan.pass, clock(s), told.offers, told.serviced)
                    + retirement_recorded(plan.pass, clock(s), told.progress),
            );
            &&& agree(t, g)
            &&& g.services == start.services + told.serviced
            &&& same_debts(start, g)
            &&& t.tick == s.tick
        }),
    decreases plan.entries.len() - plan.next,
{
    let tick = clock(s);
    let pass = plan.pass;
    let so_far = turns_recorded(pass, tick, report.offers, report.serviced);
    let f = all_taken(start, so_far);
    let (t, told) = s.traversed(plan, report);
    if plan.next >= plan.entries.len() {
        let end = seq![Decision::Retired { pass, tick }];
        lemma_all_taken(start, so_far, end);
        assert(end.drop_last() =~= Seq::empty());
        assert(all_taken(f, Seq::empty()) == f);
        let g = taken(f, Decision::Retired { pass, tick });
        assert(all_taken(f, end) == g);
        lemma_settled_debts(f);
        let h = f.settled();
        lemma_reached(s, h, Seq::empty(), tick);
        assert(plan.entries.skip(plan.next as int).len() == 0);
        assert(g.groups == h.groups);
        lemma_same_tables(s, h, t, g);
        assert(g.settled() == g);
        assert forall|i: int| 0 <= i < start.groups.len() implies (#[trigger] g.groups[i]).gap
            == start.groups[i].gap && g.groups[i].restored == start.groups[i].restored
            && g.groups[i].group == start.groups[i].group by {
            assert(f.groups[i].gap == start.groups[i].gap);
            assert(h.groups[i].gap == f.groups[i].gap);
        }
    } else {
        lemma_first_free(s.workers, 0);
        match first_free(s.workers, 0) {
            None => {
                assert(so_far + Seq::empty() =~= so_far);
                lemma_same_tables(s, f.settled(), t, f.settled());
            },
            Some(worker) => {
                let group = plan.entries[plan.next as int];
                let outcome = s.offer_outcome(group);
                let records = s.offer_records(group);
                let offer = Offer { group, outcome };
                let next = PlanState { next: plan.next + 1, ..plan };
                let more = ReportState {
                    offers: report.offers.push(offer),
                    serviced: report.serviced + records,
                    ..report
                };
                lemma_turn(s, plan, f, worker);
                lemma_offered(s, plan, worker);
                let here = seq![Decision::Offered { pass, tick, group, outcome }]
                    + services_recorded(pass, records);
                lemma_turns_pushed(
                    pass,
                    tick,
                    report.offers,
                    report.serviced,
                    offer,
                    records,
                );
                lemma_all_taken(start, so_far, here);
                assert(so_far + seq![Decision::Offered { pass, tick, group, outcome }]
                    + services_recorded(pass, records) =~= so_far + here);
                let g = all_taken(f, here);
                assert(start.services + more.serviced =~= (start.services + report.serviced)
                    + records);
                assert(same_debts(start, g)) by {
                    assert forall|i: int| 0 <= i < start.groups.len() implies (
                    #[trigger] g.groups[i]).gap == start.groups[i].gap && g.groups[i].restored
                        == start.groups[i].restored && g.groups[i].group == start.groups[i].group by {
                        assert(f.groups[i].gap == start.groups[i].gap);
                    }
                }
                let u = s.offered(group, worker);
                assert(clock(u) == tick);
                lemma_traversed(u, next, more, start);
            },
        }
    }
}

// ----------------------------------------------------------------------- step

/// The fold at the moment a tick starts to offer turns: its reports, its releases and its plan have
/// been recorded.
pub open(crate) spec fn before_turns(
    f: FoldState,
    signals: Seq<ReadinessSignal>,
    report: ReportState,
) -> FoldState {
    let tick = TickIndex(report.tick);
    all_taken(
        f,
        signals_recorded(tick, signals) + releases_recorded(tick, report.released)
            + arming_recorded(report.pass->0, tick, report.armed),
    )
}

/// The fold once the reports of a tick have been recorded, and its releases.
pub open(crate) spec fn woken(
    f: FoldState,
    signals: Seq<ReadinessSignal>,
    report: ReportState,
) -> FoldState {
    let tick = TickIndex(report.tick);
    all_taken(
        f,
        signals_recorded(tick, signals) + releases_recorded(tick, report.released),
    )
}

/// The reports and releases of a tick leave the scheduler and its judge in agreement.
pub proof fn lemma_woken(s: SchedulerState, f: FoldState, signals: Seq<ReadinessSignal>)
    requires
        inv(s),
        settled_agree(s, f),
        f.violation is None,
        s.tick < u64::MAX,
    ensures
        ({
            let g = woken(f, signals, s.stepped(signals).1);
            &&& waking(s.awake(signals), g, Seq::empty())
            &&& paid_from(s.awake(signals).workers, s.awake(signals).tick + 1)
            &&& unasked(f, g)
            &&& inv(s.awake(signals))
            &&& s.stepped(signals).1.tick == s.tick + 1
            &&& s.stepped(signals).1.released == s.opening_report(signals).released
            &&& s.awake(signals).tick == s.tick + 1
            &&& s.awake(signals).plan == s.plan
            &&& s.awake(signals).next_pass == s.next_pass
        }),
{
    let ticked = SchedulerState { tick: (s.tick + 1) as u64, ..s };
    lemma_core_frame(s, ticked);
    lemma_awake_inv(s, signals);
    let awake = s.awake(signals);
    let report = s.stepped(signals).1;
    lemma_stepped_frame(s, signals);
    lemma_same_tables(s, f, ticked, f);
    assert(waking(ticked, f, Seq::empty()));
    lemma_signals(ticked, f, signals);
    lemma_all_signalled_inv(ticked, signals);
    let told = ticked.all_signalled(signals);
    let tick = TickIndex(report.tick);
    let g = all_taken(f, signals_recorded(tick, signals));
    lemma_releases(told, g, told.due_ids().len());
    assert(told.due_ids().take(told.due_ids().len() as int) =~= told.due_ids());
    lemma_all_taken(
        f,
        signals_recorded(tick, signals),
        releases_recorded(tick, report.released),
    );
    lemma_awake(told, woken(f, signals, report));
}

/// What a step's report says of its start.
pub proof fn lemma_stepped_frame(s: SchedulerState, signals: Seq<ReadinessSignal>)
    ensures
        ({
            let awake = s.awake(signals);
            let opening = s.opening_report(signals);
            let report = s.stepped(signals).1;
            &&& report.tick == opening.tick
            &&& report.released == opening.released
            &&& awake.plan is Some ==> report.armed is None && report.pass == Some(
                awake.plan->0.pass,
            )
            &&& awake.plan is None && awake.plan_order().len() > 0 ==> report.armed == Some(
                awake.plan_order(),
            ) && report.pass == Some(awake.next_pass)
            &&& awake.plan is None && awake.plan_order().len() == 0 ==> report == opening
                && s.stepped(signals).0 == awake
        }),
{
    let awake = s.awake(signals);
    let opening = s.opening_report(signals);
    match awake.plan {
        Some(plan) => {
            lemma_traversal_frame(
                SchedulerState { plan: None, ..awake },
                plan,
                ReportState { pass: Some(plan.pass), ..opening },
            );
        },
        None => {
            let entries = awake.plan_order();
            if entries.len() > 0 {
                lemma_traversal_frame(
                    SchedulerState { next_pass: PassIndex::at(awake.next_pass@ + 1), ..awake },
                    PlanState { pass: awake.next_pass, entries, next: 0 },
                    ReportState { pass: Some(awake.next_pass), armed: Some(entries), ..opening },
                );
            }
        },
    }
}

/// A tick, recorded, leaves the scheduler and its judge in agreement.
#[verifier::spinoff_prover]
#[verifier::rlimit(40)]
pub proof fn lemma_stepped(s: SchedulerState, f: FoldState, signals: Seq<ReadinessSignal>)
    requires
        inv(s),
        settled_agree(s, f),
        f.violation is None,
        s.tick < u64::MAX - 1,
        s.plan is None ==> s.next_pass@ < u64::MAX,
    ensures
        ({
            let (t, report) = s.stepped(signals);
            let g = all_taken(f, step_recorded(signals, report));
            &&& agree(t, g)
            &&& g.services == f.services + report.serviced
            &&& g.outcomes == f.outcomes
            &&& g.failures == f.failures
            &&& same_debts(before_turns(f, signals, report), g)
            &&& report.armed is None ==> before_turns(f, signals, report) == woken(
                f,
                signals,
                report,
            )
            &&& report.armed is Some ==> before_turns(f, signals, report).groups.len() == woken(
                f,
                signals,
                report,
            ).groups.len() && forall|i: int|
                0 <= i < woken(f, signals, report).groups.len() ==> #[trigger] before_turns(
                    f,
                    signals,
                    report,
                ).groups[i] == woken(f, signals, report).accounted(
                    s.next_pass,
                    report.armed->0,
                    i,
                )
        }),
{
    lemma_woken(s, f, signals);
    lemma_stepped_frame(s, signals);
    let awake = s.awake(signals);
    let opening = s.opening_report(signals);
    let (t, report) = s.stepped(signals);
    let tick = TickIndex(report.tick);
    let pass = report.pass->0;
    let a = signals_recorded(tick, signals) + releases_recorded(tick, report.released);
    let b = arming_recorded(pass, tick, report.armed);
    let c = turns_recorded(pass, tick, report.offers, report.serviced);
    let d = retirement_recorded(pass, tick, report.progress);
    let w = woken(f, signals, report);
    let start = before_turns(f, signals, report);
    assert(step_recorded(signals, report) =~= (a + b) + (c + d));
    lemma_all_taken(f, a + b, c + d);
    lemma_all_taken(f, a, b);
    assert(start == all_taken(w, b));
    assert(turns_recorded(pass, tick, Seq::empty(), Seq::empty()) =~= Seq::empty());
    assert(start.services + Seq::empty() =~= start.services);
    assert(all_taken(w, Seq::empty()) == w);
    match awake.plan {
        Some(plan) => {
            assert(b =~= Seq::empty());
            let idle = SchedulerState { plan: None, ..awake };
            lemma_core_frame(awake, idle);
            lemma_same_tables(awake, w, idle, w);
            assert(w.settled() == w);
            lemma_traversed(
                idle,
                plan,
                ReportState { pass: Some(plan.pass), ..opening },
                start,
            );
        },
        None => {
            let entries = awake.plan_order();
            if entries.len() == 0 {
                assert(b =~= Seq::empty());
                assert(c =~= Seq::empty());
                assert(d =~= Seq::empty());
                assert(c + d =~= Seq::empty());
                assert(all_taken(start, Seq::empty()) == start);
                assert(w.settled() == w);
            } else {
                let first = Decision::Armed { pass: awake.next_pass, tick, plan: entries };
                assert(b =~= seq![first]);
                assert(b.drop_last() =~= Seq::empty());
                assert(start == taken(w, first));
                lemma_arming(awake, w);
                lemma_armed(awake);
                lemma_traversed(
                    SchedulerState { next_pass: PassIndex::at(awake.next_pass@ + 1), ..awake },
                    PlanState { pass: awake.next_pass, entries, next: 0 },
                    ReportState { pass: Some(awake.next_pass), armed: Some(entries), ..opening },
                    start,
                );
            }
        },
    }
}

} // verus!
