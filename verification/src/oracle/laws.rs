//! Laws of the judge.

use vstd::prelude::*;

use crate::history::{observes, HistoryEvent, Operation};
use crate::oracle::fold::{find_entry, rank_of, widest_denial, worst_gap, FoldState, GroupFold};
use crate::oracle::site::FaultSite;
use crate::oracle::sound::{
    armed_plans, entry_ok, event_ok, fold_ok, lemma_absorbed_frame, lemma_absorbed_ok,
    lemma_entry_at, lemma_plans_folded, lemma_rank, lemma_settled_frame, lemma_settled_ok,
    structural,
};
use crate::oracle::{replays, ReferenceScheduler, Replay};
use crate::types::{GroupId, PassIndex, SchedulerConfig, TickIndex};

verus! {

/// The first fault a history holds is the one reported, whatever follows it.
#[verifier::spinoff_prover]
#[verifier::rlimit(60)]
pub proof fn law_first_fault_stands(s: FoldState, event: HistoryEvent)
    requires
        s.violation is Some,
    ensures
        s.absorbed(event).violation == s.violation,
        s.finished().violation == s.violation,
{
    let t = if s.continues(event) {
        s
    } else {
        s.settled()
    };
    assert(t.violation == s.violation);
    match event {
        HistoryEvent::PassArmed { pass, tick, plan } => {
            lemma_plan_faults(t.reached(tick), pass, plan@, plan@.len());
        },
        HistoryEvent::Invoked { operation, .. } => {
            lemma_requests_raise_nothing(t, operation);
        },
        _ => {},
    }
}

/// A request is answered, never judged.
proof fn lemma_requests_raise_nothing(s: FoldState, operation: Operation)
    ensures
        s.invoked(operation).violation == s.violation,
{
}

/// Judging a plan keeps a fault that stands.
proof fn lemma_plan_faults(s: FoldState, pass: PassIndex, plan: Seq<GroupId>, n: nat)
    requires
        s.violation is Some,
    ensures
        s.plan_judged(pass, plan, n).violation == s.violation,
    decreases n,
{
    if n > 0 {
        lemma_plan_faults(s, pass, plan, (n - 1) as nat);
    }
}

/// What a caller concluded is not folded: observations change nothing.
pub proof fn law_observations_are_not_folded(s: FoldState, event: HistoryEvent)
    requires
        observes(event),
    ensures
        s.absorbed(event) == s,
{
}

/// After any history, every admitted item is serviced, failed or queued, and
/// what is queued is queued in some group.
pub proof fn law_every_item_is_accounted_for(config: SchedulerConfig, log: Seq<HistoryEvent>)
    requires
        config.valid(),
        forall|i: int| 0 <= i < log.len() ==> event_ok(#[trigger] log[i]),
    ensures
        fold_ok(FoldState::folded(config, log), log.len()),
        FoldState::folded(config, log).finished() == FoldState::folded(config, log).settled(),
    decreases log.len(),
{
    if log.len() > 0 {
        let rest = log.drop_last();
        assert forall|i: int| 0 <= i < rest.len() implies event_ok(#[trigger] rest[i]) by {
            assert(rest[i] == log[i]);
        }
        law_every_item_is_accounted_for(config, rest);
        assert(event_ok(log[log.len() - 1]));
        lemma_absorbed_ok(FoldState::folded(config, rest), log.last(), rest.len());
    }
    lemma_settled_ok(FoldState::folded(config, log), log.len());
}

/// Some group was denied a turn it was owed.
pub open spec fn some_group_denied(s: FoldState) -> bool {
    exists|i: int| 0 <= i < s.groups.len() && (#[trigger] s.groups[i]).gap.worst > 0
}

/// A history is certified exactly when no check failed and no group was ever denied a turn it was
/// owed; the widest gap it then reports is zero.
pub proof fn law_certified_means_sound_and_fair(s: FoldState)
    ensures
        s.verdict() is None <==> s.violation is None && !some_group_denied(s),
        s.verdict() is None ==> worst_gap(s.groups) == 0,
{
    lemma_widest(s.groups, s.groups.len() as int);
}

/// The widest denial is one, and there is one when any group was denied.
proof fn lemma_widest(groups: Seq<GroupFold>, n: int)
    requires
        0 <= n <= groups.len(),
    ensures
        match widest_denial(groups, n) {
            Some(i) => 0 <= i < n && groups[i].gap.worst > 0 && forall|j: int|
                0 <= j < n ==> (#[trigger] groups[j]).gap.worst <= groups[i].gap.worst,
            None => forall|j: int| 0 <= j < n ==> (#[trigger] groups[j]).gap.worst == 0,
        },
    decreases n,
{
    if n > 0 {
        lemma_widest(groups, n - 1);
    }
}

/// No denial is the longest that is not reported: the gap reported is at least every group's.
pub proof fn law_reported_gap_is_the_widest(s: FoldState, i: int)
    requires
        0 <= i < s.groups.len(),
    ensures
        s.groups[i].gap.worst <= worst_gap(s.groups),
{
    lemma_widest(s.groups, s.groups.len() as int);
}

/// No group is denied more often in a row than plans were armed: a history of so many plans as a
/// count of denials can state is judged in full.
pub proof fn law_denials_need_plans(config: SchedulerConfig, log: Seq<HistoryEvent>)
    requires
        config.valid(),
        forall|i: int| 0 <= i < log.len() ==> event_ok(#[trigger] log[i]),
    ensures
        worst_gap(FoldState::folded(config, log).finished().groups) <= armed_plans(log) <= log.len(),
{
    let s = FoldState::folded(config, log);
    let t = s.finished();
    law_every_item_is_accounted_for(config, log);
    lemma_plans_folded(config, log);
    lemma_settled_ok(s, log.len());
    lemma_settled_frame(s);
    lemma_widest(t.groups, t.groups.len() as int);
    if let Some(i) = widest_denial(t.groups, t.groups.len() as int) {
        assert(entry_ok(t.groups[i], t.config, t.passes_armed));
    }
}

/// A plan cannot omit a group it owes a turn and still be certified: the omission counts as a
/// denial at once.
pub proof fn law_omission_is_a_denial(
    s: FoldState,
    pass: PassIndex,
    tick: TickIndex,
    plan: Seq<GroupId>,
    i: int,
)
    requires
        0 <= i < s.groups.len(),
        s.is_owed(s.groups[i].group),
        !plan.contains(s.groups[i].group),
    ensures
        some_group_denied(s.armed(pass, tick, plan)),
{
    let t = s.armed(pass, tick, plan);
    assert(t.groups[i] == s.accounted(pass, plan, i));
    assert(t.groups[i].gap.worst > 0);
}

/// A denial is never forgotten: no later event, and no end of the record, takes it back.
pub proof fn law_denials_are_permanent(s: FoldState, event: HistoryEvent, n: nat)
    requires
        fold_ok(s, n),
        some_group_denied(s),
    ensures
        some_group_denied(s.absorbed(event)),
        some_group_denied(s.finished()),
        s.finished().verdict() is Some,
{
    let t = if s.continues(event) {
        s
    } else {
        s.settled()
    };
    lemma_settled_ok(s, n);
    lemma_settled_keeps_denials(s, n);
    assert(some_group_denied(t));
    match event {
        HistoryEvent::Invoked { operation, .. } => {
            lemma_invoked_keeps_denials(t, operation, n);
        },
        HistoryEvent::AvailabilityReported { tick, group, availability } => {
            lemma_reached_keeps_denials(t, tick);
            let u = t.reached(tick);
            if u.entry(group) is Some {
                lemma_entry_at(u.groups, group);
                let k = find_entry(u.groups, group)->0;
                let v = u.availability(group, availability);
                let i = choose|i: int| 0 <= i < u.groups.len() && u.groups[i].gap.worst > 0;
                assert(v.groups[i].gap == u.groups[i].gap);
            }
        },
        HistoryEvent::WorkerReleased { tick, group } => {
            if tick@ >= t.tick {
                let u = t.release(tick, group);
                let i = choose|i: int| 0 <= i < t.groups.len() && t.groups[i].gap.worst > 0;
                if t.entry(group) is Some {
                    lemma_entry_at(t.groups, group);
                }
                assert(u.groups[i].gap == t.groups[i].gap);
                lemma_reached_keeps_denials(u, tick);
            }
        },
        HistoryEvent::PassArmed { pass, tick, plan } => {
            lemma_reached_keeps_denials(t, tick);
            let u = t.reached(tick);
            let v = u.armed(pass, tick, plan@);
            let i = choose|i: int| 0 <= i < u.groups.len() && u.groups[i].gap.worst > 0;
            assert(v.groups[i] == u.accounted(pass, plan@, i));
        },
        HistoryEvent::GroupOffered { pass, tick, group, outcome } => {
            lemma_reached_keeps_denials(t, tick);
            let u = t.reached(tick);
            assert(u.offered(pass, tick, group, outcome).groups == u.groups);
        },
        HistoryEvent::WorkServiced { pass, group, work } => {
            let u = t.service(pass, group, work);
            let i = choose|i: int| 0 <= i < t.groups.len() && t.groups[i].gap.worst > 0;
            if t.entry(group) is Some {
                lemma_entry_at(t.groups, group);
            }
            assert(u.groups[i].gap == t.groups[i].gap);
        },
        HistoryEvent::PassCompleted { pass, tick } => {
            lemma_reached_keeps_denials(t, tick);
            let u = t.reached(tick);
            assert(u.completed(pass, tick).groups == u.groups);
        },
        _ => {},
    }
    law_certified_means_sound_and_fair(s.finished());
}

/// Settling keeps denials.
proof fn lemma_settled_keeps_denials(s: FoldState, n: nat)
    requires
        some_group_denied(s),
    ensures
        some_group_denied(s.settled()),
        some_group_denied(s.finished()),
{
    let t = s.settled();
    let i = choose|i: int| 0 <= i < s.groups.len() && s.groups[i].gap.worst > 0;
    if s.recording is Some && s.entry(s.recording->0.group) is Some {
        lemma_entry_at(s.groups, s.recording->0.group);
    }
    assert(t.groups[i].gap == s.groups[i].gap);
    assert(s.finished().groups == t.groups);
}

/// The clock keeps denials.
proof fn lemma_reached_keeps_denials(s: FoldState, tick: TickIndex)
    requires
        some_group_denied(s),
    ensures
        some_group_denied(s.reached(tick)),
{
    let i = choose|i: int| 0 <= i < s.groups.len() && s.groups[i].gap.worst > 0;
    assert(s.reached(tick).groups[i].gap == s.groups[i].gap);
}

/// Requests keep denials.
proof fn lemma_invoked_keeps_denials(s: FoldState, operation: Operation, n: nat)
    requires
        fold_ok(s, n),
        some_group_denied(s),
    ensures
        some_group_denied(s.invoked(operation)),
{
    let t = s.invoked(operation);
    let i = choose|i: int| 0 <= i < s.groups.len() && s.groups[i].gap.worst > 0;
    let group = match operation {
        Operation::Lifecycle { group, .. } => group,
        Operation::OpenSession { group, .. } => group,
        Operation::Submit { group, .. } => group,
    };
    if s.entry(group) is Some {
        lemma_entry_at(s.groups, group);
        assert(t.groups.len() == s.groups.len());
        assert(t.groups[i].gap == s.groups[i].gap);
    } else {
        match operation {
            Operation::Lifecycle { request, .. } => {
                let created = s.lifecycle_outcome(group, request) is Created;
                lemma_rank(s.groups, group);
                let at = rank_of(s.groups, group) as int;
                if !created {
                    assert(s.lifecycle_outcome(group, request) is Rejected);
                    assert(t.groups == s.groups);
                } else if i < at {
                    assert(t.groups[i] == s.groups[i]);
                } else {
                    assert(t.groups[i + 1] == s.groups[i]);
                }
            },
            Operation::OpenSession { incarnation, .. } => {
                assert(s.address(group, incarnation) is Some);
            },
            Operation::Submit { incarnation, .. } => {
                assert(s.address(group, incarnation) is Some);
            },
        }
    }
}

// ------------------------------------------------------------ whole histories

/// A history without what callers concluded.
pub open spec fn without_observations(log: Seq<HistoryEvent>) -> Seq<HistoryEvent> {
    log.filter(|event: HistoryEvent| !observes(event))
}

/// What callers concluded does not enter into the fold.
proof fn lemma_observations_dropped(config: SchedulerConfig, log: Seq<HistoryEvent>)
    ensures
        FoldState::folded(config, log) == FoldState::folded(config, without_observations(log)),
    decreases log.len(),
{
    reveal(Seq::filter);
    if log.len() > 0 {
        let rest = log.drop_last();
        lemma_observations_dropped(config, rest);
        if observes(log.last()) {
            law_observations_are_not_folded(FoldState::folded(config, rest), log.last());
            assert(without_observations(log) == without_observations(rest));
        } else {
            assert(without_observations(log) == without_observations(rest).push(log.last()));
            assert(without_observations(log).drop_last() =~= without_observations(rest));
        }
    }
}

/// What callers concluded, wherever it stands in the history, changes nothing that is derived: two
/// judges whose histories are equal without it derive the same.
pub proof fn law_observations_change_no_replay(a: ReferenceScheduler, b: ReferenceScheduler)
    requires
        a.bounds() == b.bounds(),
        without_observations(a.recorded()) == without_observations(b.recorded()),
    ensures
        a.implied() == b.implied(),
{
    lemma_observations_dropped(a.bounds(), a.recorded());
    lemma_observations_dropped(b.bounds(), b.recorded());
}

/// The faults of a history's own events are structural.
proof fn lemma_structural(config: SchedulerConfig, log: Seq<HistoryEvent>)
    ensures
        structural(FoldState::folded(config, log).violation),
        structural(FoldState::folded(config, log).finished().violation),
    decreases log.len(),
{
    if log.len() > 0 {
        lemma_structural(config, log.drop_last());
        lemma_absorbed_frame(FoldState::folded(config, log.drop_last()), log.last());
    }
    lemma_settled_frame(FoldState::folded(config, log));
}

/// A replay names a fault exactly when its audit fails. It names a gap exactly when the audit reports
/// one, so a structural fault outranks every gap, and it never names the end of the sites.
pub proof fn law_fault_is_the_failed_audit(judge: ReferenceScheduler, r: Replay)
    requires
        replays(r, judge.implied()),
    ensures
        r.fault is Some <==> r.fairness is Err,
        r.fault == Some(FaultSite::WidestOpportunityGap) <==> r.fairness is Err
            && r.fairness->Err_0 is OpportunityGap,
        r.fault != Some(FaultSite::EndOfSites),
{
    lemma_structural(judge.bounds(), judge.recorded());
}

/// A site whose fault is raised by an event, and not by settling a turn or by ending the record.
pub open spec fn raised_by_event(site: FaultSite) -> bool {
    !(site is WidestOpportunityGap || site is TurnLeftWorkQueued || site is TurnMiscountedItsWork
        || site is TurnMispricedItsWork)
}

/// A fault that stands keeps standing through more events.
proof fn lemma_fault_stays(config: SchedulerConfig, log: Seq<HistoryEvent>, more: Seq<HistoryEvent>)
    requires
        FoldState::folded(config, log).violation is Some,
    ensures
        FoldState::folded(config, log + more).violation == FoldState::folded(config, log).violation,
    decreases more.len(),
{
    if more.len() == 0 {
        assert(log + more =~= log);
    } else {
        lemma_fault_stays(config, log, more.drop_last());
        assert((log + more).drop_last() =~= log + more.drop_last());
        assert((log + more).last() == more.last());
        law_first_fault_stands(FoldState::folded(config, log + more.drop_last()), more.last());
    }
}

/// The first structural fault is the one reported, for good: whatever is observed later neither mends
/// nor replaces it. A fault that settling raised is not final, since more services of the turn may
/// still be recorded.
pub proof fn law_reported_fault_is_final(
    before: ReferenceScheduler,
    after: ReferenceScheduler,
    more: Seq<HistoryEvent>,
)
    requires
        before.bounds().valid(),
        before.bounds() == after.bounds(),
        after.recorded() == before.recorded() + more,
        forall|i: int| 0 <= i < before.recorded().len() ==> event_ok(#[trigger] before.recorded()[i]),
        before.implied().verdict() is Some,
        raised_by_event(reported_site(before.implied())),
    ensures
        after.implied().verdict() == before.implied().verdict(),
{
    let config = before.bounds();
    let log = before.recorded();
    let s = FoldState::folded(config, log);
    law_every_item_is_accounted_for(config, log);
    lemma_settling_sites(s);
    assert(s.violation is Some);
    law_first_fault_stands(s, arbitrary());
    lemma_fault_stays(config, log, more);
    law_first_fault_stands(FoldState::folded(config, log + more), arbitrary());
}

/// Site of the fault that is reported.
pub open(crate) spec fn reported_site(s: FoldState) -> FaultSite {
    match s.verdict() {
        Some((site, _)) => site,
        None => FaultSite::EndOfSites,
    }
}

/// Settling raises only faults of the turn it settles.
proof fn lemma_settling_sites(s: FoldState)
    ensures
        s.violation is None && s.settled().violation is Some ==> !raised_by_event(
            reported_site(s.settled()),
        ),
{
}

} // verus!
