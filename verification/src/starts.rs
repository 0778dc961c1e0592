//! What everything is like before anything happened, and how a tick begins.

use vstd::prelude::*;

use crate::adapter::cluster::{DriveReport, ManagedCounterCluster, NetworkConfig};
use crate::adapter::state_machine::CounterStateMachine;
use crate::model::laws::lemma_traversal_frame;
use crate::model::reachable::{inv, lemma_awake_inv};
use crate::model::state::{PlanState, ReportState, SchedulerState};
use crate::model::ManagedScheduler;
use crate::node::app_store::ApplicationRecord;
use crate::node::engine::audit::Audit;
use crate::node::engine::desk::Desk;
use crate::node::engine::Engine;
use crate::node::record::StoredRecord;
use crate::oracle::ReferenceScheduler;
use crate::types::{
    GroupLifecycle, PassIndex, ReadinessSignal, SchedulerConfig, TickReport, WorkQuota,
};

verus! {

/// A new scheduler has no groups and no work; its clock stands at zero, its first pass and its first item
/// will have number one, and every worker is free.
pub proof fn law_schedulers_start_idle(config: SchedulerConfig, r: ManagedScheduler)
    requires
        call_ensures(ManagedScheduler::new, (config,), r),
    ensures
        ({
            let s = r.state();
            &&& s.config == config && s.slots.len() == 0 && s.plan is None
            &&& s.tick == 0 && s.next_pass@ == 1 && s.next_work == 1 && s.cursor == 0
            &&& s.queued == 0 && s.admitted == 0 && s.serviced == 0 && s.failed == 0
            &&& forall|w: int| 0 <= w < s.workers.len() ==> (#[trigger] s.workers[w]) is None
        }),
{
}

/// A new judge has seen nothing.
pub proof fn law_judges_start_unbiased(config: SchedulerConfig, r: ReferenceScheduler)
    requires
        call_ensures(ReferenceScheduler::new, (config,), r),
    ensures
        r.recorded().len() == 0,
        r.bounds() == config,
{
}

/// A new replica counts from zero, has applied nothing, and has no sessions.
pub proof fn law_replicas_start_at_zero(max_sessions: usize, r: CounterStateMachine)
    requires
        call_ensures(CounterStateMachine::new, (max_sessions,), r),
    ensures
        r.replica().value == 0,
        r.replica().applied_index == 0,
        r.replica().sessions.len() == 0,
        r.replica().max_sessions == max_sessions,
        forall|id: u64| !r.promoted().contains_key(id),
{
}

/// A new cluster has no groups, sessions, frames or work, and its first proposal will have number one.
pub proof fn law_clusters_start_empty(network: NetworkConfig, r: ManagedCounterCluster, key: u64)
    requires
        call_ensures(ManagedCounterCluster::new, (network,), r),
    ensures
        ({
            let s = r.state();
            &&& s.config == network && s.next_proposal == 1
            &&& !s.slots.contains_key(key) && !s.sessions.contains_key(key)
            &&& !s.completed.contains_key(key) && !s.failures.contains_key(key)
            &&& !s.pending.contains_key(key) && !s.work.contains_key(key)
            &&& !s.delays.contains_key(key)
            &&& s.network.len() == 0 && s.delayed.len() == 0
        }),
{
}

/// A new engine has paused nothing, is not stopping, has refused nothing, and its desk is empty: the
/// first proposal and the first barrier will have number one.
pub proof fn law_engines_start_open(
    node_id: u64,
    max_group_queue: usize,
    timeout: u64,
    max_sessions: usize,
    r: Engine,
    desk: Desk,
    key: u64,
)
    requires
        call_ensures(Engine::new, (node_id, max_group_queue, timeout, max_sessions), r),
        call_ensures(Desk::new, (timeout, max_sessions), desk),
    ensures
        ({
            let s = r.state();
            let d = s.desk;
            &&& s.node_id == node_id && s.max_group_queue == max_group_queue
            &&& !s.peers_paused && !s.recovery_paused && !s.stopping && s.refused_peer == 0
            &&& d == desk.state()
            &&& d.timeout == timeout && d.max_sessions == max_sessions
            &&& d.next_proposal == 1 && d.next_read == 1
            &&& d.barriers_started == 0 && d.client_admitted == 0 && d.recovery_refused == 0
            &&& !d.pending.contains_key(key) && !d.operations.contains_key(key)
            &&& !d.admissions.contains_key(key) && !d.reads.contains_key(key)
            &&& !d.deferred.contains_key(key)
            &&& d.candidates.len() == 0 && d.waiters.len() == 0
        }),
{
}

/// A new audit has counted nothing.
pub proof fn law_audits_start_at_zero(r: Audit, key: u64)
    requires
        call_ensures(Audit::new, (), r),
    ensures
        ({
            let s = r.state();
            &&& s.plans == 0 && s.opportunities == 0 && s.passes_completed == 0
            &&& s.certified_passes == 0 && s.invalid_plans == 0 && s.invalid_turns == 0
            &&& s.open is None && !s.groups.contains_key(key) && !s.per_group.contains_key(key)
        }),
{
}

/// The first record of a group serves its first incarnation, healthy, with its quota and nothing
/// outstanding or failed.
pub proof fn law_records_start_serving(
    max_sessions: usize,
    quota: WorkQuota,
    r: StoredRecord,
)
    requires
        call_ensures(ApplicationRecord::bootstrap, (max_sessions, quota), r),
    ensures
        r.policy.incarnation@ == 1,
        r.policy.lifecycle == GroupLifecycle::Serving,
        !r.policy.poisoned,
        r.policy.quota == quota,
        forall|k| !(#[trigger] r.rules().outstanding.contains_key(k)),
        forall|k| !(#[trigger] r.rules().terminal.contains_key(k)),
{
}

/// What two parts of a run report is added up, the first part's plans and turns first.
pub proof fn law_reports_add_up(report: &mut DriveReport, other: DriveReport)
    requires
        call_ensures(DriveReport::merge, (report, other), ()),
    ensures
        final(report).plans@ == old(report).plans@ + other.plans@,
        final(report).turns@ == old(report).turns@ + other.turns@,
        final(report).refused_peer_traffic@ == old(report).refused_peer_traffic@
            + other.refused_peer_traffic@,
        final(report).opportunities == old(report).opportunities + other.opportunities,
        final(report).serviced == old(report).serviced + other.serviced,
        final(report).failed == old(report).failed + other.failed,
        final(report).remote_failures == old(report).remote_failures + other.remote_failures,
{
}

/// A tick takes the clock on by one. It arms a plan only where no pass is open, under the next pass's
/// number, and then the pass after it is next; and it arms nothing where nobody is ready.
pub proof fn law_ticks_move_the_clock(
    scheduler: &mut ManagedScheduler,
    signals: &[ReadinessSignal],
    r: TickReport,
)
    requires
        call_ensures(ManagedScheduler::step, (scheduler, signals), r),
        inv(old(scheduler).state()),
        old(scheduler).state().tick < u64::MAX,
        old(scheduler).state().next_pass@ < u64::MAX,
    ensures
        ({
            let before = old(scheduler).state();
            let after = final(scheduler).state();
            &&& r.tick@ == before.tick + 1 && after.tick == before.tick + 1
            &&& r.armed is Some ==> after.next_pass@ == before.next_pass@ + 1
            &&& r.armed is None ==> after.next_pass == before.next_pass
            &&& r.armed is Some ==> before.plan is None && r.pass == Some(before.next_pass)
                && r.armed->0@.len() > 0
            &&& before.plan is Some ==> r.armed is None && r.pass == Some(before.plan->0.pass)
            &&& before.plan is None && r.armed is None ==> r.pass is None && r.offers@.len() == 0
                && r.serviced@.len() == 0
        }),
{
    let s = old(scheduler).state();
    let awake = s.awake(signals@);
    let report = s.opening_report(signals@);
    lemma_awake_inv(s, signals@);
    match awake.plan {
        Some(plan) => {
            lemma_traversal_frame(
                SchedulerState { plan: None, ..awake },
                plan,
                ReportState { pass: Some(plan.pass), ..report },
            );
        },
        None => {
            let pass = awake.next_pass;
            let entries = awake.plan_order();
            lemma_traversal_frame(
                SchedulerState { next_pass: PassIndex::at(pass@ + 1), ..awake },
                PlanState { pass, entries, next: 0 },
                ReportState { pass: Some(pass), armed: Some(entries), ..report },
            );
        },
    }
}

} // verus!
