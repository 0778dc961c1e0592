//! What a snapshot restores, what a run goes through, and what an accepted run has shown.

use vstd::prelude::*;

use crate::adapter::audit::{
    audit_acceptance, expected_for, item_fault, items_audit, turns_audit, AcceptanceAuditReport,
    AcceptanceExpectation, AcceptanceViolation, ExpectedWork, ManagedMetrics,
};
use crate::adapter::cluster::checkpoint::{
    CheckpointError, CounterGroupCheckpoint, RestoredCounterGroup,
};
use crate::adapter::cluster::drive::{Drive, DriveEnd, DriveEvent, DrivePhase};
use crate::adapter::cluster::{DriveReport, DriveTurn, DrivenItem, ManagedCounterCluster};
use crate::adapter::codec::decoded_snapshot;
use crate::adapter::state_machine::{
    law_snapshot_restores_the_replica, ApplicationSnapshot, CounterStateMachine,
    CounterStateMachineError,
};
use crate::types::{GroupId, GroupLifecycle, WorkClass};

verus! {

// ------------------------------------------------------------------ snapshots

/// A snapshot is captured only at the index that was applied last. Installed on a machine of the same
/// bound, or opened anew, it gives exactly the replica it was captured from.
pub proof fn law_captured_state_is_restored(
    captured: &mut CounterStateMachine,
    at: u64,
    snapshot: Result<ApplicationSnapshot, CounterStateMachineError>,
    installed: &mut CounterStateMachine,
    done: Result<(), CounterStateMachineError>,
    max_sessions: usize,
    opened: Result<CounterStateMachine, CounterStateMachineError>,
)
    requires
        call_ensures(CounterStateMachine::build_snapshot, (captured, at), snapshot),
        old(captured).wf(),
        snapshot is Ok ==> call_ensures(
            CounterStateMachine::install_snapshot,
            (installed, snapshot->Ok_0),
            done,
        ),
        snapshot is Ok ==> call_ensures(
            CounterStateMachine::from_snapshot,
            (max_sessions, snapshot->Ok_0),
            opened,
        ),
        old(installed).replica().max_sessions == old(captured).replica().max_sessions,
        max_sessions == old(captured).replica().max_sessions,
    ensures
        snapshot is Ok <==> at == old(captured).replica().applied_index,
        snapshot is Err ==> snapshot->Err_0 == CounterStateMachineError::SnapshotIndexMismatch,
        final(captured).replica() == old(captured).replica(),
        snapshot is Ok ==> {
            let was = old(captured).replica();
            &&& done is Ok
            &&& final(installed).replica().value == was.value
            &&& final(installed).replica().applied_index == was.applied_index
            &&& final(installed).replica().sessions == was.sessions
            &&& opened is Ok
            &&& opened->Ok_0.replica().value == was.value
            &&& opened->Ok_0.replica().applied_index == was.applied_index
            &&& opened->Ok_0.replica().sessions == was.sessions
        },
{
    law_snapshot_restores_the_replica(old(captured).replica());
}

/// A snapshot that cannot be installed changes nothing: one without its payload, one that is no
/// snapshot, and one whose payload is of another index than it says.
pub proof fn law_bad_snapshots_change_nothing(
    machine: &mut CounterStateMachine,
    snapshot: ApplicationSnapshot,
    r: Result<(), CounterStateMachineError>,
)
    requires
        call_ensures(CounterStateMachine::install_snapshot, (machine, snapshot), r),
    ensures
        r is Err ==> final(machine).replica() == old(machine).replica(),
        snapshot.payload@.len() == 0 && snapshot.transfer_id is None ==> r == Err::<
            (),
            CounterStateMachineError,
        >(CounterStateMachineError::PromotedSnapshotMissing),
        snapshot.payload@.len() == 0 && snapshot.transfer_id is Some && !old(
            machine).promoted().contains_key(snapshot.transfer_id->0) ==> r == Err::<
            (),
            CounterStateMachineError,
        >(CounterStateMachineError::PromotedSnapshotMissing),
        r is Ok && snapshot.payload@.len() > 0 ==> final(machine).replica().applied_index
            == snapshot.applied_index && (decoded_snapshot(
            snapshot.payload@,
            old(machine).replica().max_sessions,
        ) matches Ok((index, value, sessions)) && value == final(machine).replica().value && sessions
            == final(machine).replica().sessions && index == snapshot.applied_index),
{
}

/// A checkpoint restores its group under its own identity and with its own sessions.
pub proof fn law_checkpoints_keep_their_group(
    checkpoint: CounterGroupCheckpoint,
    max_sessions: usize,
    r: Result<RestoredCounterGroup, CheckpointError>,
)
    requires
        call_ensures(CounterGroupCheckpoint::restore, (checkpoint, max_sessions), r),
    ensures
        r is Ok ==> {
            let group = r->Ok_0;
            &&& group.group_id == checkpoint.group_id
            &&& group.incarnation == checkpoint.incarnation
            &&& group.lifecycle == checkpoint.lifecycle
            &&& group.quota == checkpoint.quota
            &&& group.sessions@ == checkpoint.sessions@
            &&& group.state_machine.replica().applied_index == checkpoint.application.applied_index
            &&& group.state_machine.replica().max_sessions == max_sessions
        },
        r is Err ==> r->Err_0 is StateMachine,
{
}

/// Only a group that is not there, is gone for now or for good, and has no sessions comes back from a
/// checkpoint, as it was.
pub proof fn law_inactive_groups_come_back(
    cluster: &mut ManagedCounterCluster,
    checkpoint: CounterGroupCheckpoint,
    max_sessions: usize,
    r: Result<(), CheckpointError>,
)
    requires
        call_ensures(
            ManagedCounterCluster::restore_inactive_checkpoint,
            (cluster, checkpoint, max_sessions),
            r,
        ),
    ensures
        ({
            let before = old(cluster).state();
            let after = final(cluster).state();
            let key = checkpoint.group_id@ as u64;
            let gone = checkpoint.lifecycle == GroupLifecycle::Removed || checkpoint.lifecycle
                == GroupLifecycle::Tombstoned;
            &&& before.slots.contains_key(key) ==> r == Err::<(), CheckpointError>(
                CheckpointError::GroupAlreadyPresent,
            )
            &&& !before.slots.contains_key(key) && !gone ==> r == Err::<(), CheckpointError>(
                CheckpointError::ActiveLifecycle(checkpoint.lifecycle),
            )
            &&& r is Err ==> after == before
            &&& r is Ok ==> {
                &&& checkpoint.sessions@.len() == 0
                &&& after.slots.contains_key(key)
                &&& after.slots[key].incarnation == checkpoint.incarnation
                &&& after.slots[key].lifecycle == checkpoint.lifecycle
                &&& after.slots[key].quota == checkpoint.quota
                &&& !after.slots[key].poisoned
                &&& after.slots[key].applied_index == checkpoint.application.applied_index
                &&& after.sessions == before.sessions
            }
        }),
{
}

// ----------------------------------------------------------------------- runs

/// A run restores, executes what is due, measures and routes what waits, arms, and dispatches to the
/// end of the pass or settles. It ends idle after a quiet round without a held dispatch, exhausted after
/// its last round, and failed at the first failure.
pub proof fn law_runs_go_round(drive: Drive, event: DriveEvent, r: Drive, budget: usize, start: Drive)
    requires
        call_ensures(Drive::advance, (drive, event), r),
        drive.valid(),
        drive.fits(event),
        call_ensures(Drive::new, (budget,), start),
    ensures
        budget == 0 <==> start.phase == (DrivePhase::Ended { end: DriveEnd::Exhausted { rounds: 0 } }),
        budget > 0 <==> start.phase == DrivePhase::Restore,
        start.left == budget && start.budget == budget && !start.delayed,
        event is Failed <==> r.phase == (DrivePhase::Ended { end: DriveEnd::Failed }),
        event matches DriveEvent::Progressed { held, due } ==> r.delayed == held && (due > 0 ==> r.phase
            == (DrivePhase::Execute { left: due })) && (due == 0 ==> r.phase == DrivePhase::Measure),
        drive.phase matches DrivePhase::Execute { left } ==> (event is Executed ==> (left > 1
            ==> r.phase == (DrivePhase::Execute { left: (left - 1) as usize })) && (left == 1
            ==> r.phase == DrivePhase::Measure)),
        event matches DriveEvent::Measured { envelopes } ==> (envelopes > 0 ==> r.phase == (
        DrivePhase::Route { left: envelopes })) && (envelopes == 0 ==> r.phase == DrivePhase::Arm),
        drive.phase matches DrivePhase::Route { left } ==> (event is Routed ==> (left > 1 ==> r.phase
            == (DrivePhase::Route { left: (left - 1) as usize })) && (left == 1 ==> r.phase
            == DrivePhase::Arm)),
        event is Returned ==> r.phase == DrivePhase::Arm,
        event is Armed || event is Turned ==> r.phase == DrivePhase::Dispatch,
        event is Nothing ==> r.phase == DrivePhase::Settle,
        event == (DriveEvent::Settled { quiet: true }) && !drive.delayed ==> r.phase == (
        DrivePhase::Ended { end: DriveEnd::Idle }),
        event is PassEnded || event == (DriveEvent::Settled { quiet: false }) || (event == (
        DriveEvent::Settled { quiet: true }) && drive.delayed) ==> if drive.left == 1 {
            r.phase == (DrivePhase::Ended { end: DriveEnd::Exhausted { rounds: drive.budget } })
        } else {
            r.phase == DrivePhase::Restore && r.left == drive.left - 1
        },
        !(event is Progressed) ==> r.delayed == drive.delayed,
{
}

// ----------------------------------------------------------------- acceptance

/// The turn belongs to the first pass.
pub open spec fn in_first_pass(turns: Seq<DriveTurn>, k: int) -> bool {
    0 <= k < turns.len() && turns[k].pass_id == turns[0].pass_id
}

/// The item is accepted work of this group, in this class.
pub open spec fn is_accepted(accepted: Seq<ExpectedWork>, group: GroupId, item: DrivenItem) -> bool {
    exists|e: int|
        0 <= e < accepted.len() && (#[trigger] accepted[e]).work_id == item.work_id
            && accepted[e].group_id == group && accepted[e].class == item.class
}

/// A turn of a sound run: its group is in the plan, within its quota, and its items are accepted work of
/// the group, the more urgent classes first.
pub open spec fn sound_turn(
    expectation: AcceptanceExpectation,
    plan: Seq<GroupId>,
    turn: DriveTurn,
) -> bool {
    let key = turn.group_id@ as u64;
    &&& plan.contains(turn.group_id)
    &&& turn.items@.len() <= if expectation.quotas@.contains_key(key) {
        expectation.quotas@[key] as nat
    } else {
        0nat
    }
    &&& forall|i: int|
        0 <= i < turn.items@.len() ==> is_accepted(
            expectation.accepted@,
            turn.group_id,
            #[trigger] turn.items@[i],
        )
    &&& forall|i: int, j: int|
        0 <= i < j < turn.items@.len() ==> (#[trigger] turn.items@[i]).class.rank() <= (
        #[trigger] turn.items@[j]).class.rank()
}

/// The item stands in a turn of the first pass.
pub open spec fn stands_in(turns: Seq<DriveTurn>, n: int, k: int, i: int, work: u64) -> bool {
    &&& 0 <= k < n
    &&& in_first_pass(turns, k)
    &&& 0 <= i < turns[k].items@.len()
    &&& turns[k].items@[i].work_id == work
}

proof fn lemma_expected(accepted: Seq<ExpectedWork>, n: int, work: u64)
    requires
        0 <= n <= accepted.len(),
        expected_for(accepted, n, work) is Some,
    ensures
        exists|e: int|
            0 <= e < n && (#[trigger] accepted[e]) == expected_for(accepted, n, work)->0
                && accepted[e].work_id == work,
    decreases n,
{
    if n > 0 {
        if accepted[n - 1].work_id == work {
            assert(accepted[n - 1] == expected_for(accepted, n, work)->0);
        } else {
            lemma_expected(accepted, n - 1, work);
            let e = choose|e: int|
                0 <= e < n - 1 && (#[trigger] accepted[e]) == expected_for(accepted, n - 1, work)->0
                    && accepted[e].work_id == work;
            assert(accepted[e] == expected_for(accepted, n, work)->0);
        }
    }
}

proof fn lemma_items(
    group: GroupId,
    items: Seq<DrivenItem>,
    accepted: Seq<ExpectedWork>,
    terminal: Seq<u64>,
    n: int,
)
    requires
        0 <= n <= items.len(),
        items_audit(group, items, accepted, terminal, n) is Ok,
    ensures
        ({
            let out = items_audit(group, items, accepted, terminal, n)->Ok_0;
            &&& out == terminal + Seq::new(n as nat, |i: int| items[i].work_id)
            &&& forall|i: int|
                0 <= i < n ==> is_accepted(accepted, group, #[trigger] items[i])
                    && !terminal.contains(items[i].work_id)
            &&& forall|i: int, j: int|
                0 <= i < j < n ==> (#[trigger] items[i]).work_id != (#[trigger] items[j]).work_id
                    && items[i].class.rank() <= items[j].class.rank()
        }),
    decreases n,
{
    if n > 0 {
        lemma_items(group, items, accepted, terminal, n - 1);
        let before = items_audit(group, items, accepted, terminal, n - 1)->Ok_0;
        let item = items[n - 1];
        let previous = if n >= 2 {
            Some(items[n - 2].class)
        } else {
            None
        };
        assert(item_fault(group, previous, item, accepted, before) is None);
        lemma_expected(accepted, accepted.len() as int, item.work_id);
        let found = expected_for(accepted, accepted.len() as int, item.work_id)->0;
        let e = choose|e: int|
            0 <= e < accepted.len() && (#[trigger] accepted[e]) == found && accepted[e].work_id
                == item.work_id;
        assert(accepted[e].group_id == group && accepted[e].class == item.class);
        assert(is_accepted(accepted, group, item));
        let out = items_audit(group, items, accepted, terminal, n)->Ok_0;
        assert(out =~= terminal + Seq::new(n as nat, |i: int| items[i].work_id));
        assert(!before.contains(item.work_id));
        assert(!terminal.contains(item.work_id)) by {
            if terminal.contains(item.work_id) {
                let k = choose|k: int| 0 <= k < terminal.len() && terminal[k] == item.work_id;
                assert(before[k] == item.work_id);
            }
        }
        assert forall|i: int, j: int| 0 <= i < j < n implies (#[trigger] items[i]).work_id != (
        #[trigger] items[j]).work_id && items[i].class.rank() <= items[j].class.rank() by {
            if j == n - 1 {
                assert(before[terminal.len() + i] == items[i].work_id);
                if i < n - 2 {
                    assert(items[i].class.rank() <= items[n - 2].class.rank());
                }
            }
        }
    }
}

/// What the audit of the first `n` turns has shown.
pub open spec fn shown(
    expectation: AcceptanceExpectation,
    plan: Seq<GroupId>,
    turns: Seq<DriveTurn>,
    n: int,
    opportunities: Seq<GroupId>,
    terminal: Seq<u64>,
) -> bool {
    &&& forall|k: int|
        0 <= k < n && in_first_pass(turns, k) ==> sound_turn(expectation, plan, #[trigger] turns[k])
            && opportunities.contains(turns[k].group_id)
    &&& forall|k: int, l: int|
        0 <= k < l < n && in_first_pass(turns, k) && in_first_pass(turns, l) ==> (
        #[trigger] turns[k]).group_id != (#[trigger] turns[l]).group_id
    &&& forall|group: GroupId| #[trigger]
        opportunities.contains(group) ==> exists|k: int|
            0 <= k < n && in_first_pass(turns, k) && (#[trigger] turns[k]).group_id == group
    &&& forall|work: u64| #[trigger]
        terminal.contains(work) <==> exists|k: int, i: int| stands_in(turns, n, k, i, work)
    &&& forall|k: int, i: int, l: int, j: int, work: u64|
        #[trigger] stands_in(turns, n, k, i, work) && #[trigger] stands_in(turns, n, l, j, work)
            ==> k == l && i == j
}

#[verifier::spinoff_prover]
#[verifier::rlimit(60)]
proof fn lemma_turns(
    expectation: AcceptanceExpectation,
    plan: Seq<GroupId>,
    turns: Seq<DriveTurn>,
    n: int,
)
    requires
        0 <= n <= turns.len(),
        turns_audit(expectation, plan, turns, n) is Ok,
    ensures
        shown(
            expectation,
            plan,
            turns,
            n,
            turns_audit(expectation, plan, turns, n)->Ok_0.opportunities,
            turns_audit(expectation, plan, turns, n)->Ok_0.terminal,
        ),
    decreases n,
{
    if n > 0 {
        lemma_turns(expectation, plan, turns, n - 1);
        let before = turns_audit(expectation, plan, turns, n - 1)->Ok_0;
        let after = turns_audit(expectation, plan, turns, n)->Ok_0;
        let turn = turns[n - 1];
        let items = turn.items@;
        let m = n - 1;
        assert forall|work: u64, k: int, i: int| k < n - 1 implies stands_in(
            turns,
            m,
            k,
            i,
            work,
        ) == #[trigger] stands_in(turns, n, k, i, work) by {}
        if in_first_pass(turns, n - 1) {
            lemma_items(
                turn.group_id,
                items,
                expectation.accepted@,
                before.terminal,
                items.len() as int,
            );
            let added = Seq::new(items.len(), |i: int| items[i].work_id);
            assert(after.terminal == before.terminal + added);
            assert(after.opportunities == before.opportunities.push(turn.group_id));
            assert(after.opportunities[before.opportunities.len() as int] == turn.group_id);
            assert forall|group: GroupId| #[trigger] after.opportunities.contains(group) == (
            before.opportunities.contains(group) || group == turn.group_id) by {
                if before.opportunities.contains(group) {
                    let k = choose|k: int|
                        0 <= k < before.opportunities.len() && before.opportunities[k] == group;
                    assert(after.opportunities[k] == group);
                }
                if after.opportunities.contains(group) && group != turn.group_id {
                    let k = choose|k: int|
                        0 <= k < after.opportunities.len() && after.opportunities[k] == group;
                    assert(before.opportunities[k] == group);
                }
            }
            assert(sound_turn(expectation, plan, turn));
            assert forall|k: int, l: int|
                0 <= k < l < n && in_first_pass(turns, k) && in_first_pass(turns, l) implies (
            #[trigger] turns[k]).group_id != (#[trigger] turns[l]).group_id by {
                if l == n - 1 {
                    assert(before.opportunities.contains(turns[k].group_id));
                }
            }
            assert forall|group: GroupId| #[trigger] after.opportunities.contains(
                group,
            ) implies exists|k: int|
                0 <= k < n && in_first_pass(turns, k) && (#[trigger] turns[k]).group_id == group by {
                if before.opportunities.contains(group) {
                    let k = choose|k: int|
                        0 <= k < n - 1 && in_first_pass(turns, k) && (#[trigger] turns[k]).group_id
                            == group;
                    assert(turns[k].group_id == group);
                } else {
                    assert(turns[n - 1].group_id == group);
                }
            }
            assert forall|work: u64| #[trigger] after.terminal.contains(work) <==> exists|
                k: int,
                i: int,
            | stands_in(turns, n, k, i, work) by {
                if after.terminal.contains(work) {
                    let p = choose|p: int|
                        0 <= p < after.terminal.len() && after.terminal[p] == work;
                    if p < before.terminal.len() {
                        assert(before.terminal[p] == work);
                        assert(before.terminal.contains(work));
                        let (k, i) = choose|k: int, i: int| stands_in(turns, m, k, i, work);
                        assert(stands_in(turns, n, k, i, work));
                    } else {
                        let i = p - before.terminal.len();
                        assert(added[i] == work);
                        assert(stands_in(turns, n, n - 1, i, work));
                    }
                }
                if exists|k: int, i: int| stands_in(turns, n, k, i, work) {
                    let (k, i) = choose|k: int, i: int| stands_in(turns, n, k, i, work);
                    if k < n - 1 {
                        assert(stands_in(turns, m, k, i, work));
                        assert(before.terminal.contains(work));
                        let p = choose|p: int|
                            0 <= p < before.terminal.len() && before.terminal[p] == work;
                        assert(after.terminal[p] == work);
                    } else {
                        assert(after.terminal[before.terminal.len() + i] == work);
                    }
                }
            }
            assert forall|k: int, i: int, l: int, j: int, work: u64|
                #[trigger] stands_in(turns, n, k, i, work) && #[trigger] stands_in(
                    turns,
                    n,
                    l,
                    j,
                    work,
                ) implies k == l && i == j by {
                if k == n - 1 && l == n - 1 {
                    if i < j {
                        assert(items[i].work_id != items[j].work_id);
                    }
                    if j < i {
                        assert(items[j].work_id != items[i].work_id);
                    }
                } else if k == n - 1 {
                    assert(stands_in(turns, m, l, j, work));
                    assert(before.terminal.contains(work));
                    assert(!before.terminal.contains(items[i].work_id));
                } else if l == n - 1 {
                    assert(stands_in(turns, m, k, i, work));
                    assert(before.terminal.contains(work));
                    assert(!before.terminal.contains(items[j].work_id));
                } else {
                    assert(stands_in(turns, m, k, i, work));
                    assert(stands_in(turns, m, l, j, work));
                }
            }
        } else {
            assert(after == before);
            assert forall|work: u64| #[trigger] after.terminal.contains(work) <==> exists|
                k: int,
                i: int,
            | stands_in(turns, n, k, i, work) by {
                if before.terminal.contains(work) {
                    let (k, i) = choose|k: int, i: int| stands_in(turns, m, k, i, work);
                    assert(stands_in(turns, n, k, i, work));
                }
                if exists|k: int, i: int| stands_in(turns, n, k, i, work) {
                    let (k, i) = choose|k: int, i: int| stands_in(turns, n, k, i, work);
                    assert(stands_in(turns, m, k, i, work));
                }
            }
            assert forall|k: int, i: int, l: int, j: int, work: u64|
                #[trigger] stands_in(turns, n, k, i, work) && #[trigger] stands_in(
                    turns,
                    n,
                    l,
                    j,
                    work,
                ) implies k == l && i == j by {
                assert(stands_in(turns, m, k, i, work));
                assert(stands_in(turns, m, l, j, work));
            }
        }
    }
}

/// An accepted run has shown, by its own report: its first plan is the groups that were ready; every
/// turn of the first pass is sound, and no group had two; every ready group had one; no item was
/// disposed of twice; the counters balance and no worker is left; and where nothing is queued or in
/// flight any more, every accepted item was disposed of. The report repeats the counters.
pub proof fn law_accepted_runs_are_sound(
    expectation: AcceptanceExpectation,
    report: DriveReport,
    metrics: ManagedMetrics,
    r: Result<AcceptanceAuditReport, AcceptanceViolation>,
)
    requires
        call_ensures(audit_acceptance, (&expectation, &report, &metrics), r),
        r is Ok,
    ensures
        ({
            let turns = report.turns@;
            let ready = expectation.ready@;
            &&& report.plans@.len() > 0 && report.plans@[0]@ == ready && turns.len() > 0
            &&& forall|k: int|
                in_first_pass(turns, k) ==> sound_turn(expectation, ready, #[trigger] turns[k])
            &&& forall|k: int, l: int|
                k < l && in_first_pass(turns, k) && in_first_pass(turns, l) ==> (
                #[trigger] turns[k]).group_id != (#[trigger] turns[l]).group_id
            &&& forall|group: GroupId| #[trigger]
                ready.contains(group) ==> exists|k: int|
                    in_first_pass(turns, k) && (#[trigger] turns[k]).group_id == group
            &&& forall|k: int, i: int, l: int, j: int, work: u64|
                #[trigger] stands_in(turns, turns.len() as int, k, i, work)
                    && #[trigger] stands_in(turns, turns.len() as int, l, j, work) ==> k == l && i
                    == j
            &&& metrics.occupied_workers == 0
            &&& metrics.admitted < u64::MAX ==> metrics.admitted == metrics.serviced + metrics.failed
                + metrics.queued + metrics.in_flight_work
            &&& metrics.queued + metrics.in_flight_work == 0 ==> forall|e: int|
                0 <= e < expectation.accepted@.len() ==> exists|k: int, i: int|
                    stands_in(
                        turns,
                        turns.len() as int,
                        k,
                        i,
                        (#[trigger] expectation.accepted@[e]).work_id,
                    )
            &&& r->Ok_0.passes == report.plans@.len()
            &&& r->Ok_0.ready_width == ready.len()
            &&& r->Ok_0.admitted == metrics.admitted
            &&& r->Ok_0.serviced == metrics.serviced
            &&& r->Ok_0.failed == metrics.failed
            &&& r->Ok_0.queued == metrics.queued
            &&& r->Ok_0.in_flight == metrics.in_flight_work
            &&& r->Ok_0.widest_gap == 0
        }),
{
    let turns = report.turns@;
    let ready = expectation.ready@;
    lemma_turns(expectation, ready, turns, turns.len() as int);
    let sound = turns_audit(expectation, ready, turns, turns.len() as int)->Ok_0;
    assert(report.plans.len() == report.plans@.len());
    assert(expectation.ready.len() == ready.len());
    assert forall|group: GroupId| #[trigger] ready.contains(group) implies exists|k: int|
        in_first_pass(turns, k) && (#[trigger] turns[k]).group_id == group by {
        lemma_nothing_missing(ready, sound.opportunities, group);
        assert(sound.opportunities.contains(group));
        let k = choose|k: int|
            0 <= k < turns.len() && in_first_pass(turns, k) && (#[trigger] turns[k]).group_id
                == group;
        assert(turns[k].group_id == group);
    }
    if metrics.queued + metrics.in_flight_work == 0 {
        assert forall|e: int| 0 <= e < expectation.accepted@.len() implies exists|k: int, i: int|
            stands_in(
                turns,
                turns.len() as int,
                k,
                i,
                (#[trigger] expectation.accepted@[e]).work_id,
            ) by {
            lemma_all_accounted(expectation.accepted@, sound.terminal, 0, e);
            assert(sound.terminal.contains(expectation.accepted@[e].work_id));
        }
    }
}

proof fn lemma_nothing_missing(ready: Seq<GroupId>, opportunities: Seq<GroupId>, group: GroupId)
    requires
        crate::adapter::audit::missing_groups(ready, opportunities).len() == 0,
        ready.contains(group),
    ensures
        opportunities.contains(group),
{
    broadcast use vstd::seq_lib::group_filter_ensures;

    let missing = |g: GroupId| !opportunities.contains(g);
    if !opportunities.contains(group) {
        let k = choose|k: int| 0 <= k < ready.len() && ready[k] == group;
        assert(missing(ready[k]));
        assert(ready.filter(missing).contains(ready[k]));
    }
}

proof fn lemma_all_accounted(accepted: Seq<ExpectedWork>, terminal: Seq<u64>, from: int, e: int)
    requires
        0 <= from <= e < accepted.len(),
        crate::adapter::audit::first_unaccounted(accepted, terminal, from) is None,
    ensures
        terminal.contains(accepted[e].work_id),
    decreases e - from,
{
    if from < e {
        lemma_all_accounted(accepted, terminal, from + 1, e);
    }
}

/// A run without a plan or without a turn is empty, and one whose first plan is not the ready groups is
/// refused with both.
pub proof fn law_runs_need_their_plan(
    expectation: AcceptanceExpectation,
    report: DriveReport,
    metrics: ManagedMetrics,
    r: Result<AcceptanceAuditReport, AcceptanceViolation>,
)
    requires
        call_ensures(audit_acceptance, (&expectation, &report, &metrics), r),
    ensures
        report.plans@.len() == 0 ==> r is Err && r->Err_0 is EmptyRun,
        report.plans@.len() > 0 && report.plans@[0]@ != expectation.ready@ ==> (r matches Err(
            AcceptanceViolation::PlanMismatch { expected, actual },
        ) && expected@ == expectation.ready@ && actual@ == report.plans@[0]@),
        report.plans@.len() > 0 && report.plans@[0]@ == expectation.ready@ && report.turns@.len()
            == 0 ==> r is Err && r->Err_0 is EmptyRun,
{
}

/// What is wrong with an item: its class comes too late, nobody accepted it, it was accepted elsewhere
/// or otherwise, or it was disposed of before.
pub proof fn law_items_are_faulted(
    group: GroupId,
    previous: Option<WorkClass>,
    item: DrivenItem,
    accepted: Seq<ExpectedWork>,
    terminal: Seq<u64>,
)
    ensures
        ({
            let r = item_fault(group, previous, item, accepted, terminal);
            let late = previous is Some && item.class.rank() < previous->0.rank();
            let known = exists|e: int|
                0 <= e < accepted.len() && (#[trigger] accepted[e]).work_id == item.work_id;
            &&& late <==> r is Some && r->0 is ClassOutOfOrder
            &&& !late && !known <==> r is Some && r->0 is UnknownWork
            &&& r is None ==> is_accepted(accepted, group, item) && !terminal.contains(item.work_id)
            &&& r is Some && r->0 is DuplicateDisposition ==> terminal.contains(item.work_id)
        }),
{
    let n = accepted.len() as int;
    let found = expected_for(accepted, n, item.work_id);
    if found is Some {
        lemma_expected(accepted, n, item.work_id);
        let e = choose|e: int|
            0 <= e < n && (#[trigger] accepted[e]) == found->0 && accepted[e].work_id
                == item.work_id;
        assert(accepted[e].work_id == item.work_id);
    } else {
        assert forall|e: int| 0 <= e < n implies (#[trigger] accepted[e]).work_id
            != item.work_id by {
            lemma_unexpected(accepted, n, item.work_id, e);
        }
    }
}

proof fn lemma_unexpected(accepted: Seq<ExpectedWork>, n: int, work: u64, e: int)
    requires
        0 <= e < n <= accepted.len(),
        expected_for(accepted, n, work) is None,
    ensures
        accepted[e].work_id != work,
    decreases n,
{
    if e < n - 1 {
        lemma_unexpected(accepted, n - 1, work, e);
    }
}

/// The item of a turn of the first pass is this work.
pub open spec fn disposes(turns: Seq<DriveTurn>, k: int, i: int, work: u64) -> bool {
    &&& in_first_pass(turns, k)
    &&& 0 <= i < turns[k].items@.len()
    &&& turns[k].items@[i].work_id == work
}

/// In a turn of the first pass an item of the one class is followed by an item of the other.
pub open spec fn follows(
    turns: Seq<DriveTurn>,
    k: int,
    i: int,
    previous: WorkClass,
    actual: WorkClass,
) -> bool {
    &&& in_first_pass(turns, k)
    &&& 0 < i < turns[k].items@.len()
    &&& turns[k].items@[i - 1].class == previous
    &&& turns[k].items@[i].class == actual
}

/// The run disposed of work that nobody accepted.
pub open spec fn nobody_accepted(
    expectation: AcceptanceExpectation,
    turns: Seq<DriveTurn>,
    work: u64,
) -> bool {
    &&& exists|k: int, i: int| disposes(turns, k, i, work)
    &&& forall|e: int|
        0 <= e < expectation.accepted@.len() ==> (#[trigger] expectation.accepted@[e]).work_id != work
}

/// The run disposed of the work in this group and class.
pub open spec fn strayed(
    turns: Seq<DriveTurn>,
    work: u64,
    group: GroupId,
    class: WorkClass,
) -> bool {
    exists|k: int, i: int| #[trigger]
        disposes(turns, k, i, work) && turns[k].group_id == group && turns[k].items@[i].class == class
}

/// The work was accepted for this group and class.
pub open spec fn accepted_as(
    expectation: AcceptanceExpectation,
    work: u64,
    group: GroupId,
    class: WorkClass,
) -> bool {
    exists|e: int|
        0 <= e < expectation.accepted@.len() && (#[trigger] expectation.accepted@[e]).work_id == work
            && expectation.accepted@[e].group_id == group && expectation.accepted@[e].class == class
}

/// The run disposed of the work twice.
pub open spec fn disposed_twice(turns: Seq<DriveTurn>, work: u64) -> bool {
    exists|k: int, i: int, l: int, j: int| #[trigger]
        disposes(turns, k, i, work) && #[trigger] disposes(turns, l, j, work) && (k != l || i != j)
}

/// What a violation says of the run is so: the group, work, classes and counts it names are those of a
/// turn of the first pass that breaks the rule.
pub open spec fn is_real(
    expectation: AcceptanceExpectation,
    turns: Seq<DriveTurn>,
    violation: AcceptanceViolation,
) -> bool {
    match violation {
        AcceptanceViolation::OpportunityOutsidePlan { group_id } => {
            &&& !expectation.ready@.contains(group_id)
            &&& exists|k: int| in_first_pass(turns, k) && (#[trigger] turns[k]).group_id == group_id
        },
        AcceptanceViolation::DuplicateOpportunity { group_id } => exists|k: int, l: int|
            k < l && in_first_pass(turns, k) && in_first_pass(turns, l) && (
            #[trigger] turns[k]).group_id == group_id && (#[trigger] turns[l]).group_id == group_id,
        AcceptanceViolation::QuotaExceeded { group_id, quota, actual } => {
            &&& actual > quota
            &&& expectation.quotas@.contains_key(group_id@ as u64) ==> quota
                == expectation.quotas@[group_id@ as u64]
            &&& !expectation.quotas@.contains_key(group_id@ as u64) ==> quota == 0
            &&& exists|k: int|
                in_first_pass(turns, k) && (#[trigger] turns[k]).group_id == group_id
                    && turns[k].items@.len() == actual
        },
        AcceptanceViolation::ClassOutOfOrder { group_id, previous, actual } => {
            &&& actual.rank() < previous.rank()
            &&& exists|k: int, i: int|
                follows(turns, k, i, previous, actual) && turns[k].group_id == group_id
        },
        AcceptanceViolation::UnknownWork { work_id } => nobody_accepted(expectation, turns, work_id),
        AcceptanceViolation::WorkRouteChanged {
            work_id,
            expected_group,
            actual_group,
            expected_class,
            actual_class,
        } => {
            &&& expected_group != actual_group || expected_class != actual_class
            &&& strayed(turns, work_id, actual_group, actual_class)
            &&& accepted_as(expectation, work_id, expected_group, expected_class)
        },
        AcceptanceViolation::DuplicateDisposition { work_id } => disposed_twice(turns, work_id),
        _ => false,
    }
}

#[verifier::spinoff_prover]
proof fn lemma_item_violation(
    expectation: AcceptanceExpectation,
    turns: Seq<DriveTurn>,
    k: int,
    terminal: Seq<u64>,
    n: int,
)
    requires
        in_first_pass(turns, k),
        0 <= n <= turns[k].items@.len(),
        items_audit(
            turns[k].group_id,
            turns[k].items@,
            expectation.accepted@,
            terminal,
            n,
        ) is Err,
        forall|work: u64| #[trigger]
            terminal.contains(work) ==> exists|l: int, i: int| stands_in(turns, k, l, i, work),
    ensures
        is_real(
            expectation,
            turns,
            items_audit(
                turns[k].group_id,
                turns[k].items@,
                expectation.accepted@,
                terminal,
                n,
            )->Err_0,
        ),
    decreases n,
{
    let group = turns[k].group_id;
    let items = turns[k].items@;
    let accepted = expectation.accepted@;
    if n > 0 {
        if items_audit(group, items, accepted, terminal, n - 1) is Err {
            lemma_item_violation(expectation, turns, k, terminal, n - 1);
        } else {
            let m = n - 1;
            let before = items_audit(group, items, accepted, terminal, m)->Ok_0;
            let item = items[m];
            let work = item.work_id;
            lemma_items(group, items, accepted, terminal, m);
            assert(disposes(turns, k, m, work));
            let found = expected_for(accepted, accepted.len() as int, work);
            let previous = if n >= 2 {
                Some(items[n - 2].class)
            } else {
                None
            };
            let fault = item_fault(group, previous, item, accepted, before);
            assert(fault is Some);
            assert(items_audit(group, items, accepted, terminal, n)->Err_0 == fault->0);
            if found is Some {
                lemma_expected(accepted, accepted.len() as int, work);
            } else {
                assert forall|e: int| 0 <= e < accepted.len() implies (
                #[trigger] accepted[e]).work_id != work by {
                    lemma_unexpected(accepted, accepted.len() as int, work, e);
                }
            }
            if previous is Some && item.class.rank() < previous->0.rank() {
                assert(fault == Some(
                    AcceptanceViolation::ClassOutOfOrder {
                        group_id: group,
                        previous: items[m - 1].class,
                        actual: item.class,
                    },
                ));
                assert(follows(turns, k, m, items[m - 1].class, item.class));
                assert(is_real(expectation, turns, fault->0));
            } else if found is None {
                assert(nobody_accepted(expectation, turns, work));
            } else if found->0.group_id != group || found->0.class != item.class {
                let e = choose|e: int|
                    0 <= e < accepted.len() && (#[trigger] accepted[e]) == found->0
                        && accepted[e].work_id == work;
                assert(expectation.accepted@[e].work_id == work);
                assert(accepted_as(expectation, work, found->0.group_id, found->0.class));
                assert(strayed(turns, work, group, item.class));
            } else {
                let p = choose|p: int| 0 <= p < before.len() && before[p] == work;
                if p < terminal.len() {
                    assert(terminal[p] == work);
                    assert(terminal.contains(work));
                    let (l, i) = choose|l: int, i: int| stands_in(turns, k, l, i, work);
                    assert(disposes(turns, l, i, work));
                    assert(disposed_twice(turns, work));
                } else {
                    let i = p - terminal.len();
                    assert(items[i].work_id == work);
                    assert(disposes(turns, k, i, work));
                    assert(disposed_twice(turns, work));
                }
            }
        }
    }
}

#[verifier::spinoff_prover]
proof fn lemma_violation(
    expectation: AcceptanceExpectation,
    turns: Seq<DriveTurn>,
    n: int,
)
    requires
        0 <= n <= turns.len(),
        turns_audit(expectation, expectation.ready@, turns, n) is Err,
    ensures
        is_real(
            expectation,
            turns,
            turns_audit(expectation, expectation.ready@, turns, n)->Err_0,
        ),
    decreases n,
{
    let ready = expectation.ready@;
    if n > 0 {
        if turns_audit(expectation, ready, turns, n - 1) is Err {
            lemma_violation(expectation, turns, n - 1);
        } else {
            let m = n - 1;
            lemma_turns(expectation, ready, turns, m);
            let before = turns_audit(expectation, ready, turns, m)->Ok_0;
            let turn = turns[m];
            assert(in_first_pass(turns, m));
            assert(turn.items.len() == turn.items@.len());
            if ready.contains(turn.group_id) {
                if before.opportunities.contains(turn.group_id) {
                    let k = choose|k: int|
                        0 <= k < m && in_first_pass(turns, k) && (#[trigger] turns[k]).group_id
                            == turn.group_id;
                    assert(turns[k].group_id == turn.group_id);
                } else if turn.items@.len() <= if expectation.quotas@.contains_key(
                    turn.group_id@ as u64,
                ) {
                    expectation.quotas@[turn.group_id@ as u64] as nat
                } else {
                    0nat
                } {
                    lemma_item_violation(
                        expectation,
                        turns,
                        m,
                        before.terminal,
                        turn.items@.len() as int,
                    );
                }
            }
        }
    }
}

proof fn lemma_first_lost(accepted: Seq<ExpectedWork>, terminal: Seq<u64>, from: int)
    requires
        0 <= from,
        crate::adapter::audit::first_unaccounted(accepted, terminal, from) is Some,
    ensures
        ({
            let work = crate::adapter::audit::first_unaccounted(accepted, terminal, from)->0;
            &&& !terminal.contains(work)
            &&& exists|e: int| 0 <= e < accepted.len() && (#[trigger] accepted[e]).work_id == work
        }),
    decreases accepted.len() - from,
{
    if terminal.contains(accepted[from].work_id) {
        lemma_first_lost(accepted, terminal, from + 1);
    }
}

/// A run is refused only for what it did: the violation is real, or the named accepted work was never
/// disposed of though nothing is left, or the counters it repeats do not balance, or that many workers
/// are still occupied, or the groups it lists, each of them ready, had no turn.
pub proof fn law_refused_runs_are_broken(
    expectation: AcceptanceExpectation,
    report: DriveReport,
    metrics: ManagedMetrics,
    r: Result<AcceptanceAuditReport, AcceptanceViolation>,
)
    requires
        call_ensures(audit_acceptance, (&expectation, &report, &metrics), r),
        r is Err,
        report.plans@.len() > 0,
        report.plans@[0]@ == expectation.ready@,
        report.turns@.len() > 0,
    ensures
        ({
            let turns = report.turns@;
            let n = turns.len() as int;
            match r->Err_0 {
                AcceptanceViolation::EmptyRun => false,
                AcceptanceViolation::PlanMismatch { .. } => false,
                AcceptanceViolation::MissingDisposition { work_id } => {
                    &&& metrics.queued == 0 && metrics.in_flight_work == 0
                    &&& exists|e: int|
                        0 <= e < expectation.accepted@.len() && (
                        #[trigger] expectation.accepted@[e]).work_id == work_id
                    &&& forall|k: int, i: int| !stands_in(turns, n, k, i, work_id)
                },
                AcceptanceViolation::Conservation {
                    admitted,
                    serviced,
                    failed,
                    queued,
                    in_flight,
                } => {
                    &&& admitted == metrics.admitted && serviced == metrics.serviced
                    &&& failed == metrics.failed && queued == metrics.queued
                    &&& in_flight == metrics.in_flight_work
                    &&& admitted != serviced + failed + queued + in_flight
                },
                AcceptanceViolation::WorkerStillOccupied { workers } => workers
                    == metrics.occupied_workers && workers > 0,
                AcceptanceViolation::OpportunityGap { missing } => {
                    &&& missing@.len() > 0
                    &&& forall|m: int|
                        0 <= m < missing@.len() ==> expectation.ready@.contains(
                            #[trigger] missing@[m],
                        ) && forall|k: int|
                            in_first_pass(turns, k) ==> (#[trigger] turns[k]).group_id != missing@[m]
                },
                violation => is_real(expectation, turns, violation),
            }
        }),
{
    let turns = report.turns@;
    let n = turns.len() as int;
    let ready = expectation.ready@;
    if turns_audit(expectation, ready, turns, n) is Err {
        lemma_violation(expectation, turns, n);
    } else {
        lemma_turns(expectation, ready, turns, n);
        let sound = turns_audit(expectation, ready, turns, n)->Ok_0;
        if r->Err_0 is MissingDisposition {
            lemma_first_lost(expectation.accepted@, sound.terminal, 0);
            let work = r->Err_0->MissingDisposition_work_id;
            assert forall|k: int, i: int| !stands_in(turns, n, k, i, work) by {
                if stands_in(turns, n, k, i, work) {
                    assert(sound.terminal.contains(work));
                }
            }
        }
        if r->Err_0 is OpportunityGap {
            let missing = r->Err_0->OpportunityGap_missing@;
            assert forall|m: int| 0 <= m < missing.len() implies ready.contains(
                #[trigger] missing[m],
            ) && forall|k: int|
                in_first_pass(turns, k) ==> (#[trigger] turns[k]).group_id != missing[m] by {
                broadcast use vstd::seq_lib::group_filter_ensures;

                let without = |g: GroupId| !sound.opportunities.contains(g);
                assert(missing == ready.filter(without));
                assert(without(ready.filter(without)[m]));
                ready.lemma_filter_contains_rev(without, missing[m]);
            }
        }
    }
}

} // verus!
