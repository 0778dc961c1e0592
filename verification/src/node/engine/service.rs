//! What each client request leads to, what becomes of scheduled work, and what the node reports.

use vstd::prelude::*;

use crate::adapter::audit::ManagedMetrics;
use crate::adapter::state_machine::ReplicatedCounterCommand;
use crate::node::engine::audit::Audit;
use crate::node::engine::board::{Board, ItemClient, ItemOutcome, ItemStep, RetiredClient, WorkKind};
use crate::node::engine::cycle::{Cycle, CycleEvent, CyclePhase};
use crate::node::engine::desk::state::AcceptedOperation;
use crate::node::engine::lifecycle::{
    drain, reopen, serving_driver, tombstone, DrainStep, GroupFacts, ProtocolStep, ReopenStep,
};
use crate::node::engine::report::{
    take_ordered_consumer_events, ConsumerReportEvent, ProposalOutcome, ReadOutcome, StepReport,
};
use crate::node::engine::{
    active_groups, led_groups, recorded_operations, Engine, EngineState, GroupRole, GroupSummary,
    JobAnswer, JobStep, ReportStep,
};
use crate::node::peer_link::LinkCounters;
use crate::node::protocol::{PressureClass, Request};
use crate::node::render::{
    apply_result_text, audit_text, status_text, AuditReport, Refusal, StatusReport,
};
use crate::types::{fingerprint_of, GroupId, GroupIncarnation, GroupLifecycle, WorkClass};

verus! {

/// A client's operation goes to the desk as it was asked: a session with its epoch, and a counter
/// request under its client, epoch and sequence, with the fingerprint of its own command. The engine
/// itself is as it was.
pub proof fn law_operations_go_to_the_desk(
    engine: &mut Engine,
    now: u64,
    request: Request,
    facts: Option<GroupFacts>,
    r: JobStep,
)
    requires
        call_ensures(Engine::handle_job, (engine, now, request, facts), r),
    ensures
        request matches Request::OpenSession { group_id, incarnation, client_id, epoch } ==> {
            &&& final(engine).state() == old(engine).state()
            &&& r == (JobStep::Operate {
                group_id,
                incarnation,
                operation: AcceptedOperation::OpenSession { client_id, epoch },
            })
        },
        request matches Request::Counter {
            group_id,
            incarnation,
            client_id,
            epoch,
            sequence,
            command,
        } ==> {
            &&& final(engine).state() == old(engine).state()
            &&& r matches JobStep::Operate { group_id: group, incarnation: named, operation }
                && group == group_id && named == incarnation && (operation matches
                AcceptedOperation::Counter { request: identity, command: asked } && asked == command
                && identity.client_id == client_id && identity.session_epoch == epoch
                && identity.sequence == sequence && identity.fingerprint@ == fingerprint_of(command))
        },
        request is Status ==> r == JobStep::Status && final(engine).state() == old(engine).state(),
        request is Audit ==> r == JobStep::Audit && final(engine).state() == old(engine).state(),
{
}

/// A request that needs a serving group is carried out exactly where the group serves, on the group and
/// with what it names; elsewhere it is answered why not. It changes nothing by itself.
pub proof fn law_requests_on_serving_groups(
    engine: &mut Engine,
    now: u64,
    request: Request,
    facts: Option<GroupFacts>,
    incarnation: GroupIncarnation,
    gate: Option<Refusal>,
    r: JobStep,
)
    requires
        call_ensures(Engine::handle_job, (engine, now, request, facts), r),
        call_ensures(serving_driver, (facts, incarnation), gate),
    ensures
        ({
            let refused = JobStep::Answer { answer: JobAnswer::Refused { refusal: gate->0 } };
            let same = final(engine).state() == old(engine).state();
            &&& request matches Request::Value { group_id, incarnation: named } ==> named == incarnation ==> same && if gate is Some {
                r == refused
            } else {
                r == (JobStep::ReadValue { group_id, incarnation })
            }
            &&& request matches Request::Fault { group_id, incarnation: named } ==> named == incarnation ==> same && if gate is Some {
                r == refused
            } else {
                r == (JobStep::Propose { group_id, command: ReplicatedCounterCommand::Faulty })
            }
            &&& request matches Request::CapacityFault { group_id, incarnation: named } ==> named == incarnation ==> same && if gate is Some {
                r == refused
            } else {
                r == (JobStep::Propose {
                    group_id,
                    command: ReplicatedCounterCommand::CapacityFault,
                })
            }
            &&& request matches Request::PeerProbe { group_id, incarnation: named, target } ==> named == incarnation ==> same && if gate is Some {
                r == refused
            } else {
                r == (JobStep::Probe { group_id, incarnation, target })
            }
            &&& request matches Request::TransferLeadership { group_id, incarnation: named, target }
                ==> named == incarnation ==> same && if gate is Some {
                r == refused
            } else {
                r == (JobStep::Transfer { group_id, target })
            }
            &&& request matches Request::Snapshot { group_id, incarnation: named } ==> named == incarnation ==> same && if gate is Some {
                r == refused
            } else {
                r == (JobStep::Snapshot { group_id })
            }
            &&& request matches Request::Pressure { group_id, incarnation: named, class, count }
                ==> named == incarnation ==> {
                let limit = old(engine).state().max_group_queue;
                &&& same
                &&& count > limit <==> r == (JobStep::Answer {
                    answer: JobAnswer::PressureLimit { limit },
                })
                &&& count <= limit && gate is Some ==> r == refused
                &&& count <= limit && gate is None && class == PressureClass::Snapshot ==> r == (
                JobStep::Pressure { group_id, class: WorkClass::Snapshot, count })
                &&& count <= limit && gate is None && class == PressureClass::Bulk ==> r == (
                JobStep::Pressure { group_id, class: WorkClass::Bulk, count })
            }
        }),
{
}

/// Pausing and resuming sets its own flag and is confirmed; resuming recovery makes every retry due. A
/// shutdown stops the engine under its own identity.
pub proof fn law_switches_are_set(
    engine: &mut Engine,
    now: u64,
    request: Request,
    facts: Option<GroupFacts>,
    r: JobStep,
)
    requires
        call_ensures(Engine::handle_job, (engine, now, request, facts), r),
    ensures
        ({
            let before = old(engine).state();
            let after = final(engine).state();
            &&& request is PausePeers ==> after.peers_paused && after.recovery_paused
                == before.recovery_paused && r == (JobStep::Answer {
                answer: JobAnswer::PeersPaused,
            })
            &&& request is ResumePeers ==> !after.peers_paused && after.recovery_paused
                == before.recovery_paused && r == (JobStep::Answer {
                answer: JobAnswer::PeersResumed,
            })
            &&& request is PauseRecovery ==> after.recovery_paused && after.peers_paused
                == before.peers_paused && after.desk == before.desk && r == (JobStep::Answer {
                answer: JobAnswer::RecoveryPaused,
            })
            &&& request is ResumeRecovery ==> !after.recovery_paused && after.peers_paused
                == before.peers_paused && (forall|key: u64| #[trigger]
                after.desk.deferred.contains_key(key) ==> after.desk.deferred[key] <= now) && r == (
            JobStep::Answer { answer: JobAnswer::RecoveryResumed })
            &&& request is Shutdown ==> after.stopping && r == (JobStep::Stop {
                answer: JobAnswer::Shutdown { node_id: before.node_id },
            })
            &&& !(request is Shutdown) ==> after.stopping == before.stopping
            &&& after.node_id == before.node_id
            &&& after.refused_peer == before.refused_peer
        }),
{
}

/// A delay of up to thirty seconds is set on a known group and confirmed; a longer one and an unknown
/// group are refused.
pub proof fn law_slow_groups_are_set(
    engine: &mut Engine,
    now: u64,
    group_id: GroupId,
    milliseconds: u64,
    facts: Option<GroupFacts>,
    r: JobStep,
)
    requires
        call_ensures(
            Engine::handle_job,
            (engine, now, Request::Slow { group_id, milliseconds }, facts),
            r,
        ),
    ensures
        ({
            let before = old(engine).state();
            let after = final(engine).state();
            let key = group_id@ as u64;
            &&& milliseconds > 30_000 ==> after == before && r == (JobStep::Answer {
                answer: JobAnswer::SlowLimit,
            })
            &&& milliseconds <= 30_000 && facts is None ==> after == before && r == (
            JobStep::Answer { answer: JobAnswer::Refused { refusal: Refusal::GroupUnknown } })
            &&& milliseconds <= 30_000 && facts is Some ==> {
                &&& r == (JobStep::Answer { answer: JobAnswer::Slow { group_id, milliseconds } })
                &&& milliseconds == 0 ==> !after.board.slow.contains_key(key)
                &&& milliseconds > 0 ==> after.board.slow.contains_key(key)
                    && after.board.slow[key] == milliseconds
                &&& after.desk == before.desk
                &&& after.board.work == before.board.work
                &&& after.board.poisoned == before.board.poisoned
            }
        }),
{
}

/// A lifecycle request is judged by the group's own facts, and its group is the one that it names.
pub proof fn law_lifecycle_requests_name_their_group(
    engine: &mut Engine,
    now: u64,
    request: Request,
    facts: Option<GroupFacts>,
    r: JobStep,
    group_id: GroupId,
    incarnation: GroupIncarnation,
    quota: u32,
    drained: DrainStep,
    reopened: ReopenStep,
    retired: Option<Refusal>,
)
    requires
        call_ensures(Engine::handle_job, (engine, now, request, facts), r),
        call_ensures(drain, (facts, incarnation), drained),
        call_ensures(reopen, (facts, group_id, incarnation, quota), reopened),
        call_ensures(tombstone, (facts, incarnation), retired),
    ensures
        request == (Request::Drain { group_id, incarnation }) ==> r == (JobStep::Drain {
            group_id,
            step: drained,
        }),
        request == (Request::Remove { group_id, incarnation }) ==> r == (JobStep::Remove {
            group_id,
            incarnation,
        }),
        request == (Request::Reopen { group_id, incarnation, quota }) ==> r == (JobStep::Reopen {
            group_id,
            step: reopened,
        }),
        request == (Request::Tombstone { group_id, incarnation }) ==> if retired is Some {
            r == (JobStep::Answer { answer: JobAnswer::Refused { refusal: retired->0 } })
        } else {
            r == (JobStep::Tombstone { group_id })
        },
        request is Drain || request is Remove || request is Reopen || request is Tombstone ==> final(
            engine).state() == old(engine).state(),
{
}

/// A frame that its group refuses is counted, and nothing else is.
pub proof fn law_refused_frames_are_counted(
    engine: &mut Engine,
    facts: Option<GroupFacts>,
    group_id: GroupId,
    incarnation: GroupIncarnation,
    r: ProtocolStep,
)
    requires
        call_ensures(Engine::admit_peer_frames, (engine, facts, group_id, incarnation), r),
        old(engine).state().refused_peer < u64::MAX,
    ensures
        final(engine).state().refused_peer == old(engine).state().refused_peer + if r
            == ProtocolStep::Refuse {
            1int
        } else {
            0int
        },
        final(engine).state().desk == old(engine).state().desk,
        final(engine).state().board == old(engine).state().board,
{
}

// -------------------------------------------------------------------- reports

/// An operation that was applied ends with its result as the answer, and nothing more is recorded. A
/// rejected one and one with an open outcome end too; only a new one that was rejected is cancelled on
/// record. A granted barrier is looked at next, and a failed one ends with what was wrong.
pub proof fn law_reports_end_operations(
    engine: &mut Engine,
    now: u64,
    event: ConsumerReportEvent,
    r: ReportStep,
)
    requires
        call_ensures(Engine::collect_report, (engine, now, event), r),
    ensures
        ({
            let before = old(engine).state().desk;
            let after = final(engine).state().desk;
            &&& final(engine).state().board == old(engine).state().board
            &&& event matches ConsumerReportEvent::Proposal(
                ProposalOutcome::Applied { id, result, .. },
            ) ==> {
                &&& !after.pending.contains_key(id)
                &&& before.pending.contains_key(id) <==> r is Completed
                &&& r matches ReportStep::Completed { text, .. } ==> text@ == apply_result_text(
                    result,
                )
                &&& !(r is Completed) ==> r is Nothing
            }
            &&& event matches ConsumerReportEvent::Applied(entry) ==> {
                &&& entry.proposal is None ==> r is Nothing && after == before
                &&& entry.proposal matches Some(id) ==> !after.pending.contains_key(id) && (
                before.pending.contains_key(id) <==> r is Completed) && (r matches
                    ReportStep::Completed { text, .. } ==> text@ == apply_result_text(entry.result))
            }
            &&& event matches ConsumerReportEvent::Proposal(
                ProposalOutcome::Unknown { id, detail },
            ) ==> {
                &&& !after.pending.contains_key(id)
                &&& before.pending.contains_key(id) <==> r is Completed
                &&& r matches ReportStep::Completed { text, .. } ==> text@ == "ERR UNKNOWN "@
                    + detail@
            }
            &&& event matches ConsumerReportEvent::Proposal(
                ProposalOutcome::Rejected { id, .. },
            ) ==> {
                &&& !after.pending.contains_key(id)
                &&& before.pending.contains_key(id) <==> r is Completed
            }
            &&& event matches ConsumerReportEvent::Read(ReadOutcome::Granted { read_id }) ==> after
                == before && r == (ReportStep::Granted { read_id })
            &&& event matches ConsumerReportEvent::Read(ReadOutcome::Rejected { read_id, detail })
                ==> {
                &&& !after.admissions.contains_key(read_id)
                &&& before.admissions.contains_key(read_id) <==> r is ReadFailed
                &&& r matches ReportStep::ReadFailed { closed, detail: told } ==> closed.read_id
                    == read_id && told@ == "read rejected: "@ + detail@
            }
            &&& event matches ConsumerReportEvent::Read(ReadOutcome::Canceled { read_id, detail })
                ==> {
                &&& !after.admissions.contains_key(read_id)
                &&& before.admissions.contains_key(read_id) <==> r is ReadFailed
                &&& r matches ReportStep::ReadFailed { closed, detail: told } ==> closed.read_id
                    == read_id && told@ == "read canceled: "@ + detail@
            }
            &&& event == ConsumerReportEvent::Read(ReadOutcome::FreshnessUnavailable) || event
                == ConsumerReportEvent::Proposal(ProposalOutcome::Other) ==> after == before && r
                is Nothing
            &&& event == ConsumerReportEvent::Read(ReadOutcome::Other) ==> after == before && r
                is Unsupported
        }),
{
}

/// A step's outcomes are taken in order: the proposals, then what was applied, then the reads, and none
/// is left behind.
pub proof fn law_step_outcomes_are_taken_in_order(
    report: &mut StepReport,
    r: Vec<ConsumerReportEvent>,
    i: int,
)
    requires
        call_ensures(take_ordered_consumer_events, (report,), r),
        0 <= i < r@.len(),
    ensures
        ({
            let p = old(report).proposal_events@;
            let a = old(report).applied@;
            let q = old(report).read_events@;
            &&& r@.len() == p.len() + a.len() + q.len()
            &&& i < p.len() ==> r@[i] == ConsumerReportEvent::Proposal(p[i])
            &&& p.len() <= i < p.len() + a.len() ==> r@[i] == ConsumerReportEvent::Applied(
                a[i - p.len()],
            )
            &&& p.len() + a.len() <= i ==> r@[i] == ConsumerReportEvent::Read(
                q[i - p.len() - a.len()],
            )
            &&& final(report).proposal_events@.len() == 0
            &&& final(report).applied@.len() == 0
            &&& final(report).read_events@.len() == 0
        }),
{
}

// ---------------------------------------------------------------------- board

/// An item that reported is collected; a lost disk stops the process; a poisoned driver poisons its
/// group. A snapshot that reported is compacted and one that did not has failed; a proposal's client
/// learns of poison and of a failure, and of nothing else here.
pub proof fn law_items_are_settled(
    board: &mut Board,
    group: GroupId,
    work: u64,
    outcome: ItemOutcome,
    r: ItemStep,
)
    requires
        call_ensures(Board::settle_item, (board, group, work, outcome), r),
    ensures
        ({
            let before = old(board).state();
            let after = final(board).state();
            let kind = before.work[work];
            &&& r.collect <==> outcome == ItemOutcome::Reported
            &&& r.stop <==> outcome == ItemOutcome::DurabilityFailed
            &&& r.poison <==> outcome == ItemOutcome::Poisoned
            &&& !after.work.contains_key(work)
            &&& after.work == before.work.remove(work)
            &&& !before.work.contains_key(work) ==> r.client == ItemClient::Nothing
            &&& outcome == ItemOutcome::DurabilityFailed ==> r.client == ItemClient::Nothing
            &&& before.work.contains_key(work) ==> match kind {
                WorkKind::Snapshot { reply } => {
                    &&& outcome == ItemOutcome::Reported ==> r.client == (ItemClient::Compact {
                        reply,
                    })
                    &&& outcome == ItemOutcome::Poisoned || outcome == ItemOutcome::Failed
                        ==> r.client == (ItemClient::SnapshotFailed { reply })
                },
                WorkKind::Proposal { id } => {
                    &&& outcome == ItemOutcome::Poisoned ==> r.client == (ItemClient::Poisoned {
                        id,
                    })
                    &&& outcome == ItemOutcome::Failed ==> r.client == (ItemClient::Unknown { id })
                    &&& outcome == ItemOutcome::Reported ==> r.client == ItemClient::Nothing
                },
                _ => r.client == ItemClient::Nothing,
            }
            &&& before.work.contains_key(work) && kind == WorkKind::Tick ==> !after.ticking.contains(
                group@ as u64,
            )
            &&& !(before.work.contains_key(work) && kind == WorkKind::Tick) ==> after.ticking
                == before.ticking
        }),
{
}

/// An item that never ran was not committed, and a snapshot that never ran has failed.
pub proof fn law_retired_items_were_not_committed(
    board: &mut Board,
    group: GroupId,
    work: u64,
    r: RetiredClient,
)
    requires
        call_ensures(Board::retire_item, (board, group, work), r),
    ensures
        ({
            let before = old(board).state();
            let kind = before.work[work];
            &&& final(board).state().work == before.work.remove(work)
            &&& before.work.contains_key(work) && kind is Proposal <==> r is NotCommitted
            &&& before.work.contains_key(work) && kind is Snapshot <==> r is SnapshotFailed
            &&& r matches RetiredClient::NotCommitted { id } ==> kind == (WorkKind::Proposal { id })
            &&& r matches RetiredClient::SnapshotFailed { reply } ==> kind == (WorkKind::Snapshot {
                reply,
            })
        }),
{
}

/// Recorded work is known by its identity until it ends. A recorded tick marks its group, no other work
/// does.
pub proof fn law_recorded_work_is_known(
    board: &mut Board,
    group: GroupId,
    work: u64,
    kind: WorkKind,
)
    requires
        call_ensures(Board::record_work, (board, group, work, kind), ()),
    ensures
        final(board).state().work == old(board).state().work.insert(work, kind),
        kind == WorkKind::Tick ==> final(board).state().ticking == old(board).state().ticking.insert(
            group@ as u64,
        ),
        kind != WorkKind::Tick ==> final(board).state().ticking == old(board).state().ticking,
        final(board).state().poisoned == old(board).state().poisoned,
{
}

/// A slow group's dispatch is delayed by its delay if it carries anything but control traffic. A
/// delayed dispatch is released once its time is reached, in order, and only then.
pub proof fn law_slow_dispatches_wait(
    board: Board,
    group: GroupId,
    classes: Vec<WorkClass>,
    delay: Option<u64>,
    held: &mut Board,
    now: u64,
    dispatch: u64,
    wait: u64,
    ended: &mut Board,
    due: Vec<u64>,
    id: u64,
)
    requires
        call_ensures(Board::dispatch_delay, (&board, group, &classes), delay),
        call_ensures(Board::delay_dispatch, (held, now, dispatch, wait), ()),
        now + wait <= u64::MAX,
        call_ensures(Board::release_delayed, (ended, now), due),
    ensures
        delay is Some <==> board.state().slow.contains_key(group@ as u64) && exists|i: int|
            0 <= i < classes@.len() && #[trigger] classes@[i] != WorkClass::Control,
        delay is Some ==> delay->0 == board.state().slow[group@ as u64],
        final(held).state().delayed.contains_key(dispatch) && final(held).state().delayed[dispatch]
            == now + wait,
        due@.contains(id) <==> old(ended).state().delayed.contains_key(id) && old(
            ended).state().delayed[id] <= now,
        final(ended).state().delayed.contains_key(id) <==> old(ended).state().delayed.contains_key(
            id,
        ) && old(ended).state().delayed[id] > now,
        forall|i: int, j: int| 0 <= i < j < due@.len() ==> due@[i] < due@[j],
{
}

/// A poisoned group is known as such until it is forgotten, and a forgotten group leaves no mark.
pub proof fn law_poison_is_remembered(board: &mut Board, forgotten: &mut Board, group: GroupId)
    requires
        call_ensures(Board::poison, (board, group), ()),
        call_ensures(Board::forget_group, (forgotten, group), ()),
    ensures
        final(board).state().poisoned == old(board).state().poisoned.insert(group@ as u64),
        final(board).state().work == old(board).state().work,
        !final(forgotten).state().poisoned.contains(group@ as u64),
        !final(forgotten).state().ticking.contains(group@ as u64),
        !final(forgotten).state().slow.contains_key(group@ as u64),
        final(forgotten).state().work == old(forgotten).state().work,
        final(forgotten).state().delayed == old(forgotten).state().delayed,
{
}

// ---------------------------------------------------------------------- cycle

/// The loop recovers, receives up to 64 jobs, takes peers, looks at the clock, ticks where a tick is
/// due, expires, releases, arms, dispatches up to 512 turns and announces; then it recovers again or
/// receives. A failure ends it from any phase, and a request to stop finishes it.
pub proof fn law_loop_goes_round(cycle: Cycle, event: CycleEvent, r: Cycle)
    requires
        call_ensures(Cycle::advance, (cycle, event), r),
        cycle.valid(),
        cycle.fits(event),
    ensures
        event is Failed <==> r.phase is Failed,
        cycle.phase is Recover && event is Done ==> r.phase == (CyclePhase::Receive { left: 64 }),
        cycle.phase matches CyclePhase::Receive { left } ==> {
            &&& event == (CycleEvent::Handled { stopping: true }) ==> r.phase is Finish
            &&& event == (CycleEvent::Handled { stopping: false }) && left > 1 ==> r.phase == (
            CyclePhase::Receive { left: (left - 1) as usize })
            &&& event == (CycleEvent::Handled { stopping: false }) && left == 1 ==> r.phase is Peers
            &&& event is Empty ==> r.phase is Peers
        },
        cycle.phase is Peers && event is Done ==> r.phase is Clock,
        cycle.phase is Clock && (event matches CycleEvent::Time { now } && now >= cycle.next_tick)
            ==> r.phase is Ticks && r.next_tick == event->now + cycle.interval,
        cycle.phase is Clock && (event matches CycleEvent::Time { now } && now < cycle.next_tick)
            ==> r.phase is Expire && r.next_tick == cycle.next_tick,
        cycle.phase is Ticks && event is Done ==> r.phase is Expire,
        cycle.phase is Expire && event is Done ==> r.phase is Release,
        cycle.phase is Release && event is Done ==> r.phase is Arm,
        cycle.phase is Arm && event is Done ==> r.phase == (CyclePhase::Dispatch { left: 512 }),
        cycle.phase matches CyclePhase::Dispatch { left } ==> {
            &&& event is Turned && left > 1 ==> r.phase == (CyclePhase::Dispatch {
                left: (left - 1) as usize,
            })
            &&& event is Turned && left == 1 ==> r.phase is Announce
            &&& event is PassEnded ==> r.phase is Announce
        },
        cycle.phase is Announce ==> {
            &&& event matches CycleEvent::Looked { recovering: true, .. } ==> r.phase is Recover
            &&& event matches CycleEvent::Looked { recovering: false, .. } ==> r.phase == (
            CyclePhase::Receive { left: 64 })
            &&& event matches CycleEvent::Looked { ready, .. } ==> r.announced == (cycle.announced
                || ready)
        },
        !(cycle.phase is Announce) ==> r.announced == cycle.announced,
        r.interval == cycle.interval,
{
}

// --------------------------------------------------------------------- status

/// A group counts as active while it has a driver and no poison; its leader is listed while no poison
/// is known; the recorded operations are those of all groups.
pub proof fn law_groups_are_counted(
    state: EngineState,
    groups: Seq<GroupSummary>,
    roles: Seq<GroupRole>,
)
    ensures
        active_groups(state, groups) == groups.filter(
            |g: GroupSummary|
                g.facts.driver && !g.facts.poisoned && !state.board.poisoned.contains(
                    g.group_id@ as u64,
                ),
        ).len(),
        led_groups(state, roles) == roles.filter(
            |role: GroupRole| role.leader && !state.board.poisoned.contains(role.group_id@ as u64),
        ).map_values(|role: GroupRole| role.group_id),
        recorded_operations(groups) == groups.map_values(
            |g: GroupSummary| g.facts.outstanding as int,
        ).fold_left(0int, |sum: int, n: int| sum + n),
    decreases groups.len() + roles.len(),
{
    lemma_active(state, groups);
    lemma_led(state, roles);
    lemma_recorded(groups);
}

proof fn lemma_active(state: EngineState, groups: Seq<GroupSummary>)
    ensures
        active_groups(state, groups) == groups.filter(
            |g: GroupSummary|
                g.facts.driver && !g.facts.poisoned && !state.board.poisoned.contains(
                    g.group_id@ as u64,
                ),
        ).len(),
    decreases groups.len(),
{
    reveal(Seq::filter);
    if groups.len() > 0 {
        lemma_active(state, groups.drop_last());
    }
}

proof fn lemma_led(state: EngineState, roles: Seq<GroupRole>)
    ensures
        led_groups(state, roles) == roles.filter(
            |role: GroupRole| role.leader && !state.board.poisoned.contains(role.group_id@ as u64),
        ).map_values(|role: GroupRole| role.group_id),
    decreases roles.len(),
{
    reveal(Seq::filter);
    let leads = |role: GroupRole|
        role.leader && !state.board.poisoned.contains(role.group_id@ as u64);
    let name = |role: GroupRole| role.group_id;
    if roles.len() > 0 {
        let rest = roles.drop_last();
        lemma_led(state, rest);
        if leads(roles.last()) {
            assert(roles.filter(leads).map_values(name) =~= rest.filter(leads).map_values(
                name,
            ).push(roles.last().group_id));
        }
    } else {
        assert(roles.filter(leads).map_values(name) =~= Seq::<GroupId>::empty());
    }
}

proof fn lemma_recorded(groups: Seq<GroupSummary>)
    ensures
        recorded_operations(groups) == groups.map_values(
            |g: GroupSummary| g.facts.outstanding as int,
        ).fold_left(0int, |sum: int, n: int| sum + n),
    decreases groups.len(),
{
    let amount = |g: GroupSummary| g.facts.outstanding as int;
    let amounts = groups.map_values(amount);
    if groups.len() > 0 {
        let rest = groups.drop_last();
        lemma_recorded(rest);
        assert(amounts.drop_last() =~= rest.map_values(amount));
    }
}

/// The status line reports the host's own numbers and those of the desk, each under its name.
pub proof fn law_status_reports_the_node(
    engine: Engine,
    groups: Vec<GroupSummary>,
    roles: Vec<GroupRole>,
    metrics: ManagedMetrics,
    passes: u64,
    link: LinkCounters,
    r: String,
)
    requires
        call_ensures(Engine::status_line, (&engine, &groups, &roles, metrics, passes, link), r),
    ensures
        exists|report: StatusReport| #[trigger]
            status_text(report) == r@ && {
                let s = engine.state();
                &&& report.ready <==> forall|i: int|
                    0 <= i < groups@.len() ==> ({
                        let facts = (#[trigger] groups@[i]).facts;
                        facts.lifecycle == GroupLifecycle::Removed || facts.lifecycle
                            == GroupLifecycle::Tombstoned || facts.poisoned || facts.driver
                            && facts.ready
                    })
                &&& report.leaders == report.leader_groups@.len()
                &&& report.leader_groups@ == led_groups(s, roles@)
                &&& report.groups == active_groups(s, groups@)
                &&& report.poisoned == s.board.poisoned.len()
                &&& report.queued == metrics.queued
                &&& report.in_flight == metrics.in_flight_work
                &&& report.workers == metrics.occupied_workers
                &&& report.admitted == metrics.admitted
                &&& report.serviced == metrics.serviced
                &&& report.failed == metrics.failed
                &&& report.client_admitted == s.desk.client_admitted
                &&& report.passes == passes
                &&& report.pending_proposals == s.desk.operations.dom().len()
                &&& report.admission_reads == s.desk.admissions.dom().len()
                &&& report.admission_candidates == s.desk.candidates.len()
                &&& report.admission_barriers == s.desk.barriers_started
                &&& report.durable_outstanding == recorded_operations(groups@)
                &&& report.recovery_deferred == s.desk.deferred.dom().len()
                &&& report.recovery_refused == s.desk.recovery_refused
                &&& report.refused_peer == s.refused_peer
                &&& report.link == link
            },
{
    let report = choose|report: StatusReport| #[trigger]
        crate::node::engine::describes(
            engine.state(),
            groups@,
            roles@,
            metrics,
            passes,
            link,
            report,
        ) && r@ == status_text(report);
    assert(status_text(report) == r@);
}

/// The audit line reports the audit's own numbers and the host's, each under its name.
pub proof fn law_audit_reports_the_passes(audit: Audit, metrics: ManagedMetrics, r: String)
    requires
        call_ensures(Engine::audit_line, (&audit, metrics), r),
    ensures
        exists|report: AuditReport| #[trigger]
            audit_text(report) == r@ && {
                let s = audit.state();
                &&& report.plans == s.plans
                &&& report.passes_completed == s.passes_completed
                &&& report.certified_passes == s.certified_passes
                &&& report.opportunities == s.opportunities
                &&& report.invalid_plans == s.invalid_plans
                &&& report.invalid_turns == s.invalid_turns
                &&& report.plan_digest == s.plan_digest
                &&& report.turn_digest == s.turn_digest
                &&& report.admitted == metrics.admitted
                &&& report.serviced == metrics.serviced
                &&& report.failed == metrics.failed
                &&& report.queued == metrics.queued
                &&& report.in_flight == metrics.in_flight_work
            },
{
    let report = choose|report: AuditReport| #[trigger]
        crate::node::engine::witnesses(audit.state(), metrics, report) && r@ == audit_text(report);
    assert(audit_text(report) == r@);
}

/// What enters the driver is every operation whose work is listed, in the order of the list.
pub proof fn law_entered_operations_are_listed(engine: Engine, work: Vec<u64>, id: u64, r: Vec<
    (GroupId, AcceptedOperation),
>)
    requires
        call_ensures(Engine::mark_dispatch_entered, (&engine, &work), r),
        work@.len() == 1,
        engine.state().board.work.contains_key(work@[0]),
        engine.state().board.work[work@[0]] == (WorkKind::Proposal { id }),
        engine.state().desk.pending.contains_key(id),
    ensures
        engine.state().desk.pending[id].operation matches Some(operation) ==> r@ == seq![
            (engine.state().desk.pending[id].group_id, operation),
        ],
        engine.state().desk.pending[id].operation is None ==> r@.len() == 0,
{
    reveal_with_fuel(crate::node::engine::entered, 2);
    assert(work@.drop_last() =~= Seq::empty());
}

} // verus!
