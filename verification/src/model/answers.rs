//! What the scheduler answers, and what an answer changes, case by case.

use vstd::prelude::*;

use crate::model::state::{
    abandoned, count_slots, departed, failure_records, find_session, first_free, ids_where,
    is_session_of, session_answer, settle_session, Completed, Dispatch, GroupState, PlanState,
    QueuedWork, ReportState, SchedulerState, Session,
};
use crate::model::ManagedScheduler;
use crate::types::{
    fingerprint_of, AdmissionOutcome, AdmissionRejection, ClientId, CounterCommand, CounterResult,
    GroupAvailability, GroupId, GroupIncarnation, GroupLifecycle, GroupView, LifecycleOutcome,
    LifecycleRejection, LifecycleRequest, LifecycleTransition, PassProgress, ReadinessSignal,
    RequestIdentity, SessionEpoch, SessionOutcome, SchedulerSummary, Work, WorkFailure, WorkId,
};

verus! {

/// The slot was created at some time.
pub open spec fn exists_in(s: SchedulerState, group: GroupId) -> bool {
    group@ < s.slots.len() && s.slots[group@ as int] is Some
}

/// Slot of a group that exists.
pub open spec fn slot_in(s: SchedulerState, group: GroupId) -> GroupState {
    s.slots[group@ as int]->0
}

/// The session stands at this place.
pub open spec fn session_at(sessions: Seq<Session>, client: ClientId, i: int) -> bool {
    &&& 0 <= i < sessions.len()
    &&& sessions[i].client_id == client
    &&& forall|j: int| 0 <= j < i ==> (#[trigger] sessions[j]).client_id != client
}

proof fn lemma_session_found(sessions: Seq<Session>, client: ClientId, i: int)
    requires
        session_at(sessions, client, i),
    ensures
        find_session(sessions, client) == Some(i),
{
    assert(is_session_of(sessions, client, i));
    let k = choose|k: int| is_session_of(sessions, client, k);
    assert(is_session_of(sessions, client, k));
    assert(k == i) by {
        if k < i {
            assert(sessions[k].client_id != client);
        }
        if i < k {
            assert(sessions[i].client_id != client);
        }
    }
}

// ------------------------------------------------------------------- requests

/// In its session, a request is new exactly when its epoch is the session's, its fingerprint its
/// command's, and its sequence the one after the completed one, and it is not queued already. The
/// completed request is replayed with its very result and the queued one named by its very item; with
/// another command each is a conflict. Everything else is refused for the first thing that is wrong.
pub proof fn law_requests_follow_their_session(
    session: Session,
    request: RequestIdentity,
    command: CounterCommand,
)
    ensures
        ({
            let r = session_answer(session, request, command);
            let done = session.completed;
            let waits = session.outstanding;
            let own = request.session_epoch@ == session.epoch@ && request.fingerprint@
                == fingerprint_of(command);
            let before = own && done is Some && request.sequence@ < done->0.sequence@;
            let last = own && done is Some && request.sequence@ == done->0.sequence@;
            let queued = own && !before && !last && waits is Some && request.sequence@
                == waits->0.sequence@;
            let next = if done is Some {
                done->0.sequence@ + 1
            } else {
                1
            };
            &&& request.session_epoch@ < session.epoch@ ==> r == Some(
                AdmissionOutcome::Rejected(
                    AdmissionRejection::StaleSession { current: session.epoch },
                ),
            )
            &&& request.session_epoch@ > session.epoch@ ==> r == Some(
                AdmissionOutcome::Rejected(
                    AdmissionRejection::FutureSession { current: session.epoch },
                ),
            )
            &&& request.session_epoch@ == session.epoch@ && request.fingerprint@ != fingerprint_of(
                command,
            ) ==> (r matches Some(
                AdmissionOutcome::Rejected(AdmissionRejection::FingerprintMismatch { expected }),
            ) && expected@ == fingerprint_of(command))
            &&& before ==> r == Some(
                AdmissionOutcome::Rejected(
                    AdmissionRejection::StaleSequence { highest: done->0.sequence },
                ),
            )
            &&& last && command == done->0.command ==> r == Some(
                AdmissionOutcome::Replayed { result: done->0.result },
            )
            &&& last && command != done->0.command ==> r == Some(
                AdmissionOutcome::Rejected(AdmissionRejection::ConflictingRetry),
            )
            &&& queued && command == waits->0.command ==> r == Some(
                AdmissionOutcome::AlreadyQueued { work: waits->0.work },
            )
            &&& queued && command != waits->0.command ==> r == Some(
                AdmissionOutcome::Rejected(AdmissionRejection::ConflictingRetry),
            )
            &&& own && !before && !last && !queued && request.sequence@ != next && next <= u64::MAX
                ==> (r matches Some(
                AdmissionOutcome::Rejected(AdmissionRejection::SequenceGap { expected }),
            ) && expected@ == next)
            &&& r is None <==> own && !before && !last && !queued && request.sequence@ == next
        }),
{
}

/// A serviced request is its session's completed one with its result, and outstanding no more, where
/// the session still waits for that very item; any other session is as it was.
pub proof fn law_services_settle_their_session(
    sessions: Seq<Session>,
    request: RequestIdentity,
    command: CounterCommand,
    id: WorkId,
    result: CounterResult,
    i: int,
)
    requires
        session_at(sessions, request.client_id, i),
    ensures
        ({
            let after = settle_session(sessions, request, command, id, result);
            let was = sessions[i];
            let waits = was.epoch@ == request.session_epoch@ && was.outstanding is Some
                && was.outstanding->0.work == id;
            &&& after.len() == sessions.len()
            &&& forall|j: int|
                0 <= j < sessions.len() && j != i ==> #[trigger] after[j] == sessions[j]
            &&& waits ==> {
                &&& after[i].outstanding is None
                &&& after[i].completed is Some
                &&& after[i].completed->0.sequence == request.sequence
                &&& after[i].completed->0.command == command
                &&& after[i].completed->0.result == result
                &&& after[i].epoch == was.epoch
                &&& after[i].client_id == was.client_id
            }
            &&& !waits ==> after[i] == was
        }),
{
    lemma_session_found(sessions, request.client_id, i);
}

/// Work that is given up frees every session of the group, and keeps what they completed; each item is
/// reported as failed for the poison of its group, in order.
pub proof fn law_abandoned_work_is_reported(
    sessions: Seq<Session>,
    group: GroupId,
    items: Seq<QueuedWork>,
)
    ensures
        abandoned(sessions).len() == sessions.len(),
        forall|i: int|
            0 <= i < sessions.len() ==> (#[trigger] abandoned(sessions)[i]).outstanding is None
                && abandoned(sessions)[i].completed == sessions[i].completed && abandoned(
                sessions,
            )[i].epoch == sessions[i].epoch && abandoned(sessions)[i].client_id
                == sessions[i].client_id,
        failure_records(group, items).len() == items.len(),
        forall|i: int|
            0 <= i < items.len() ==> (#[trigger] failure_records(group, items)[i]).work
                == items[i].id && failure_records(group, items)[i].group == group
                && failure_records(group, items)[i].reason == WorkFailure::GroupPoisoned,
{
}

/// The group exists in this incarnation and is not retired.
pub open spec fn addressed(s: SchedulerState, group: GroupId, incarnation: GroupIncarnation) -> bool {
    &&& group@ < s.config.groups_bound()
    &&& exists_in(s, group)
    &&& slot_in(s, group).state != GroupLifecycle::Tombstoned
    &&& slot_in(s, group).incarnation@ == incarnation@
}

/// Why a request that addresses no group is refused.
pub open spec fn misaddressed(
    s: SchedulerState,
    group: GroupId,
    incarnation: GroupIncarnation,
    reason: AdmissionRejection,
) -> bool {
    let slot = slot_in(s, group);
    &&& group@ >= s.config.groups_bound() ==> reason == AdmissionRejection::GroupOutOfRange
    &&& group@ < s.config.groups_bound() && !exists_in(s, group) ==> reason
        == AdmissionRejection::GroupUnknown
    &&& group@ < s.config.groups_bound() && exists_in(s, group) ==> {
        &&& slot.state == GroupLifecycle::Tombstoned ==> reason
            == AdmissionRejection::GroupTombstoned
        &&& slot.state != GroupLifecycle::Tombstoned && incarnation@ < slot.incarnation@ ==> reason
            == (AdmissionRejection::StaleIncarnation { current: slot.incarnation })
        &&& slot.state != GroupLifecycle::Tombstoned && incarnation@ > slot.incarnation@ ==> reason
            == (AdmissionRejection::FutureIncarnation { current: slot.incarnation })
    }
}

/// A session opens on a healthy group that recovers or serves, for a client in range: anew, or in place
/// of one of an earlier epoch, and then blank. The same epoch again is open already, and an earlier one
/// is stale.
pub proof fn law_sessions_open(
    scheduler: &mut ManagedScheduler,
    group: GroupId,
    incarnation: GroupIncarnation,
    client: ClientId,
    epoch: SessionEpoch,
    r: SessionOutcome,
    i: int,
)
    requires
        call_ensures(
            ManagedScheduler::open_session,
            (scheduler, group, incarnation, client, epoch),
            r,
        ),
        session_at(slot_in(old(scheduler).state(), group).sessions, client, i) || forall|j: int|
            0 <= j < slot_in(old(scheduler).state(), group).sessions.len() ==> (
            #[trigger] slot_in(old(scheduler).state(), group).sessions[j]).client_id != client,
    ensures
        ({
            let s = old(scheduler).state();
            let after = final(scheduler).state();
            let slot = slot_in(s, group);
            let open = session_at(slot.sessions, client, i);
            let was = slot.sessions[i];
            let here = addressed(s, group, incarnation);
            let takes = slot.state == GroupLifecycle::Recovering || slot.state
                == GroupLifecycle::Serving;
            let lets = here && takes && !slot.poisoned && client@ < s.config.clients_bound();
            &&& !here ==> (r matches SessionOutcome::Rejected(reason) && misaddressed(
                s,
                group,
                incarnation,
                reason,
            ))
            &&& here && !takes ==> r == SessionOutcome::Rejected(
                AdmissionRejection::GroupNotAcceptingSessions { state: slot.state },
            )
            &&& here && takes && slot.poisoned ==> r == SessionOutcome::Rejected(
                AdmissionRejection::GroupPoisoned,
            )
            &&& here && takes && !slot.poisoned && client@ >= s.config.clients_bound() ==> r
                == SessionOutcome::Rejected(AdmissionRejection::ClientOutOfRange)
            &&& lets && !open <==> r == (SessionOutcome::Opened { session_epoch: epoch })
            &&& lets && open && was.epoch@ == epoch@ <==> r == (SessionOutcome::AlreadyOpen {
                session_epoch: epoch,
            })
            &&& lets && open && was.epoch@ < epoch@ <==> r == (SessionOutcome::Replaced {
                session_epoch: epoch,
            })
            &&& lets && open && was.epoch@ > epoch@ ==> r == SessionOutcome::Rejected(
                AdmissionRejection::StaleSession { current: was.epoch },
            )
            &&& r is Opened ==> {
                let sessions = slot_in(after, group).sessions;
                &&& sessions.drop_last() == slot.sessions
                &&& sessions.last() == (Session {
                    client_id: client,
                    epoch,
                    outstanding: None,
                    completed: None,
                })
            }
            &&& r is Replaced ==> slot_in(after, group).sessions == slot.sessions.update(
                i,
                Session { client_id: client, epoch, outstanding: None, completed: None },
            )
            &&& !(r is Opened) && !(r is Replaced) ==> after == s
            &&& after.queued == s.queued && after.admitted == s.admitted && after.next_work
                == s.next_work
        }),
{
    let s = old(scheduler).state();
    let sessions = slot_in(s, group).sessions;
    if session_at(sessions, client, i) {
        lemma_session_found(sessions, client, i);
    } else {
        assert(find_session(sessions, client) is None) by {
            if exists|k: int| is_session_of(sessions, client, k) {
                let k = choose|k: int| is_session_of(sessions, client, k);
                assert(sessions[k].client_id == client);
            }
        }
    }
    if r is Opened {
        let after = final(scheduler).state();
        assert(slot_in(after, group).sessions.drop_last() =~= sessions);
    }
}

/// Work is refused for its address, for a state that does not take its class, for poison, then for what
/// its session says, then for a full queue of its group and of the host; all else is queued under the
/// next number, behind its own class, and counted.
pub proof fn law_work_is_queued(
    scheduler: &mut ManagedScheduler,
    group: GroupId,
    incarnation: GroupIncarnation,
    work: Work,
    r: AdmissionOutcome,
)
    requires
        call_ensures(ManagedScheduler::submit, (scheduler, group, incarnation, work), r),
        old(scheduler).state().next_work < u64::MAX,
    ensures
        ({
            let s = old(scheduler).state();
            let after = final(scheduler).state();
            let slot = slot_in(s, group);
            let here = addressed(s, group, incarnation);
            let takes = slot.state == GroupLifecycle::Serving || slot.state
                == GroupLifecycle::Recovering && !(work is Counter);
            let full = slot.queue.len() >= s.config.group_queue_bound();
            let crowded = s.queued >= s.config.global_queue_bound();
            &&& !here ==> (r matches AdmissionOutcome::Rejected(reason) && misaddressed(
                s,
                group,
                incarnation,
                reason,
            ))
            &&& here && !takes ==> (r matches AdmissionOutcome::Rejected(
                AdmissionRejection::GroupNotAcceptingWork { state, class },
            ) && state == slot.state && class == work.class())
            &&& here && takes && slot.poisoned ==> r == AdmissionOutcome::Rejected(
                AdmissionRejection::GroupPoisoned,
            )
            &&& here && takes && !slot.poisoned && !(work is Counter) ==> {
                &&& full ==> r == AdmissionOutcome::Rejected(
                    AdmissionRejection::GroupQueueFull { limit: s.config.group_queue_bound() },
                )
                &&& !full && crowded ==> r == AdmissionOutcome::Rejected(
                    AdmissionRejection::GlobalQueueFull { limit: s.config.global_queue_bound() },
                )
                &&& !full && !crowded ==> r is Queued
            }
            &&& here && takes && !slot.poisoned && work is Counter
                && work->request.client_id@ >= s.config.clients_bound() ==> r
                == AdmissionOutcome::Rejected(AdmissionRejection::ClientOutOfRange)
            &&& r matches AdmissionOutcome::Queued { work: id } ==> {
                &&& id@ == s.next_work
                &&& !full && !crowded
                &&& after.next_work == s.next_work + 1
                &&& after.queued == s.queued + 1
                &&& after.admitted == s.admitted + 1
                &&& after.serviced == s.serviced
                &&& slot_in(after, group).queue == slot.queue.push(QueuedWork { id, work })
                &&& slot_in(after, group).counter == slot.counter
                &&& slot_in(after, group).incarnation == slot.incarnation
            }
            &&& !(r is Queued) ==> after == s
        }),
{
}

/// A counter request is queued exactly when its session finds it new and there is room, and it is then
/// the session's outstanding one.
pub proof fn law_new_requests_are_outstanding(
    scheduler: &mut ManagedScheduler,
    group: GroupId,
    incarnation: GroupIncarnation,
    work: Work,
    request: RequestIdentity,
    command: CounterCommand,
    r: AdmissionOutcome,
    i: int,
)
    requires
        call_ensures(ManagedScheduler::submit, (scheduler, group, incarnation, work), r),
        old(scheduler).state().next_work < u64::MAX,
        work is Counter && work->request == request && work->command == command,
        addressed(old(scheduler).state(), group, incarnation),
        slot_in(old(scheduler).state(), group).state == GroupLifecycle::Serving,
        !slot_in(old(scheduler).state(), group).poisoned,
        request.client_id@ < old(scheduler).state().config.clients_bound(),
        session_at(slot_in(old(scheduler).state(), group).sessions, request.client_id, i),
    ensures
        ({
            let s = old(scheduler).state();
            let after = final(scheduler).state();
            let slot = slot_in(s, group);
            let was = slot.sessions[i];
            let said = session_answer(was, request, command);
            &&& said is Some ==> r == said->0
            &&& said is None && slot.queue.len() < s.config.group_queue_bound() && s.queued
                < s.config.global_queue_bound() <==> r is Queued
            &&& r matches AdmissionOutcome::Queued { work: id } ==> {
                let is = slot_in(after, group).sessions[i];
                &&& is.outstanding is Some
                &&& is.outstanding->0.sequence == request.sequence
                &&& is.outstanding->0.command == command
                &&& is.outstanding->0.work == id
                &&& is.completed == was.completed
                &&& is.epoch == was.epoch
            }
        }),
{
    lemma_session_found(slot_in(old(scheduler).state(), group).sessions, request.client_id, i);
}

/// A client without a session is told so.
pub proof fn law_requests_need_a_session(
    scheduler: &mut ManagedScheduler,
    group: GroupId,
    incarnation: GroupIncarnation,
    work: Work,
    r: AdmissionOutcome,
)
    requires
        call_ensures(ManagedScheduler::submit, (scheduler, group, incarnation, work), r),
        work is Counter,
        addressed(old(scheduler).state(), group, incarnation),
        slot_in(old(scheduler).state(), group).state == GroupLifecycle::Serving,
        !slot_in(old(scheduler).state(), group).poisoned,
        work->request.client_id@ < old(scheduler).state().config.clients_bound(),
        forall|j: int|
            0 <= j < slot_in(old(scheduler).state(), group).sessions.len() ==> (
            #[trigger] slot_in(old(scheduler).state(), group).sessions[j]).client_id
                != work->request.client_id,
    ensures
        r == AdmissionOutcome::Rejected(AdmissionRejection::SessionNotOpen),
{
    let sessions = slot_in(old(scheduler).state(), group).sessions;
    let client = work->request.client_id;
    assert(find_session(sessions, client) is None) by {
        if exists|k: int| is_session_of(sessions, client, k) {
            let k = choose|k: int| is_session_of(sessions, client, k);
            assert(sessions[k].client_id == client);
        }
    }
}

// ------------------------------------------------------------------ lifecycle

/// What a lifecycle request does to a slot that exists, by the state in which it finds it.
pub proof fn law_slots_move_forward(
    scheduler: &mut ManagedScheduler,
    group: GroupId,
    request: LifecycleRequest,
    r: LifecycleTransition,
)
    requires
        call_ensures(ManagedScheduler::lifecycle, (scheduler, group, request), r),
        group@ < old(scheduler).state().config.groups_bound(),
        exists_in(old(scheduler).state(), group),
    ensures
        ({
            let s = old(scheduler).state();
            let after = final(scheduler).state();
            let slot = slot_in(s, group);
            let next = slot_in(after, group);
            let state = slot.state;
            let forward = |to: GroupLifecycle|
                next.state == to && r.outcome == (LifecycleOutcome::Applied {
                    from: state,
                    to,
                    incarnation: slot.incarnation,
                });
            let same = after == s && r.outcome == (LifecycleOutcome::Idempotent {
                state,
                incarnation: slot.incarnation,
            });
            let refused = |requested: GroupLifecycle|
                after == s && r.outcome == LifecycleOutcome::Rejected(
                    LifecycleRejection::Conflict { current: state, requested },
                );
            &&& state == GroupLifecycle::Tombstoned ==> if request is Tombstone {
                same
            } else {
                after == s && r.outcome == LifecycleOutcome::Rejected(
                    LifecycleRejection::GroupTombstoned,
                )
            }
            &&& state == GroupLifecycle::Creating ==> {
                &&& request is Recover ==> forward(GroupLifecycle::Recovering)
                &&& request is Serve ==> refused(GroupLifecycle::Serving)
                &&& request is Remove ==> refused(GroupLifecycle::Removed)
                &&& request is Tombstone ==> refused(GroupLifecycle::Tombstoned)
                &&& request matches LifecycleRequest::Create { quota } ==> if quota == slot.quota {
                    same
                } else {
                    after == s && r.outcome == LifecycleOutcome::Rejected(
                        LifecycleRejection::QuotaConflict { current: slot.quota },
                    )
                }
            }
            &&& state == GroupLifecycle::Recovering ==> {
                &&& request is Recover ==> same
                &&& request is Serve ==> forward(GroupLifecycle::Serving)
                &&& request is Create ==> refused(GroupLifecycle::Creating)
                &&& request is Remove ==> refused(GroupLifecycle::Removed)
                &&& request is Tombstone ==> refused(GroupLifecycle::Tombstoned)
            }
            &&& state == GroupLifecycle::Serving ==> {
                &&& request is Serve ==> same
                &&& request is Recover ==> refused(GroupLifecycle::Recovering)
                &&& request is Create ==> refused(GroupLifecycle::Creating)
                &&& request is Remove ==> refused(GroupLifecycle::Removed)
                &&& request is Tombstone ==> refused(GroupLifecycle::Tombstoned)
            }
            &&& request is Drain && (state == GroupLifecycle::Creating || state
                == GroupLifecycle::Recovering || state == GroupLifecycle::Serving) ==> forward(
                GroupLifecycle::Draining,
            )
            &&& state == GroupLifecycle::Draining ==> {
                &&& request is Serve ==> refused(GroupLifecycle::Serving)
                &&& request is Recover ==> refused(GroupLifecycle::Recovering)
                &&& request is Create ==> refused(GroupLifecycle::Creating)
                &&& request is Tombstone ==> refused(GroupLifecycle::Tombstoned)
                &&& request is Remove && slot.queue.len() == 0 ==> forward(GroupLifecycle::Removed)
                    && next.counter == 0 && next.sessions.len() == 0 && !next.poisoned
                &&& request is Remove && slot.queue.len() > 0 ==> after == s && r.outcome
                    == LifecycleOutcome::Rejected(
                    LifecycleRejection::QueueNotDrained { pending: slot.queue.len() as u32 },
                )
            }
            &&& state == GroupLifecycle::Removed ==> {
                &&& request is Tombstone ==> forward(GroupLifecycle::Tombstoned)
                &&& request is Remove ==> same
                &&& request is Serve ==> refused(GroupLifecycle::Serving)
                &&& request is Recover ==> refused(GroupLifecycle::Recovering)
                &&& request is Drain ==> refused(GroupLifecycle::Draining)
                &&& request matches LifecycleRequest::Create { quota } ==> if slot.incarnation@
                    == 0xffff_ffff {
                    after == s && r.outcome == LifecycleOutcome::Rejected(
                        LifecycleRejection::IncarnationExhausted,
                    )
                } else {
                    &&& next.state == GroupLifecycle::Creating
                    &&& next.incarnation@ == slot.incarnation@ + 1
                    &&& next.quota == quota
                    &&& next.counter == 0
                    &&& next.sessions.len() == 0
                    &&& next.queue.len() == 0
                    &&& r.outcome == (LifecycleOutcome::Created { incarnation: next.incarnation })
                }
            }
        }),
{
}

/// A group that never existed is created in its first incarnation, empty, with its quota; it cannot be
/// asked for anything else, and neither can one outside the range.
pub proof fn law_slots_are_created(
    scheduler: &mut ManagedScheduler,
    group: GroupId,
    request: LifecycleRequest,
    r: LifecycleTransition,
)
    requires
        call_ensures(ManagedScheduler::lifecycle, (scheduler, group, request), r),
        !exists_in(old(scheduler).state(), group),
    ensures
        ({
            let s = old(scheduler).state();
            let after = final(scheduler).state();
            let ranged = group@ < s.config.groups_bound();
            &&& !ranged ==> after == s && r.outcome == LifecycleOutcome::Rejected(
                LifecycleRejection::GroupOutOfRange,
            )
            &&& ranged && !(request is Create) ==> after == s && r.outcome
                == LifecycleOutcome::Rejected(LifecycleRejection::GroupUnknown)
            &&& ranged && request is Create ==> {
                let slot = slot_in(after, group);
                &&& exists_in(after, group)
                &&& slot.incarnation@ == 1
                &&& slot.state == GroupLifecycle::Creating
                &&& slot.quota == request->Create_quota
                &&& slot.counter == 0
                &&& slot.sessions.len() == 0
                &&& slot.queue.len() == 0
                &&& !slot.poisoned && !slot.stalled && !slot.servicing
                &&& r.outcome == (LifecycleOutcome::Created { incarnation: slot.incarnation })
            }
            &&& r.failed@.len() == 0
        }),
{
}

// --------------------------------------------------------------------- passes

proof fn lemma_ids_range(lo: int, hi: int, pred: spec_fn(int) -> bool, k: int)
    requires
        0 <= lo,
        hi <= 0x1_0000_0000,
        0 <= k < ids_where(lo, hi, pred).len(),
    ensures
        lo <= ids_where(lo, hi, pred)[k]@ < hi,
        pred(ids_where(lo, hi, pred)[k]@ as int),
    decreases hi - lo,
{
    if hi > lo {
        let rest = ids_where(lo, hi - 1, pred);
        if k < rest.len() {
            lemma_ids_range(lo, hi - 1, pred, k);
        }
    }
}

proof fn lemma_ids_ascend(lo: int, hi: int, pred: spec_fn(int) -> bool, j: int, k: int)
    requires
        0 <= lo,
        hi <= 0x1_0000_0000,
        0 <= j < k < ids_where(lo, hi, pred).len(),
    ensures
        ids_where(lo, hi, pred)[j]@ < ids_where(lo, hi, pred)[k]@,
    decreases hi - lo,
{
    if hi > lo {
        let rest = ids_where(lo, hi - 1, pred);
        if k < rest.len() {
            lemma_ids_ascend(lo, hi - 1, pred, j, k);
        } else {
            lemma_ids_range(lo, hi - 1, pred, j);
        }
    }
}

/// A plan starts with the first ready group at or behind the cursor and goes round: the groups from the
/// cursor on in ascending order, then those before it in ascending order.
pub proof fn law_plans_go_round_from_the_cursor(s: SchedulerState, j: int, k: int)
    requires
        s.slots.len() <= 0x1_0000_0000,
        0 <= j < k < s.plan_order().len(),
    ensures
        ({
            let a = s.plan_order()[j]@;
            let b = s.plan_order()[k]@;
            &&& a >= s.cursor && b >= s.cursor ==> a < b
            &&& a < s.cursor && b < s.cursor ==> a < b
            &&& a < s.cursor ==> b < s.cursor
        }),
{
    let pred = |id: int| s.ready(id);
    let hi = if s.cursor < s.slots.len() {
        s.cursor as int
    } else {
        s.slots.len() as int
    };
    let front = ids_where(s.cursor as int, s.slots.len() as int, pred);
    let back = ids_where(0, hi, pred);
    let n = front.len();
    assert(s.plan_order() == front + back);
    if j < n {
        lemma_ids_range(s.cursor as int, s.slots.len() as int, pred, j);
    } else {
        lemma_ids_range(0, hi, pred, j - n);
    }
    if k < n {
        lemma_ids_range(s.cursor as int, s.slots.len() as int, pred, k);
        lemma_ids_ascend(s.cursor as int, s.slots.len() as int, pred, j, k);
    } else {
        lemma_ids_range(0, hi, pred, k - n);
        if j >= n {
            lemma_ids_ascend(0, hi, pred, j - n, k - n);
        }
    }
}

/// After a pass the cursor stands behind the group that had the first turn, or at the start where there
/// is none behind it: the next pass begins with another group.
pub proof fn law_cursor_moves_on(s: SchedulerState, plan: PlanState, report: ReportState)
    requires
        plan.next == plan.entries.len(),
        plan.entries.len() > 0,
    ensures
        ({
            let (after, told) = s.traversed(plan, report);
            let first = plan.entries[0]@;
            &&& told.progress == PassProgress::Completed
            &&& after.plan is None
            &&& first + 1 < s.config.groups_bound() ==> after.cursor == first + 1
            &&& first + 1 >= s.config.groups_bound() ==> after.cursor == 0
            &&& after.slots == s.slots
        }),
{
}

/// A turn takes the first worker that is free.
pub proof fn law_first_free_worker_is_taken(workers: Seq<Option<Dispatch>>, w: int)
    ensures
        first_free(workers, 0) == Some(w) <==> 0 <= w < workers.len() && workers[w] is None
            && forall|v: int| 0 <= v < w ==> (#[trigger] workers[v]) is Some,
{
    lemma_first_free(workers, 0, w);
}

proof fn lemma_first_free(workers: Seq<Option<Dispatch>>, from: int, w: int)
    requires
        0 <= from,
    ensures
        first_free(workers, from) == Some(w) <==> from <= w < workers.len() && workers[w] is None
            && forall|v: int| from <= v < w ==> (#[trigger] workers[v]) is Some,
    decreases workers.len() - from,
{
    if from < workers.len() && workers[from] is Some {
        lemma_first_free(workers, from + 1, w);
        if first_free(workers, from) == Some(w) {
            assert forall|v: int| from <= v < w implies (#[trigger] workers[v]) is Some by {}
        }
        if from <= w < workers.len() && workers[w] is None && forall|v: int|
            from <= v < w ==> (#[trigger] workers[v]) is Some {
            assert(from != w);
        }
    } else if from < workers.len() {
        if from < w < workers.len() && forall|v: int|
            from <= v < w ==> (#[trigger] workers[v]) is Some {
            assert(workers[from] is Some);
        }
    }
}

/// A group is stalled as its last report says, whatever was reported before.
pub proof fn law_last_report_counts(
    s: SchedulerState,
    signals: Seq<ReadinessSignal>,
    last: ReadinessSignal,
)
    requires
        exists_in(s.all_signalled(signals), last.group),
        last.group@ < s.all_signalled(signals).config.groups_bound(),
    ensures
        slot_in(s.all_signalled(signals.push(last)), last.group).stalled <==> last.availability
            == GroupAvailability::Stalled,
        slot_in(s.all_signalled(signals.push(last)), last.group).queue == slot_in(
            s.all_signalled(signals),
            last.group,
        ).queue,
{
    assert(signals.push(last).drop_last() =~= signals);
}

/// What is seen of a group is what its slot holds.
pub proof fn law_groups_are_seen_as_they_are(
    scheduler: ManagedScheduler,
    group: GroupId,
    seen: Option<GroupView>,
    value: Option<i64>,
    summary: SchedulerSummary,
)
    requires
        call_ensures(ManagedScheduler::group, (&scheduler, group), seen),
        call_ensures(ManagedScheduler::counter, (&scheduler, group), value),
        call_ensures(ManagedScheduler::summary, (&scheduler,), summary),
    ensures
        ({
            let s = scheduler.state();
            let slot = slot_in(s, group);
            &&& seen is Some <==> exists_in(s, group)
            &&& seen matches Some(view) ==> {
                &&& view.group == group
                &&& view.incarnation == slot.incarnation
                &&& view.state == slot.state
                &&& view.poisoned == slot.poisoned
                &&& view.stalled == slot.stalled
                &&& view.counter == slot.counter
                &&& view.quota == slot.quota
                &&& view.servicing == slot.servicing
                &&& slot.queue.len() <= u32::MAX ==> view.queued == slot.queue.len()
            }
            &&& value is Some <==> exists_in(s, group)
            &&& value is Some ==> value->0 == slot.counter
            &&& summary.queued == s.queued
            &&& summary.admitted == s.admitted
            &&& summary.serviced == s.serviced
            &&& summary.failed == s.failed
        }),
{
}

/// The slot holds a group that takes part: it is neither removed nor tombstoned.
pub open spec fn takes_part(slot: Option<GroupState>) -> bool {
    slot is Some && slot->0.state != GroupLifecycle::Removed && slot->0.state
        != GroupLifecycle::Tombstoned
}

/// The slot holds a poisoned group.
pub open spec fn is_poisoned(slot: Option<GroupState>) -> bool {
    slot is Some && slot->0.poisoned
}

proof fn lemma_counted(
    slots: Seq<Option<GroupState>>,
    pred: spec_fn(GroupState) -> bool,
    test: spec_fn(Option<GroupState>) -> bool,
)
    requires
        forall|slot: Option<GroupState>| #[trigger] test(slot) <==> slot is Some && pred(slot->0),
    ensures
        count_slots(slots, pred) == slots.filter(test).len(),
    decreases slots.len(),
{
    reveal(Seq::filter);
    if slots.len() > 0 {
        lemma_counted(slots.drop_last(), pred, test);
    }
}

/// The summary counts the groups that take part, those that are poisoned and those that are ready, and
/// repeats the counters.
pub proof fn law_summary_counts_the_groups(scheduler: ManagedScheduler, r: SchedulerSummary)
    requires
        call_ensures(ManagedScheduler::summary, (&scheduler,), r),
    ensures
        ({
            let s = scheduler.state();
            &&& r.live_groups == s.slots.filter(|slot: Option<GroupState>| takes_part(slot)).len()
            &&& r.poisoned_groups == s.slots.filter(
                |slot: Option<GroupState>| is_poisoned(slot),
            ).len()
            &&& r.ready_groups == s.ready_ids().len()
            &&& r.queued == s.queued && r.admitted == s.admitted
            &&& r.serviced == s.serviced && r.failed == s.failed
        }),
{
    let slots = scheduler.state().slots;
    lemma_counted(
        slots,
        |slot: GroupState| !departed(slot),
        |slot: Option<GroupState>| takes_part(slot),
    );
    lemma_counted(
        slots,
        |slot: GroupState| slot.poisoned,
        |slot: Option<GroupState>| is_poisoned(slot),
    );
}

} // verus!
