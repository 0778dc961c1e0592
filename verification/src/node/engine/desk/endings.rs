//! How operations end at the desk, who is told, and what they are told.

use vstd::prelude::*;

use crate::adapter::state_machine::{CounterAdmissionDecision, CounterApplyRejection};
use crate::node::engine::desk::outcomes::law_granted_operations_learn_the_decision;
use crate::node::engine::desk::state::{
    pair_key, AcceptedOperation, AdmissionAnswer, CandidateAction, OutstandingWork, Pending, Place,
    RecordAction, RecoveryStep, Waiter,
};
use crate::node::engine::desk::{
    closed_ids, expired_ids, ids_ascend, render_admission_failure, render_barrier_failure,
    render_not_committed, render_poisoned, render_rejected, render_unknown, settle_candidate,
    ClosedRead, Desk, ExpiredClient, GrantedCandidate, ProposalRefusal, TakenClient,
};
use crate::node::record::{OutstandingPhase, TerminalFailure};
use crate::node::render::{
    render_apply_rejection, render_counter_result, render_terminal_failure, Refusal,
};
use crate::types::{CounterResult, GroupId, GroupLifecycle};

verus! {

/// The replies of those who wait for this proposal, in the order in which they came.
pub open spec fn waiting_for(waiters: Seq<Waiter>, id: u64) -> Seq<u64> {
    waiters.filter(|w: Waiter| w.place == (Place::Proposal { id })).map_values(|w: Waiter| w.reply)
}

proof fn lemma_waiting_for(waiters: Seq<Waiter>, id: u64)
    ensures
        crate::node::engine::desk::state::replies_at(waiters, Place::Proposal { id })
            == waiting_for(waiters, id),
    decreases waiters.len(),
{
    crate::node::engine::desk::outcomes::law_waiting_is_sorted_out(
        Seq::empty(),
        waiters,
        0,
        Place::Proposal { id },
    );
}

/// An operation that ends is in progress no more, and those who wait for it are told, whichever way it
/// ended. An applied one and one with an open outcome leave the record alone; a rejected one that is
/// new is cancelled on record; a poisoned or interrupted one fails on record with its own failure.
pub proof fn law_ends_are_told_and_recorded(
    applied: &mut Desk,
    rejected: &mut Desk,
    unknown: &mut Desk,
    poisoned: &mut Desk,
    dropped: &mut Desk,
    now: u64,
    id: u64,
    failure: TerminalFailure,
    a: Option<TakenClient>,
    b: Option<TakenClient>,
    c: Option<TakenClient>,
    d: Option<TakenClient>,
    e: Option<TakenClient>,
)
    requires
        call_ensures(Desk::complete_applied, (applied, id), a),
        call_ensures(Desk::complete_rejected, (rejected, now, id), b),
        call_ensures(Desk::complete_unknown, (unknown, now, id), c),
        call_ensures(Desk::complete_poisoned_dispatch, (poisoned, id), d),
        call_ensures(Desk::complete_not_committed, (dropped, id, failure), e),
    ensures
        a is Some <==> old(applied).state().pending.contains_key(id),
        a matches Some(taken) ==> taken.pending == old(applied).state().pending[id]
            && taken.replies@ == waiting_for(old(applied).state().waiters, id) && taken.action
            == RecordAction::Nothing,
        !final(applied).state().pending.contains_key(id),
        b is Some <==> old(rejected).state().pending.contains_key(id),
        b matches Some(taken) ==> {
            let was = old(rejected).state().pending[id];
            &&& taken.pending == was
            &&& taken.replies@ == waiting_for(old(rejected).state().waiters, id)
            &&& was.operation is Some && !was.recovered ==> taken.action == (RecordAction::Cancel {
                operation: was.operation->0,
            })
            &&& was.operation is None || was.recovered ==> taken.action == RecordAction::Nothing
        },
        !final(rejected).state().pending.contains_key(id),
        c is Some <==> old(unknown).state().pending.contains_key(id),
        c matches Some(taken) ==> taken.replies@ == waiting_for(old(unknown).state().waiters, id)
            && taken.action == RecordAction::Nothing,
        !final(unknown).state().pending.contains_key(id),
        d is Some <==> old(poisoned).state().pending.contains_key(id),
        d matches Some(taken) ==> {
            let was = old(poisoned).state().pending[id];
            &&& taken.replies@ == waiting_for(old(poisoned).state().waiters, id)
            &&& was.operation matches Some(operation) ==> taken.action == (RecordAction::Fail {
                operation,
                failure: TerminalFailure::GroupPoisonedUnknown,
            })
            &&& was.operation is None ==> taken.action == RecordAction::Nothing
        },
        !final(poisoned).state().pending.contains_key(id),
        e is Some <==> old(dropped).state().pending.contains_key(id),
        e matches Some(taken) ==> {
            let was = old(dropped).state().pending[id];
            &&& taken.replies@ == waiting_for(old(dropped).state().waiters, id)
            &&& was.operation matches Some(operation) ==> taken.action == (RecordAction::Fail {
                operation,
                failure,
            })
            &&& was.operation is None ==> taken.action == RecordAction::Nothing
        },
        !final(dropped).state().pending.contains_key(id),
{
    lemma_waiting_for(old(applied).state().waiters, id);
    lemma_waiting_for(old(rejected).state().waiters, id);
    lemma_waiting_for(old(unknown).state().waiters, id);
    lemma_waiting_for(old(poisoned).state().waiters, id);
    lemma_waiting_for(old(dropped).state().waiters, id);
}

/// A granted barrier settles each of its operations by the decision on it, and is gone.
pub proof fn law_granted_barriers_settle_their_operations(
    desk: &mut Desk,
    read_id: u64,
    refusal: Option<Refusal>,
    decisions: Vec<CounterAdmissionDecision>,
    r: Vec<GrantedCandidate>,
    i: int,
    settled: CandidateAction,
)
    requires
        call_ensures(Desk::finish_granted_admission, (desk, read_id, refusal, &decisions), r),
        old(desk).state().admissions.contains_key(read_id),
        0 <= i < r@.len(),
        call_ensures(
            settle_candidate,
            (refusal, decisions@[i], old(desk).state().waiting(read_id)[i].durable),
            settled,
        ),
    ensures
        r@.len() == old(desk).state().waiting(read_id).len(),
        r@[i].candidate.operation == old(desk).state().waiting(read_id)[i].operation,
        r@[i].candidate.durable == old(desk).state().waiting(read_id)[i].durable,
        r@[i].candidate.replies@ == old(desk).state().waiting(read_id)[i].replies,
        r@[i].action == settled,
        refusal is None ==> (decisions@[i] matches CounterAdmissionDecision::CounterReplay(result)
            ==> r@[i].action == (CandidateAction::Answer {
            reconcile: r@[i].candidate.durable,
            answer: AdmissionAnswer::Replay { result },
        })),
        !final(desk).state().admissions.contains_key(read_id),
{
    let durable = old(desk).state().waiting(read_id)[i].durable;
    law_granted_operations_learn_the_decision(refusal, decisions@[i], durable, settled);
    assert(r@[i].candidate@ == old(desk).state().waiting(read_id)[i]);
}

/// The barriers whose time is over, and those of a group that goes, end: these and no others, once
/// each.
pub proof fn law_barriers_end(
    expired: &mut Desk,
    now: u64,
    a: Vec<ClosedRead>,
    cancelled: &mut Desk,
    group: GroupId,
    b: Vec<ClosedRead>,
    closed: &mut Desk,
    c: Vec<ClosedRead>,
    read: u64,
)
    requires
        call_ensures(Desk::expire_admission_reads, (expired, now), a),
        call_ensures(Desk::cancel_admission_reads_for_group, (cancelled, group), b),
        call_ensures(Desk::close_admissions, (closed,), c),
    ensures
        closed_ids(a@).contains(read) <==> old(expired).state().admissions.contains_key(read)
            && old(expired).state().admissions[read].deadline <= now,
        closed_ids(b@).contains(read) <==> old(cancelled).state().admissions.contains_key(read)
            && old(cancelled).state().admissions[read].group_id == group,
        closed_ids(c@).contains(read) <==> old(closed).state().admissions.contains_key(read),
        ids_ascend(closed_ids(a@)) && ids_ascend(closed_ids(b@)) && ids_ascend(closed_ids(c@)),
{
}

/// The clients whose time is over leave, and every client leaves when the node stops: each operation
/// once.
pub proof fn law_clients_leave(
    expired: &mut Desk,
    now: u64,
    a: Vec<ExpiredClient>,
    ended: &mut Desk,
    b: Vec<ExpiredClient>,
    id: u64,
)
    requires
        call_ensures(Desk::expire_clients, (expired, now), a),
        call_ensures(Desk::end_operations, (ended,), b),
    ensures
        expired_ids(a@).contains(id) <==> old(expired).state().pending.contains_key(id) && (old(
            expired).state().pending[id].deadline matches Some(deadline) && deadline <= now),
        expired_ids(b@).contains(id) <==> old(ended).state().pending.contains_key(id),
        ids_ascend(expired_ids(a@)) && ids_ascend(expired_ids(b@)),
{
}

/// A proposal is accepted under the next identity, if there is one and the host takes it; otherwise
/// nothing changes.
pub proof fn law_proposals_take_the_next_identity(
    desk: &mut Desk,
    now: u64,
    group: GroupId,
    operation: Option<AcceptedOperation>,
    replies: Vec<u64>,
    accepted: bool,
    r: Result<u64, ProposalRefusal>,
)
    requires
        call_ensures(
            Desk::admit_client_proposal,
            (desk, now, group, operation, &replies, accepted),
            r,
        ),
        old(desk).state().takes(now),
    ensures
        ({
            let before = old(desk).state();
            let after = final(desk).state();
            let id = before.next_proposal;
            &&& r is Ok <==> id < u64::MAX && accepted
            &&& id == u64::MAX ==> r == Err::<u64, ProposalRefusal>(ProposalRefusal::Exhausted)
            &&& id < u64::MAX && !accepted ==> r == Err::<u64, ProposalRefusal>(
                ProposalRefusal::Backpressure,
            )
            &&& r is Err ==> after == before
            &&& r is Ok ==> {
                &&& r->Ok_0 == id
                &&& after.next_proposal == id + 1
                &&& after.pending.contains_key(id)
                &&& after.pending[id].group_id == group
                &&& after.pending[id].operation == operation
                &&& !after.pending[id].recovered
                &&& after.pending[id].deadline matches Some(deadline) && deadline == now
                    + before.timeout
                &&& after.waiters.len() == before.waiters.len() + replies@.len()
            }
        }),
{
}

/// A restart decides on every recorded operation, in order: poison fails it, a drain fails it where it
/// was queued, and else it is proposed once there is a driver, nothing of its client is in progress, and
/// no retry is pending.
pub proof fn law_recovery_decides_on_everything(
    desk: &mut Desk,
    now: u64,
    work: Vec<OutstandingWork>,
    r: Vec<RecoveryStep>,
    i: int,
)
    requires
        call_ensures(Desk::recover_outstanding, (desk, now, &work), r),
        0 <= i < work@.len(),
    ensures
        ({
            let s = old(desk).state();
            let item = work@[i];
            let key = pair_key(item.group_id, item.operation.client_id());
            let idle = !s.operations.contains_key(key);
            let due = !s.deferred.contains_key(key) || s.deferred[key] <= now;
            &&& r@.len() == work@.len()
            &&& !idle ==> r@[i] == RecoveryStep::Leave
            &&& idle && item.poisoned ==> r@[i] == (RecoveryStep::Fail {
                failure: if item.phase == OutstandingPhase::Queued {
                    TerminalFailure::GroupPoisoned
                } else {
                    TerminalFailure::GroupPoisonedUnknown
                },
            })
            &&& idle && !item.poisoned && item.lifecycle == GroupLifecycle::Draining && item.phase
                == OutstandingPhase::Queued ==> r@[i] == (RecoveryStep::Fail {
                failure: TerminalFailure::ProcessRestarted,
            })
            &&& r@[i] == RecoveryStep::Propose <==> idle && !item.poisoned && !(item.lifecycle
                == GroupLifecycle::Draining && item.phase == OutstandingPhase::Queued)
                && item.driver && due
        }),
{
}

/// What clients are told of an end: that an accepted operation stays open where it is on record, and
/// else that it was not committed, or what went wrong.
pub proof fn law_ends_are_put_in_words(
    durable: bool,
    recovered: bool,
    detail: &str,
    pending: Pending,
    a: String,
    b: String,
    c: String,
    d: String,
    e: String,
    f: &str,
)
    requires
        call_ensures(render_barrier_failure, (durable, detail), a),
        call_ensures(render_admission_failure, (durable, detail), b),
        call_ensures(render_rejected, (recovered, detail), c),
        call_ensures(render_unknown, (detail,), d),
        call_ensures(render_not_committed, (detail,), e),
        call_ensures(render_poisoned, (pending,), f),
    ensures
        durable ==> a@ == "ERR UNKNOWN accepted operation remains durable"@ && b@ == a@,
        !durable ==> a@ == "ERR NOT_COMMITTED "@ + detail@ && b@ == detail@,
        recovered ==> c@ == "ERR UNKNOWN recovered request remains pending: "@ + detail@,
        !recovered ==> c@ == "ERR NOT_COMMITTED "@ + detail@,
        d@ == "ERR UNKNOWN "@ + detail@,
        e@ == "ERR NOT_COMMITTED "@ + detail@,
        pending.operation is Some ==> f@ == "ERR UNKNOWN GROUP_POISONED"@,
        pending.operation is None ==> f@ == "ERR NOT_COMMITTED GROUP_POISONED"@,
{
}

/// What a client is told at once: a recorded result comes back as a replay, a rejection, a failure for
/// good and a refusal in their own words.
pub proof fn law_answers_are_put_in_words(
    answer: AdmissionAnswer,
    r: String,
    result: CounterResult,
    told: String,
    rejection: CounterApplyRejection,
    rejected: String,
    failure: TerminalFailure,
    failed: &str,
    refusal: Refusal,
    refused: String,
)
    requires
        call_ensures(AdmissionAnswer::render, (answer,), r),
        call_ensures(render_counter_result, (result,), told),
        call_ensures(render_apply_rejection, (rejection,), rejected),
        call_ensures(render_terminal_failure, (failure,), failed),
        call_ensures(Refusal::render, (refusal,), refused),
    ensures
        answer == (AdmissionAnswer::Replay { result }) ==> r@ == "OK REPLAY "@ + told@,
        answer == (AdmissionAnswer::Rejected { rejection }) ==> r@ == rejected@,
        answer == (AdmissionAnswer::Terminal { failure }) ==> r@ == failed@,
        answer == (AdmissionAnswer::Refused { refusal }) ==> r@ == refused@,
        answer == AdmissionAnswer::SessionAlreadyOpen ==> r@ == "OK SESSION already_open"@,
        answer == AdmissionAnswer::ClientOutOfRange ==> r@ == "ERR CLIENT_OUT_OF_RANGE"@,
        answer == AdmissionAnswer::Conflicting ==> r@ == "ERR CONFLICTING_OUTSTANDING"@,
        answer == AdmissionAnswer::RemainsDurable ==> r@
            == "ERR UNKNOWN accepted operation remains durable"@,
        answer == AdmissionAnswer::ReadsExhausted ==> r@ == "ERR READ_ID_EXHAUSTED"@,
{
}

} // verus!
