//! What holds of the desk whatever happens.

use vstd::prelude::*;

use crate::adapter::state_machine::CounterAdmissionDecision;
use crate::node::engine::desk::sound::{lemma_close, lemma_take};
use crate::node::engine::desk::state::{
    candidates_of, granted_action, pair_key, replies_at, stands_at, AcceptedOperation,
    AdmissionAnswer, AdmissionStep, Candidate, CandidateAction, DeskState, DurableOperationState,
    OutstandingWork, Place, RecoveryStep, Waiter, RECOVERY_RETRY_DELAY_MS,
};
use crate::node::engine::desk::{admission_failure_text, barrier_failure_text, rejected_record};
use crate::node::engine::lifecycle::{record_refusal, serving_refusal, GroupFacts};
use crate::node::record::{OutstandingPhase, TerminalFailure};
use crate::node::render::Refusal;
use crate::types::{GroupId, GroupIncarnation};

verus! {

/// A waiting client is among those that wait at its place.
proof fn lemma_waiter_is_found(waiters: Seq<Waiter>, i: int)
    requires
        0 <= i < waiters.len(),
    ensures
        replies_at(waiters, waiters[i].place).contains(waiters[i].reply),
    decreases waiters.len(),
{
    let place = waiters[i].place;
    let all = replies_at(waiters, place);
    let before = replies_at(waiters.drop_last(), place);
    if i == waiters.len() - 1 {
        assert(all[all.len() - 1] == waiters[i].reply);
    } else {
        lemma_waiter_is_found(waiters.drop_last(), i);
        assert(waiters.drop_last()[i] == waiters[i]);
        let k = choose|k: int| 0 <= k < before.len() && before[k] == waiters[i].reply;
        assert(all[k] == waiters[i].reply);
    }
}

/// A waiting operation is among those of its barrier.
proof fn lemma_candidate_is_found(candidates: Seq<Candidate>, i: int)
    requires
        0 <= i < candidates.len(),
    ensures
        candidates_of(candidates, candidates[i].read_id).contains(candidates[i]),
    decreases candidates.len(),
{
    let read = candidates[i].read_id;
    let all = candidates_of(candidates, read);
    let before = candidates_of(candidates.drop_last(), read);
    if i == candidates.len() - 1 {
        assert(all[all.len() - 1] == candidates[i]);
    } else {
        lemma_candidate_is_found(candidates.drop_last(), i);
        assert(candidates.drop_last()[i] == candidates[i]);
        let k = choose|k: int| 0 <= k < before.len() && before[k] == candidates[i];
        assert(all[k] == candidates[i]);
    }
}

/// The client is handed out when what it waits for ends.
pub open spec fn is_answered(state: DeskState, waiter: Waiter) -> bool {
    match waiter.place {
        Place::Proposal { id } => state.pending.contains_key(id) && replies_at(
            state.waiters,
            waiter.place,
        ).contains(waiter.reply),
        Place::Candidate { read_id, operation } => state.admissions.contains_key(read_id) && exists|
            k: int,
        |
            0 <= k < state.waiting(read_id).len() && (#[trigger] state.waiting(
                read_id,
            )[k]).operation == operation && state.waiting(read_id)[k].replies.contains(
                waiter.reply,
            ),
    }
}

/// No client is forgotten: whoever waits does so for a proposal or a barrier that is in progress,
/// and is handed out with it when that ends.
pub proof fn law_every_client_is_answered(state: DeskState, i: int)
    requires
        state.sound(),
        0 <= i < state.waiters.len(),
    ensures
        is_answered(state, state.waiters[i]),
{
    let waiter = state.waiters[i];
    lemma_waiter_is_found(state.waiters, i);
    assert(state.attended(state.waiters[i]));
    match waiter.place {
        Place::Proposal { id } => {},
        Place::Candidate { read_id, operation } => {
            let j = choose|j: int| stands_at(state.candidates, read_id, operation, j);
            assert(stands_at(state.candidates, read_id, operation, j));
            lemma_candidate_is_found(state.candidates, j);
            let found = candidates_of(state.candidates, read_id);
            let k = choose|k: int| 0 <= k < found.len() && found[k] == state.candidates[j];
            assert(state.waiting(read_id)[k].operation == operation);
            assert(state.waiting(read_id)[k].replies.contains(waiter.reply));
            assert(state.admissions.contains_key(state.candidates[j].read_id));
        },
    }
}

/// A client has at most one operation of a group in progress, and at most one barrier.
pub proof fn law_client_has_one_operation_in_progress(state: DeskState, a: u64, b: u64)
    requires
        state.sound(),
    ensures
        ({
            &&& state.pending.contains_key(a)
            &&& state.pending.contains_key(b)
            &&& state.pending[a].operation is Some
            &&& state.pending[b].operation is Some
            &&& state.pending[a].group_id == state.pending[b].group_id
            &&& state.pending[a].operation->0.client_id()
                == state.pending[b].operation->0.client_id()
        }) ==> a == b,
        ({
            &&& state.admissions.contains_key(a)
            &&& state.admissions.contains_key(b)
            &&& state.admissions[a].group_id == state.admissions[b].group_id
            &&& state.admissions[a].client_id == state.admissions[b].client_id
        }) ==> a == b,
{
}

/// A retry of an operation in progress is not proposed again: its client waits for the same
/// proposal.
pub proof fn law_retry_joins_the_operation_in_progress(
    state: DeskState,
    now: u64,
    facts: Option<GroupFacts>,
    id: u64,
    incarnation: GroupIncarnation,
    reply: u64,
    phase: OutstandingPhase,
)
    requires
        state.sound(),
        state.pending.contains_key(id),
        state.pending[id].operation is Some,
        state.pending[id].operation->0.client_id()@ < state.max_sessions,
        record_refusal(facts, incarnation) is None,
    ensures
        ({
            let pending = state.pending[id];
            let (after, step) = state.begin(
                now,
                facts,
                pending.group_id,
                incarnation,
                pending.operation->0,
                reply,
                DurableOperationState::ExactOutstanding { phase },
            );
            &&& step == AdmissionStep::Attached
            &&& after.next_proposal == state.next_proposal
            &&& after.waiters == state.waiters.push(
                Waiter { reply, place: Place::Proposal { id } },
            )
        }),
{
    let pending = state.pending[id];
    let operation = pending.operation->0;
    let key = pair_key(pending.group_id, operation.client_id());
    assert(state.operations.contains_key(key) && state.operations[key] == id);
    assert(state.same_operation(pending.group_id, operation) == Some(id));
    let joined = state.join(now, id, seq![reply]);
    assert(joined.waiters =~= state.waiters.push(Waiter { reply, place: Place::Proposal { id } }));
}

/// What the record holds is never reported as not committed, whatever becomes of the barrier that
/// a retry of it waits for: until the state machine has decided, the answer is that the outcome is
/// open.
pub proof fn law_recorded_operation_is_never_denied(
    refusal: Refusal,
    decision: CounterAdmissionDecision,
    detail: Seq<char>,
)
    ensures
        granted_action(Some(refusal), decision, true) == (CandidateAction::Answer {
            reconcile: false,
            answer: AdmissionAnswer::RemainsDurable,
        }),
        barrier_failure_text(true, detail) == AdmissionAnswer::RemainsDurable.text(),
        admission_failure_text(true, detail) == AdmissionAnswer::RemainsDurable.text(),
{
}

/// The completion of a recorded operation is recorded before its client learns of it.
pub proof fn law_completion_is_recorded_before_the_answer(decision: CounterAdmissionDecision)
    ensures
        match granted_action(None, decision, true) {
            CandidateAction::Answer { reconcile, answer } => reconcile == (decision
                is SessionAlreadyOpen || decision is CounterReplay),
            CandidateAction::Proceed => decision is Proceed,
        },
{
}

/// An operation that failed for good gives the same answer to every retry, and changes nothing.
pub proof fn law_terminal_failure_is_final(
    state: DeskState,
    now: u64,
    facts: Option<GroupFacts>,
    group_id: GroupId,
    incarnation: GroupIncarnation,
    operation: AcceptedOperation,
    reply: u64,
    failure: TerminalFailure,
)
    requires
        record_refusal(facts, incarnation) is None,
        operation.client_id()@ < state.max_sessions,
    ensures
        state.begin(
            now,
            facts,
            group_id,
            incarnation,
            operation,
            reply,
            DurableOperationState::ExactTerminal { failure },
        ) == (
            state,
            AdmissionStep::Answer { answer: AdmissionAnswer::Terminal { failure } },
        ),
{
}

/// An operation that may have entered the driver is never failed as not committed after a restart:
/// it is proposed again, or its outcome is reported as unknown.
pub proof fn law_entered_operation_is_not_reported_uncommitted(
    state: DeskState,
    now: u64,
    work: OutstandingWork,
)
    requires
        work.phase == OutstandingPhase::EnteredDriver,
    ensures
        match state.recovery(now, work) {
            RecoveryStep::Fail { failure } => failure == TerminalFailure::GroupPoisonedUnknown,
            _ => true,
        },
{
}

/// A recovered operation that ended without a definite outcome stays in the record and is proposed
/// again, once its delay is over.
pub proof fn law_recovered_operation_is_tried_again(
    state: DeskState,
    now: u64,
    later: u64,
    id: u64,
    work: OutstandingWork,
)
    requires
        state.sound(),
        state.takes(now),
        state.pending.contains_key(id),
        state.pending[id].recovered,
        state.pending[id].operation == Some(work.operation),
        state.pending[id].group_id == work.group_id,
        work.driver,
        !work.poisoned,
        work.phase == OutstandingPhase::EnteredDriver,
    ensures
        rejected_record(state.pending[id]) is Nothing,
        state.take_open(now, id).recovery(later, work) == if later >= now
            + RECOVERY_RETRY_DELAY_MS {
            RecoveryStep::Propose
        } else {
            RecoveryStep::Leave
        },
{
}

/// A client operation that its leader rejected leaves nothing behind: its reservation is cancelled,
/// and the client may try another one.
pub proof fn law_rejected_operation_is_cancelled(state: DeskState, now: u64, id: u64)
    requires
        state.sound(),
        state.pending.contains_key(id),
        !state.pending[id].recovered,
        state.pending[id].operation is Some,
    ensures
        ({
            let pending = state.pending[id];
            let operation = pending.operation->0;
            let key = pair_key(pending.group_id, operation.client_id());
            let after = state.take_open(now, id);
            &&& rejected_record(pending)
                == (crate::node::engine::desk::state::RecordAction::Cancel { operation })
            &&& !after.pending.contains_key(id)
            &&& !after.operations.contains_key(key)
            &&& !after.deferred.contains_key(key)
        }),
{
}

/// A request never starts a barrier on a group that its gate refuses.
pub proof fn law_barriers_start_on_serving_groups_only(
    state: DeskState,
    now: u64,
    facts: Option<GroupFacts>,
    group_id: GroupId,
    incarnation: GroupIncarnation,
    operation: AcceptedOperation,
    reply: u64,
    recorded: DurableOperationState,
)
    requires
        state.begin(now, facts, group_id, incarnation, operation, reply, recorded).1 is Barrier,
    ensures
        serving_refusal(facts, incarnation) is None,
        operation.client_id()@ < state.max_sessions,
{
}

/// A barrier that was ended is not in progress.
proof fn lemma_closed(state: DeskState, reads: Seq<u64>, read: u64)
    requires
        state.sound(),
    ensures
        state.close_all(reads).sound(),
        state.close_all(reads).pending == state.pending,
        state.close_all(reads).admissions.contains_key(read) <==> state.admissions.contains_key(
            read,
        ) && !reads.contains(read),
    decreases reads.len(),
{
    if reads.len() > 0 {
        let rest = reads.drop_last();
        lemma_closed(state, rest, read);
        lemma_close(state.close_all(rest), reads.last());
        if reads.contains(read) {
            let k = choose|k: int| 0 <= k < reads.len() && reads[k] == read;
            if k < rest.len() {
                assert(rest[k] == read);
            }
        }
        if rest.contains(read) {
            let k = choose|k: int| 0 <= k < rest.len() && rest[k] == read;
            assert(reads[k] == read);
        }
        if read == reads.last() {
            assert(reads[reads.len() - 1] == read);
        }
    }
}

/// An operation that was ended is not in progress.
proof fn lemma_ended(state: DeskState, ids: Seq<u64>, id: u64)
    requires
        state.sound(),
    ensures
        state.take_all(ids).sound(),
        state.take_all(ids).admissions == state.admissions,
        state.take_all(ids).candidates == state.candidates,
        state.take_all(ids).pending.contains_key(id) <==> state.pending.contains_key(id)
            && !ids.contains(id),
    decreases ids.len(),
{
    if ids.len() > 0 {
        let rest = ids.drop_last();
        lemma_ended(state, rest, id);
        lemma_take(state.take_all(rest), ids.last());
        if ids.contains(id) {
            let k = choose|k: int| 0 <= k < ids.len() && ids[k] == id;
            if k < rest.len() {
                assert(rest[k] == id);
            }
        }
        if rest.contains(id) {
            let k = choose|k: int| 0 <= k < rest.len() && rest[k] == id;
            assert(ids[k] == id);
        }
        if id == ids.last() {
            assert(ids[ids.len() - 1] == id);
        }
    }
}

/// When the process stops and has ended every barrier and every operation, nobody waits any more.
pub proof fn law_nobody_waits_after_the_stop(state: DeskState, reads: Seq<u64>, ids: Seq<u64>)
    requires
        state.sound(),
        forall|read: u64| #[trigger] reads.contains(read) <==> state.admissions.contains_key(read),
        forall|id: u64| #[trigger] ids.contains(id) <==> state.pending.contains_key(id),
    ensures
        state.close_all(reads).take_all(ids).waiters.len() == 0,
{
    let closed = state.close_all(reads);
    let after = closed.take_all(ids);
    lemma_closed(state, reads, 0);
    lemma_ended(closed, ids, 0);
    if after.waiters.len() > 0 {
        assert(after.attended(after.waiters[0]));
        match after.waiters[0].place {
            Place::Proposal { id } => {
                lemma_ended(closed, ids, id);
            },
            Place::Candidate { read_id, operation } => {
                let j = choose|j: int| stands_at(after.candidates, read_id, operation, j);
                assert(stands_at(after.candidates, read_id, operation, j));
                assert(after.admissions.contains_key(after.candidates[j].read_id));
                lemma_closed(state, reads, read_id);
            },
        }
    }
}

} // verus!
