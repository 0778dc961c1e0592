//! What becomes of the operations that clients ask for, case by case.

use vstd::prelude::*;

use crate::adapter::state_machine::{CounterAdmissionDecision, ReplicatedCounterCommand};
use crate::node::app_store::ReserveOutcome;
use crate::node::engine::desk::state::{
    candidates_besides, candidates_of, pair_key, replies_at, stands, stands_at, waiters_besides,
    waiters_besides_read, AcceptedOperation, Admission, AdmissionAnswer, AdmissionStep, Candidate,
    CandidateAction, DeskState, DurableOperationState, OutstandingWork, Pending, Place, ProceedStep,
    RecordAction, RecoveryStep, Waiter,
};
use crate::node::engine::desk::{
    failed_record, finish_proceeding_admission, finish_reserved_admission, rejected_record,
    settle_candidate, ProposalRefusal, Reservation, ReservationStep, ReservedStep,
};
use crate::node::engine::lifecycle::GroupFacts;
use crate::node::record::{OutstandingPhase, TerminalFailure};
use crate::node::render::Refusal;
use crate::types::{ClientId, GroupId, GroupIncarnation, GroupLifecycle, WorkClass};

verus! {

/// An operation belongs to the client that asked for it, and is replicated as what was asked: a
/// session as control traffic, a counter request as a command.
pub proof fn law_operations_are_replicated_as_asked(
    operation: AcceptedOperation,
    command: ReplicatedCounterCommand,
    client: ClientId,
    class: WorkClass,
)
    requires
        call_ensures(AcceptedOperation::replicated_command, (operation,), command),
        call_ensures(AcceptedOperation::client_id, (operation,), client),
        call_ensures(AcceptedOperation::class, (operation,), class),
    ensures
        operation matches AcceptedOperation::OpenSession { client_id, epoch } ==> client == client_id
            && class == WorkClass::Control && command == (ReplicatedCounterCommand::OpenSession {
            client_id,
            epoch,
        }),
        operation matches AcceptedOperation::Counter { request, command: asked } ==> client
            == request.client_id && class == WorkClass::Command && command == (
        ReplicatedCounterCommand::Counter { request, command: asked }),
{
}

/// Once a barrier is granted, the state machine's decision is what the client learns: a completed
/// request its very result, a refused one its very refusal, an open session that it is open. Where the
/// record held the operation, its completion is recorded first. Only a new operation goes on. A group
/// that refuses by then answers the refusal, or, where the record holds the operation, that the outcome
/// is open.
pub proof fn law_granted_operations_learn_the_decision(
    refusal: Option<Refusal>,
    decision: CounterAdmissionDecision,
    durable: bool,
    r: CandidateAction,
)
    requires
        call_ensures(settle_candidate, (refusal, decision, durable), r),
    ensures
        refusal is None ==> match decision {
            CounterAdmissionDecision::CounterReplay(result) => r == (CandidateAction::Answer {
                reconcile: durable,
                answer: AdmissionAnswer::Replay { result },
            }),
            CounterAdmissionDecision::Rejected(rejection) => r == (CandidateAction::Answer {
                reconcile: false,
                answer: AdmissionAnswer::Rejected { rejection },
            }),
            CounterAdmissionDecision::SessionAlreadyOpen => r == (CandidateAction::Answer {
                reconcile: durable,
                answer: AdmissionAnswer::SessionAlreadyOpen,
            }),
            CounterAdmissionDecision::Proceed => r == CandidateAction::Proceed,
        },
        refusal matches Some(why) ==> r == (CandidateAction::Answer {
            reconcile: false,
            answer: if durable {
                AdmissionAnswer::RemainsDurable
            } else {
                AdmissionAnswer::Refused { refusal: why }
            },
        }),
{
}

/// A reservation that stands is proposed, sessions as control traffic and requests as commands; a
/// refused one is answered, and one that may or may not be on disk stops the process.
pub proof fn law_reserved_operations_are_proposed(
    operation: AcceptedOperation,
    reservation: Reservation,
    r: ReservationStep,
)
    requires
        call_ensures(finish_proceeding_admission, (operation, reservation), r),
    ensures
        reservation == Reservation::Rejected <==> r == ReservationStep::Answer,
        reservation == Reservation::Uncertain <==> r == ReservationStep::Stop,
        reservation == Reservation::Reserved || reservation == Reservation::ExactRetry ==> r == (
        ReservationStep::Propose {
            class: if operation is OpenSession {
                WorkClass::Control
            } else {
                WorkClass::Command
            },
        }),
{
}

/// A refused proposal cancels the reservation that was made for it, and leaves one that was there
/// before.
pub proof fn law_refused_proposal_keeps_older_reservations(
    reservation: ReserveOutcome,
    refusal: ProposalRefusal,
    r: ReservedStep,
)
    requires
        call_ensures(finish_reserved_admission, (reservation, refusal), r),
    ensures
        reservation == ReserveOutcome::ExactRetry <==> r == ReservedStep::Remains,
        reservation == ReserveOutcome::Reserved ==> r == (ReservedStep::Cancel {
            managed: refusal == ProposalRefusal::Backpressure,
        }),
{
}

/// What is recorded of an operation that ended: a failure is recorded as it happened; a rejected
/// operation is cancelled unless it was recovered, for it is then proposed again. An injected fault is
/// not on record.
pub proof fn law_ended_operations_are_recorded(pending: Pending, failure: TerminalFailure)
    ensures
        pending.operation is None ==> failed_record(pending, failure) == RecordAction::Nothing
            && rejected_record(pending) == RecordAction::Nothing,
        pending.operation matches Some(operation) ==> failed_record(pending, failure) == (
        RecordAction::Fail { operation, failure }),
        pending.operation matches Some(operation) ==> rejected_record(pending) == if pending.recovered {
            RecordAction::Nothing
        } else {
            RecordAction::Cancel { operation }
        },
{
}

// -------------------------------------------------------------------- waiting

/// The operations of a barrier, and the clients of a place, are all of them and in the order in which
/// they came; everything else is kept, in order too.
pub proof fn law_waiting_is_sorted_out(
    candidates: Seq<Candidate>,
    waiters: Seq<Waiter>,
    read_id: u64,
    place: Place,
)
    ensures
        candidates_of(candidates, read_id) == candidates.filter(|c: Candidate| c.read_id == read_id),
        candidates_besides(candidates, read_id) == candidates.filter(
            |c: Candidate| c.read_id != read_id,
        ),
        replies_at(waiters, place) == waiters.filter(|w: Waiter| w.place == place).map_values(
            |w: Waiter| w.reply,
        ),
        waiters_besides(waiters, place) == waiters.filter(|w: Waiter| w.place != place),
    decreases candidates.len() + waiters.len(),
{
    reveal(Seq::filter);
    if candidates.len() > 0 {
        law_waiting_is_sorted_out(candidates.drop_last(), waiters, read_id, place);
        lemma_kept_candidates(candidates, read_id);
    } else if waiters.len() > 0 {
        law_waiting_is_sorted_out(candidates, waiters.drop_last(), read_id, place);
    }
    if waiters.len() > 0 {
        lemma_kept_waiters(waiters, place);
    }
}

proof fn lemma_kept_candidates(candidates: Seq<Candidate>, read_id: u64)
    ensures
        candidates_of(candidates, read_id) == candidates.filter(|c: Candidate| c.read_id == read_id),
        candidates_besides(candidates, read_id) == candidates.filter(
            |c: Candidate| c.read_id != read_id,
        ),
    decreases candidates.len(),
{
    reveal(Seq::filter);
    if candidates.len() > 0 {
        lemma_kept_candidates(candidates.drop_last(), read_id);
    }
}

proof fn lemma_kept_waiters(waiters: Seq<Waiter>, place: Place)
    ensures
        replies_at(waiters, place) == waiters.filter(|w: Waiter| w.place == place).map_values(
            |w: Waiter| w.reply,
        ),
        waiters_besides(waiters, place) == waiters.filter(|w: Waiter| w.place != place),
    decreases waiters.len(),
{
    reveal(Seq::filter);
    let reply = |w: Waiter| w.reply;
    let here = |w: Waiter| w.place == place;
    if waiters.len() > 0 {
        let rest = waiters.drop_last();
        lemma_kept_waiters(rest, place);
        if waiters.last().place == place {
            assert(waiters.filter(here) == rest.filter(here).push(waiters.last()));
            assert(waiters.filter(here).map_values(reply) =~= rest.filter(here).map_values(
                reply,
            ).push(waiters.last().reply));
        }
    } else {
        assert(waiters.filter(here).map_values(reply) =~= Seq::<u64>::empty());
    }
}

proof fn lemma_kept_reads(waiters: Seq<Waiter>, read_id: u64, w: Waiter)
    ensures
        waiters_besides_read(waiters, read_id).contains(w) <==> waiters.contains(w) && !(
        w.place matches Place::Candidate { read_id: read, .. } && read == read_id),
    decreases waiters.len(),
{
    if waiters.len() > 0 {
        let rest = waiters.drop_last();
        lemma_kept_reads(rest, read_id, w);
        let kept = waiters_besides_read(rest, read_id);
        assert(waiters.contains(w) <==> rest.contains(w) || w == waiters.last()) by {
            if rest.contains(w) {
                let k = choose|k: int| 0 <= k < rest.len() && rest[k] == w;
                assert(waiters[k] == w);
            }
            if w == waiters.last() {
                assert(waiters[waiters.len() - 1] == w);
            }
            if waiters.contains(w) && w != waiters.last() {
                let k = choose|k: int| 0 <= k < waiters.len() && waiters[k] == w;
                assert(rest[k] == w);
            }
        }
        assert(kept.push(waiters.last()).contains(w) <==> kept.contains(w) || w
            == waiters.last()) by {
            if kept.contains(w) {
                let k = choose|k: int| 0 <= k < kept.len() && kept[k] == w;
                assert(kept.push(waiters.last())[k] == w);
            }
            assert(kept.push(waiters.last())[kept.len() as int] == waiters.last());
        }
    }
}

// ------------------------------------------------------------------ admission

/// An operation that the record or the group's identity already answers is answered at once, and
/// changes nothing: an unknown group, another incarnation, a client out of range, a terminal failure of
/// the same operation, a terminal failure of another one.
pub proof fn law_answered_operations_change_nothing(
    desk: DeskState,
    now: u64,
    facts: Option<GroupFacts>,
    group_id: GroupId,
    incarnation: GroupIncarnation,
    operation: AcceptedOperation,
    reply: u64,
    recorded: DurableOperationState,
)
    ensures
        ({
            let (after, step) = desk.begin(
                now,
                facts,
                group_id,
                incarnation,
                operation,
                reply,
                recorded,
            );
            let known = facts is Some && incarnation@ == facts->0.incarnation@;
            let ranged = known && operation.client_id()@ < desk.max_sessions;
            &&& facts is None ==> after == desk && step == (AdmissionStep::Answer {
                answer: AdmissionAnswer::Refused { refusal: Refusal::GroupUnknown },
            })
            &&& facts is Some && incarnation@ < facts->0.incarnation@ ==> after == desk && step == (
            AdmissionStep::Answer {
                answer: AdmissionAnswer::Refused {
                    refusal: Refusal::StaleIncarnation { current: facts->0.incarnation },
                },
            })
            &&& facts is Some && incarnation@ > facts->0.incarnation@ ==> after == desk && step == (
            AdmissionStep::Answer {
                answer: AdmissionAnswer::Refused {
                    refusal: Refusal::FutureIncarnation { current: facts->0.incarnation },
                },
            })
            &&& known && operation.client_id()@ >= desk.max_sessions ==> after == desk && step == (
            AdmissionStep::Answer { answer: AdmissionAnswer::ClientOutOfRange })
            &&& ranged && recorded is ExactTerminal ==> after == desk && step == (
            AdmissionStep::Answer {
                answer: AdmissionAnswer::Terminal { failure: recorded->failure },
            })
            &&& ranged && recorded is ConflictingTerminal ==> after == desk && step == (
            AdmissionStep::Answer { answer: AdmissionAnswer::Conflicting })
        }),
{
}

/// The record leaves the operation open.
pub open spec fn undecided(recorded: DurableOperationState) -> bool {
    recorded is ExactOutstanding || recorded is ConflictingOutstanding || recorded is Absent
}

/// A client that asks for an operation in progress waits for it, and its time starts anew.
pub proof fn law_same_operation_is_joined(
    desk: DeskState,
    now: u64,
    facts: GroupFacts,
    group_id: GroupId,
    operation: AcceptedOperation,
    reply: u64,
    recorded: DurableOperationState,
    id: u64,
)
    requires
        desk.takes(now),
        operation.client_id()@ < desk.max_sessions,
        undecided(recorded),
        desk.operations.contains_key(pair_key(group_id, operation.client_id())),
        desk.operations[pair_key(group_id, operation.client_id())] == id,
        desk.pending[id].operation == Some(operation),
    ensures
        ({
            let (after, step) = desk.begin(
                now,
                Some(facts),
                group_id,
                facts.incarnation,
                operation,
                reply,
                recorded,
            );
            &&& step == AdmissionStep::Attached
            &&& after.waiters == desk.waiters.push(Waiter { reply, place: Place::Proposal { id } })
            &&& after.pending.dom() == desk.pending.dom().insert(id)
            &&& after.pending[id].deadline matches Some(deadline) && deadline == now + desk.timeout
            &&& after.pending[id].operation == desk.pending[id].operation
            &&& after.pending[id].group_id == desk.pending[id].group_id
            &&& after.pending[id].recovered == desk.pending[id].recovered
            &&& forall|other: u64| other != id ==> #[trigger] after.pending[other]
                == desk.pending[other]
            &&& after.operations == desk.operations
            &&& after.admissions == desk.admissions
            &&& after.candidates == desk.candidates
            &&& after.next_read == desk.next_read
            &&& after.next_proposal == desk.next_proposal
            &&& after.barriers_started == desk.barriers_started
        }),
{
    let (after, step) = desk.begin(
        now,
        Some(facts),
        group_id,
        facts.incarnation,
        operation,
        reply,
        recorded,
    );
    assert(after.waiters =~= desk.waiters.push(Waiter { reply, place: Place::Proposal { id } }));
}

/// A client whose earlier operation waits for a barrier waits for the same barrier with its new one,
/// which is looked at beside the other once the barrier is granted.
pub proof fn law_barrier_is_shared(
    desk: DeskState,
    now: u64,
    facts: GroupFacts,
    group_id: GroupId,
    operation: AcceptedOperation,
    reply: u64,
    recorded: DurableOperationState,
    read_id: u64,
)
    requires
        desk.takes(now),
        operation.client_id()@ < desk.max_sessions,
        undecided(recorded),
        !desk.operations.contains_key(pair_key(group_id, operation.client_id())),
        desk.reads.contains_key(pair_key(group_id, operation.client_id())),
        desk.reads[pair_key(group_id, operation.client_id())] == read_id,
    ensures
        ({
            let (after, step) = desk.begin(
                now,
                Some(facts),
                group_id,
                facts.incarnation,
                operation,
                reply,
                recorded,
            );
            &&& step == AdmissionStep::Attached
            &&& after.waiters == desk.waiters.push(
                Waiter { reply, place: Place::Candidate { read_id, operation } },
            )
            &&& after.admissions[read_id].deadline == now + desk.timeout
            &&& exists|i: int|
                0 <= i < after.candidates.len() && (#[trigger] after.candidates[i]).read_id
                    == read_id && after.candidates[i].operation == operation && (recorded
                    is ExactOutstanding ==> after.candidates[i].durable)
            &&& !stands(desk.candidates, read_id, operation) ==> after.candidates
                == desk.candidates.push(
                Candidate { read_id, operation, durable: recorded is ExactOutstanding },
            )
            &&& stands(desk.candidates, read_id, operation) ==> after.candidates.len()
                == desk.candidates.len()
            &&& after.pending == desk.pending
            &&& after.operations == desk.operations
            &&& after.reads == desk.reads
            &&& after.next_read == desk.next_read
            &&& after.next_proposal == desk.next_proposal
            &&& after.barriers_started == desk.barriers_started
        }),
{
    let (after, step) = desk.begin(
        now,
        Some(facts),
        group_id,
        facts.incarnation,
        operation,
        reply,
        recorded,
    );
    if stands(desk.candidates, read_id, operation) {
        let k = choose|k: int| stands_at(desk.candidates, read_id, operation, k);
        assert(stands_at(desk.candidates, read_id, operation, k));
        lemma_first_stands(desk.candidates, read_id, operation, 0, k);
        let i = crate::node::engine::desk::state::first_standing(
            desk.candidates,
            read_id,
            operation,
            0,
        );
        assert(after.candidates[i].operation == operation);
    } else {
        let i = desk.candidates.len() as int;
        assert(after.candidates[i].operation == operation);
    }
}

proof fn lemma_first_stands(
    candidates: Seq<Candidate>,
    read_id: u64,
    operation: AcceptedOperation,
    from: int,
    k: int,
)
    requires
        0 <= from <= k,
        stands_at(candidates, read_id, operation, k),
    ensures
        stands_at(
            candidates,
            read_id,
            operation,
            crate::node::engine::desk::state::first_standing(candidates, read_id, operation, from),
        ),
    decreases k - from,
{
    if from < k && !stands_at(candidates, read_id, operation, from) {
        lemma_first_stands(candidates, read_id, operation, from + 1, k);
    }
}

/// A client that has nothing in progress starts a barrier on a healthy serving group: under the next
/// identity, for exactly its operation, with its time from now on. On any other group it is answered
/// what stands in the way, or, where the record holds the operation, that the outcome is open.
pub proof fn law_new_operation_starts_a_barrier(
    desk: DeskState,
    now: u64,
    facts: GroupFacts,
    group_id: GroupId,
    operation: AcceptedOperation,
    reply: u64,
    recorded: DurableOperationState,
)
    requires
        desk.takes(now),
        operation.client_id()@ < desk.max_sessions,
        undecided(recorded),
        !desk.operations.contains_key(pair_key(group_id, operation.client_id())),
        !desk.reads.contains_key(pair_key(group_id, operation.client_id())),
    ensures
        ({
            let (after, step) = desk.begin(
                now,
                Some(facts),
                group_id,
                facts.incarnation,
                operation,
                reply,
                recorded,
            );
            let healthy = facts.lifecycle == GroupLifecycle::Serving && !facts.poisoned
                && !facts.runtime_poisoned && facts.driver && facts.ready;
            let read_id = desk.next_read;
            &&& healthy && read_id < u64::MAX ==> {
                &&& step == (AdmissionStep::Barrier { read_id })
                &&& after.next_read == read_id + 1
                &&& after.admissions == desk.admissions.insert(
                    read_id,
                    Admission {
                        group_id,
                        incarnation: facts.incarnation,
                        client_id: operation.client_id(),
                        deadline: (now + desk.timeout) as u64,
                    },
                )
                &&& after.reads == desk.reads.insert(
                    pair_key(group_id, operation.client_id()),
                    read_id,
                )
                &&& after.candidates == desk.candidates.push(
                    Candidate { read_id, operation, durable: recorded is ExactOutstanding },
                )
                &&& after.waiters == desk.waiters.push(
                    Waiter { reply, place: Place::Candidate { read_id, operation } },
                )
                &&& after.barriers_started == if desk.barriers_started < u64::MAX {
                    desk.barriers_started + 1
                } else {
                    u64::MAX as int
                }
                &&& after.pending == desk.pending
                &&& after.operations == desk.operations
                &&& after.deferred == desk.deferred
                &&& after.next_proposal == desk.next_proposal
                &&& after.client_admitted == desk.client_admitted
            }
            &&& (!healthy || read_id == u64::MAX) && recorded is ExactOutstanding ==> after == desk
                && step == (AdmissionStep::Answer { answer: AdmissionAnswer::RemainsDurable })
            &&& healthy && read_id == u64::MAX && !(recorded is ExactOutstanding) ==> after == desk
                && step == (AdmissionStep::Answer { answer: AdmissionAnswer::ReadsExhausted })
            &&& !healthy && !(recorded is ExactOutstanding) ==> after == desk && (step matches
                AdmissionStep::Answer { answer: AdmissionAnswer::Refused { refusal } } && {
                &&& facts.lifecycle == GroupLifecycle::Tombstoned ==> refusal
                    == Refusal::Tombstoned
                &&& facts.lifecycle != GroupLifecycle::Serving && facts.lifecycle
                    != GroupLifecycle::Tombstoned ==> refusal == (Refusal::Lifecycle {
                    state: facts.lifecycle,
                })
                &&& facts.lifecycle == GroupLifecycle::Serving && (facts.poisoned
                    || facts.runtime_poisoned) ==> refusal == Refusal::GroupPoisoned
            })
        }),
{
}

/// A barrier that ends takes its own operations and clients with it, and nobody else's.
pub proof fn law_ended_barrier_is_forgotten(desk: DeskState, read_id: u64)
    requires
        desk.admissions.contains_key(read_id),
    ensures
        ({
            let after = desk.close(read_id);
            let admission = desk.admissions[read_id];
            &&& after.admissions == desk.admissions.remove(read_id)
            &&& after.reads == desk.reads.remove(
                pair_key(admission.group_id, admission.client_id),
            )
            &&& after.candidates == desk.candidates.filter(|c: Candidate| c.read_id != read_id)
            &&& forall|w: Waiter| #[trigger]
                after.waiters.contains(w) <==> desk.waiters.contains(w) && !(w.place matches
                    Place::Candidate { read_id: read, .. } && read == read_id)
            &&& after.pending == desk.pending
            &&& after.operations == desk.operations
            &&& after.deferred == desk.deferred
            &&& after.next_read == desk.next_read
            &&& after.next_proposal == desk.next_proposal
        }),
{
    lemma_kept_candidates(desk.candidates, read_id);
    assert forall|w: Waiter| #[trigger]
        desk.close(read_id).waiters.contains(w) <==> desk.waiters.contains(w) && !(w.place matches
            Place::Candidate { read_id: read, .. } && read == read_id) by {
        lemma_kept_reads(desk.waiters, read_id, w);
    }
}

/// What waited for a barrier is each of its operations once, in order, with the clients that wait for
/// that operation under that barrier.
pub proof fn law_barrier_hands_out_what_waited(desk: DeskState, read_id: u64, i: int)
    requires
        0 <= i < desk.waiting(read_id).len(),
    ensures
        ({
            let own = desk.candidates.filter(|c: Candidate| c.read_id == read_id);
            let taken = desk.waiting(read_id)[i];
            &&& desk.waiting(read_id).len() == own.len()
            &&& taken.operation == own[i].operation
            &&& taken.durable == own[i].durable
            &&& taken.replies == desk.waiters.filter(
                |w: Waiter|
                    w.place == (Place::Candidate { read_id, operation: own[i].operation }),
            ).map_values(|w: Waiter| w.reply)
        }),
{
    lemma_kept_candidates(desk.candidates, read_id);
    let own = desk.candidates.filter(|c: Candidate| c.read_id == read_id);
    lemma_kept_waiters(
        desk.waiters,
        Place::Candidate { read_id, operation: own[i].operation },
    );
}

/// A new operation is attached where the same is in progress, conflicts with another that has not
/// ended, be it in progress or on record, and is reserved otherwise. Only an attachment changes the
/// desk.
pub proof fn law_new_operation_is_reserved(
    desk: DeskState,
    now: u64,
    group_id: GroupId,
    operation: AcceptedOperation,
    replies: Seq<u64>,
    recorded: DurableOperationState,
)
    requires
        desk.takes(now),
    ensures
        ({
            let key = pair_key(group_id, operation.client_id());
            let busy = desk.operations.contains_key(key);
            let same = busy && desk.pending[desk.operations[key]].operation == Some(operation);
            let (after, step) = desk.proceed(now, group_id, operation, replies, recorded);
            &&& step == ProceedStep::Attached <==> same
            &&& step == ProceedStep::Conflict <==> !same && (busy || recorded
                is ConflictingOutstanding || recorded is ConflictingTerminal)
            &&& step == ProceedStep::Reserve <==> !busy && !(recorded is ConflictingOutstanding)
                && !(recorded is ConflictingTerminal)
            &&& !same ==> after == desk
            &&& same ==> {
                let id = desk.operations[key];
                &&& after.pending[id].deadline matches Some(deadline) && deadline == now
                    + desk.timeout
                &&& after.waiters.len() == desk.waiters.len() + replies.len()
                &&& forall|i: int|
                    0 <= i < replies.len() ==> #[trigger] after.waiters[desk.waiters.len() + i] == (
                    Waiter { reply: replies[i], place: Place::Proposal { id } })
                &&& forall|i: int|
                    0 <= i < desk.waiters.len() ==> #[trigger] after.waiters[i] == desk.waiters[i]
                &&& after.operations == desk.operations
            }
        }),
{
}

/// An accepted proposal is in progress under the identity that was next: with its clients, with its
/// time from now on, as its client's operation, and waiting for no retry.
pub proof fn law_accepted_operation_is_in_progress(
    desk: DeskState,
    now: u64,
    group_id: GroupId,
    operation: Option<AcceptedOperation>,
    replies: Seq<u64>,
)
    requires
        desk.takes(now),
        desk.next_proposal < u64::MAX,
    ensures
        ({
            let id = desk.next_proposal;
            let after = desk.accept(now, group_id, operation, replies);
            &&& after.next_proposal == id + 1
            &&& after.pending == desk.pending.insert(
                id,
                Pending {
                    group_id,
                    operation,
                    deadline: Some((now + desk.timeout) as u64),
                    recovered: false,
                },
            )
            &&& after.waiters.len() == desk.waiters.len() + replies.len()
            &&& forall|i: int|
                0 <= i < desk.waiters.len() ==> #[trigger] after.waiters[i] == desk.waiters[i]
            &&& forall|i: int|
                0 <= i < replies.len() ==> #[trigger] after.waiters[desk.waiters.len() + i] == (
                Waiter { reply: replies[i], place: Place::Proposal { id } })
            &&& operation matches Some(asked) ==> {
                let key = pair_key(group_id, asked.client_id());
                &&& after.operations == desk.operations.insert(key, id)
                &&& !after.deferred.contains_key(key)
                &&& desk.client_admitted < u64::MAX ==> after.client_admitted
                    == desk.client_admitted + 1
            }
            &&& operation is None ==> after.operations == desk.operations && after.deferred
                == desk.deferred && after.client_admitted == desk.client_admitted
            &&& after.admissions == desk.admissions
            &&& after.reads == desk.reads
            &&& after.candidates == desk.candidates
            &&& after.next_read == desk.next_read
        }),
{
}

/// An operation that ended is out of progress with its clients, and its client may ask for another.
/// Where the outcome stayed open, a recovered operation is proposed again after the delay, and no other.
pub proof fn law_ended_operation_is_forgotten(desk: DeskState, now: u64, id: u64)
    requires
        desk.takes(now),
        desk.pending.contains_key(id),
    ensures
        ({
            let pending = desk.pending[id];
            let taken = desk.take(id);
            let open = desk.take_open(now, id);
            &&& taken.pending == desk.pending.remove(id)
            &&& open.pending == desk.pending.remove(id)
            &&& taken.waiters == desk.waiters.filter(
                |w: Waiter| w.place != (Place::Proposal { id }),
            )
            &&& open.waiters == taken.waiters
            &&& pending.operation is None ==> taken.operations == desk.operations && open == taken
                && taken.deferred == desk.deferred
            &&& pending.operation matches Some(operation) ==> {
                let key = pair_key(pending.group_id, operation.client_id());
                &&& taken.operations == desk.operations.remove(key)
                &&& open.operations == taken.operations
                &&& taken.deferred == desk.deferred.remove(key)
                &&& !pending.recovered ==> open == taken
                &&& pending.recovered ==> {
                    &&& open.deferred.contains_key(key)
                    &&& open.deferred[key] == now + 2000
                    &&& open.deferred.remove(key) == taken.deferred
                }
            }
            &&& taken.candidates == desk.candidates
            &&& taken.admissions == desk.admissions
        }),
{
    lemma_kept_waiters(desk.waiters, Place::Proposal { id });
    let pending = desk.pending[id];
    if pending.operation is Some {
        let key = pair_key(pending.group_id, pending.operation->0.client_id());
        assert(desk.take_open(now, id).deferred.remove(key) =~= desk.take(id).deferred);
    }
}

/// An operation or a barrier is overdue once its deadline is reached. The clients of an overdue
/// operation leave and are not told again, and the operation itself stays in progress.
pub proof fn law_overdue_clients_leave(desk: DeskState, now: u64, id: u64, read: u64)
    ensures
        desk.overdue(now, id) <==> desk.pending.contains_key(id) && (desk.pending[id].deadline
            matches Some(deadline) && deadline <= now),
        desk.overdue_read(now, read) <==> desk.admissions.contains_key(read)
            && desk.admissions[read].deadline <= now,
        desk.pending.contains_key(id) ==> {
            let after = desk.expire(id);
            &&& after.pending.dom() == desk.pending.dom()
            &&& after.pending[id].deadline is None
            &&& after.pending[id].operation == desk.pending[id].operation
            &&& after.pending[id].group_id == desk.pending[id].group_id
            &&& after.pending[id].recovered == desk.pending[id].recovered
            &&& after.operations == desk.operations
            &&& after.waiters == desk.waiters.filter(
                |w: Waiter| w.place != (Place::Proposal { id }),
            )
            &&& !after.overdue(now, id)
        },
{
    lemma_kept_waiters(desk.waiters, Place::Proposal { id });
    if desk.pending.contains_key(id) {
        assert(desk.expire(id).pending.dom() =~= desk.pending.dom());
    }
}

/// A restart owes each recorded operation that is not in progress: a failure where its group is
/// poisoned, with an open outcome if it may have entered the driver; a failure where it was queued and
/// its group drains; and a proposal otherwise, as soon as there is a driver and no retry is pending.
pub proof fn law_recorded_operations_are_recovered(
    desk: DeskState,
    now: u64,
    work: OutstandingWork,
)
    ensures
        ({
            let key = pair_key(work.group_id, work.operation.client_id());
            let step = desk.recovery(now, work);
            let idle = !desk.operations.contains_key(key);
            let due = !desk.deferred.contains_key(key) || desk.deferred[key] <= now;
            let stranded = work.lifecycle == GroupLifecycle::Draining && work.phase
                == OutstandingPhase::Queued;
            &&& !idle ==> step == RecoveryStep::Leave
            &&& idle && work.poisoned && work.phase == OutstandingPhase::Queued ==> step == (
            RecoveryStep::Fail { failure: TerminalFailure::GroupPoisoned })
            &&& idle && work.poisoned && work.phase == OutstandingPhase::EnteredDriver ==> step == (
            RecoveryStep::Fail { failure: TerminalFailure::GroupPoisonedUnknown })
            &&& idle && !work.poisoned && stranded ==> step == (RecoveryStep::Fail {
                failure: TerminalFailure::ProcessRestarted,
            })
            &&& idle && !work.poisoned && !stranded ==> {
                &&& step == RecoveryStep::Propose <==> work.driver && due
                &&& step == RecoveryStep::Leave <==> !work.driver || !due
            }
        }),
{
}

/// A recovered operation that the host takes is in progress under the next identity, without clients or
/// a deadline; one that it refuses is counted and tried again after the delay.
pub proof fn law_recovery_is_retried(
    desk: DeskState,
    now: u64,
    group_id: GroupId,
    operation: AcceptedOperation,
)
    requires
        desk.takes(now),
        desk.next_proposal < u64::MAX,
    ensures
        ({
            let key = pair_key(group_id, operation.client_id());
            let id = desk.next_proposal;
            let taken = desk.accept_recovered(group_id, operation);
            let refused = desk.refuse_recovered(now, group_id, operation);
            &&& taken.next_proposal == id + 1
            &&& taken.pending == desk.pending.insert(
                id,
                Pending { group_id, operation: Some(operation), deadline: None, recovered: true },
            )
            &&& taken.operations == desk.operations.insert(key, id)
            &&& taken.deferred == desk.deferred.remove(key)
            &&& taken.waiters == desk.waiters
            &&& taken.client_admitted == desk.client_admitted
            &&& refused.pending == desk.pending
            &&& refused.operations == desk.operations
            &&& refused.next_proposal == desk.next_proposal
            &&& refused.deferred.contains_key(key)
            &&& refused.deferred[key] == now + 2000
            &&& forall|other: u64| other != key ==> (#[trigger] refused.deferred.contains_key(other)
                == desk.deferred.contains_key(other)) && refused.deferred[other]
                == desk.deferred[other]
            &&& desk.recovery_refused < u64::MAX ==> refused.recovery_refused
                == desk.recovery_refused + 1
        }),
{
}

/// Resuming recovery makes every retry due, and nothing else. A retry is kept exactly as long as the
/// record holds an operation of its client that did not fail.
pub proof fn law_retries_follow_the_record(desk: DeskState, now: u64, work: Seq<OutstandingWork>)
    ensures
        ({
            let resumed = desk.resume(now);
            let kept = desk.retain_deferred(work);
            &&& resumed.deferred.dom() == desk.deferred.dom()
            &&& forall|key: u64| #[trigger]
                resumed.deferred.contains_key(key) ==> resumed.deferred[key] == now
            &&& resumed.pending == desk.pending
            &&& resumed.waiters == desk.waiters
            &&& kept.pending == desk.pending
            &&& kept.waiters == desk.waiters
            &&& forall|key: u64| #[trigger]
                kept.deferred.contains_key(key) <==> desk.deferred.contains_key(key) && exists|
                    i: int,
                |
                    0 <= i < work.len() && pair_key(
                        (#[trigger] work[i]).group_id,
                        work[i].operation.client_id(),
                    ) == key && !(desk.recovery(now, work[i]) is Fail)
            &&& forall|key: u64| #[trigger]
                kept.deferred.contains_key(key) ==> kept.deferred[key] == desk.deferred[key]
        }),
{
    assert(desk.resume(now).deferred.dom() =~= desk.deferred.dom());
    let kept = desk.retain_deferred(work);
    assert forall|key: u64| #[trigger]
        kept.deferred.contains_key(key) <==> desk.deferred.contains_key(key) && exists|i: int|
            0 <= i < work.len() && pair_key(
                (#[trigger] work[i]).group_id,
                work[i].operation.client_id(),
            ) == key && !(desk.recovery(now, work[i]) is Fail) by {
        if desk.deferred.contains_key(key) {
            if desk.remains_recorded(work, key) {
                let i = choose|i: int| #[trigger] desk.records(work, key, i);
                assert(work[i] == work[i]);
            }
            if exists|i: int|
                0 <= i < work.len() && pair_key(
                    (#[trigger] work[i]).group_id,
                    work[i].operation.client_id(),
                ) == key && !(desk.recovery(now, work[i]) is Fail) {
                let i = choose|i: int|
                    0 <= i < work.len() && pair_key(
                        (#[trigger] work[i]).group_id,
                        work[i].operation.client_id(),
                    ) == key && !(desk.recovery(now, work[i]) is Fail);
                assert(desk.records(work, key, i));
            }
        }
    }
}

} // verus!
