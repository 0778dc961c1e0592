//! What the client desk holds, and how every event changes it.

use vstd::prelude::*;

use crate::adapter::state_machine::{
    CounterAdmissionDecision, CounterApplyRejection, ReplicatedCounterCommand,
};
use crate::node::engine::lifecycle::{record_refusal, serving_refusal, GroupFacts};
use crate::node::record::{OutstandingPhase, TerminalFailure};
use crate::node::render::{
    apply_rejection_text, counter_result_text, terminal_failure_text, Refusal,
};
use crate::types::{
    ClientId, CounterCommand, CounterResult, GroupId, GroupIncarnation, GroupLifecycle,
    RequestIdentity, SessionEpoch, WorkClass,
};

verus! {

/// Delay before a refused recovery is tried again, in milliseconds.
pub const RECOVERY_RETRY_DELAY_MS: u64 = 2_000;

/// Client operation that the node takes responsibility for.
#[derive(Clone, Copy, Debug, Eq, PartialEq, Structural)]
pub enum AcceptedOperation {
    /// Opens a session.
    OpenSession {
        /// The client.
        client_id: ClientId,
        /// Epoch of the session.
        epoch: SessionEpoch,
    },
    /// Runs a counter command.
    Counter {
        /// Identity of the request.
        request: RequestIdentity,
        /// The command.
        command: CounterCommand,
    },
}

impl AcceptedOperation {
    /// Client that asked for the operation.
    #[verifier::allow_in_spec]
    pub fn client_id(self) -> ClientId
        returns
            (match self {
                AcceptedOperation::OpenSession { client_id, .. } => client_id,
                AcceptedOperation::Counter { request, .. } => request.client_id,
            }),
    {
        match self {
            AcceptedOperation::OpenSession { client_id, .. } => client_id,
            AcceptedOperation::Counter { request, .. } => request.client_id,
        }
    }

    /// Command that is replicated for the operation.
    #[verifier::allow_in_spec]
    pub fn replicated_command(self) -> ReplicatedCounterCommand
        returns
            (match self {
                AcceptedOperation::OpenSession { client_id, epoch } => {
                    ReplicatedCounterCommand::OpenSession { client_id, epoch }
                },
                AcceptedOperation::Counter { request, command } => {
                    ReplicatedCounterCommand::Counter { request, command }
                },
            }),
    {
        match self {
            AcceptedOperation::OpenSession { client_id, epoch } => {
                ReplicatedCounterCommand::OpenSession { client_id, epoch }
            },
            AcceptedOperation::Counter { request, command } => ReplicatedCounterCommand::Counter {
                request,
                command,
            },
        }
    }

    /// Class that the operation is scheduled in.
    #[verifier::allow_in_spec]
    pub fn class(self) -> WorkClass
        returns
            (match self {
                AcceptedOperation::OpenSession { .. } => WorkClass::Control,
                AcceptedOperation::Counter { .. } => WorkClass::Command,
            }),
    {
        match self {
            AcceptedOperation::OpenSession { .. } => WorkClass::Control,
            AcceptedOperation::Counter { .. } => WorkClass::Command,
        }
    }
}

/// What the group's record says of an operation.
#[derive(Clone, Copy, Debug, Eq, PartialEq, Structural)]
pub enum DurableOperationState {
    /// It failed for good.
    ExactTerminal {
        /// How.
        failure: TerminalFailure,
    },
    /// Another operation of the client failed for good.
    ConflictingTerminal,
    /// It is recorded as outstanding.
    ExactOutstanding {
        /// How far it came.
        phase: OutstandingPhase,
    },
    /// Another operation of the client is recorded as outstanding.
    ConflictingOutstanding,
    /// Nothing.
    Absent,
}

/// An operation that the managed host accepted.
#[derive(Clone, Copy, Debug, Eq, PartialEq, Structural)]
pub struct Pending {
    /// Its group.
    pub group_id: GroupId,
    /// The operation, unless it is an injected fault.
    pub operation: Option<AcceptedOperation>,
    /// When its clients are told that the outcome is unknown.
    pub deadline: Option<u64>,
    /// It was found in the record after a restart.
    pub recovered: bool,
}

/// An admission barrier in progress.
#[derive(Clone, Copy, Debug, Eq, PartialEq, Structural)]
pub struct Admission {
    /// Its group.
    pub group_id: GroupId,
    /// The group's incarnation.
    pub incarnation: GroupIncarnation,
    /// Client whose operations wait.
    pub client_id: ClientId,
    /// When its clients are told that nothing was committed.
    pub deadline: u64,
}

/// An operation that waits for an admission barrier.
#[derive(Clone, Copy, Debug, Eq, PartialEq, Structural)]
pub struct Candidate {
    /// The barrier.
    pub read_id: u64,
    /// The operation.
    pub operation: AcceptedOperation,
    /// The record already holds the operation.
    pub durable: bool,
}

/// What a client waits for.
#[derive(Clone, Copy, Debug, Eq, PartialEq, Structural)]
pub enum Place {
    /// A proposal.
    Proposal {
        /// The proposal.
        id: u64,
    },
    /// An operation that waits for an admission barrier.
    Candidate {
        /// The barrier.
        read_id: u64,
        /// The operation.
        operation: AcceptedOperation,
    },
}

/// A client that waits for an answer.
#[derive(Clone, Copy, Debug, Eq, PartialEq, Structural)]
pub struct Waiter {
    /// Where its answer goes.
    pub reply: u64,
    /// What it waits for.
    pub place: Place,
}

/// Answer to an operation that does not start a barrier.
#[derive(Clone, Copy, Debug, Eq, PartialEq, Structural)]
pub enum AdmissionAnswer {
    /// The group refuses it.
    Refused {
        /// Why.
        refusal: Refusal,
    },
    /// The client number is out of range.
    ClientOutOfRange,
    /// It failed for good before.
    Terminal {
        /// How.
        failure: TerminalFailure,
    },
    /// Another operation of the client has not ended.
    Conflicting,
    /// It was accepted before, and its outcome is open.
    RemainsDurable,
    /// No barrier identity is left.
    ReadsExhausted,
    /// The session is open already.
    SessionAlreadyOpen,
    /// The request completed before.
    Replay {
        /// Its result.
        result: CounterResult,
    },
    /// The state machine refuses it.
    Rejected {
        /// Why.
        rejection: CounterApplyRejection,
    },
}

impl AdmissionAnswer {
    /// Text of the answer.
    pub open(crate) spec fn text(self) -> Seq<char> {
        match self {
            AdmissionAnswer::Refused { refusal } => refusal.text(),
            AdmissionAnswer::ClientOutOfRange => "ERR CLIENT_OUT_OF_RANGE"@,
            AdmissionAnswer::Terminal { failure } => terminal_failure_text(failure),
            AdmissionAnswer::Conflicting => "ERR CONFLICTING_OUTSTANDING"@,
            AdmissionAnswer::RemainsDurable => "ERR UNKNOWN accepted operation remains durable"@,
            AdmissionAnswer::ReadsExhausted => "ERR READ_ID_EXHAUSTED"@,
            AdmissionAnswer::SessionAlreadyOpen => "OK SESSION already_open"@,
            AdmissionAnswer::Replay { result } => "OK REPLAY "@ + counter_result_text(result),
            AdmissionAnswer::Rejected { rejection } => apply_rejection_text(rejection),
        }
    }
}

/// What becomes of an operation that a client asks for.
#[derive(Clone, Copy, Debug, Eq, PartialEq, Structural)]
pub enum AdmissionStep {
    /// It is answered.
    Answer {
        /// The answer.
        answer: AdmissionAnswer,
    },
    /// The client waits for the same operation, which is already in progress, or for a barrier of
    /// the same client.
    Attached,
    /// A barrier starts.
    Barrier {
        /// Its identity.
        read_id: u64,
    },
}

/// What becomes of an operation once its barrier is granted.
#[derive(Clone, Copy, Debug, Eq, PartialEq, Structural)]
pub enum CandidateAction {
    /// It is answered, after its completion is recorded where that is owed.
    Answer {
        /// Its completion is recorded first.
        reconcile: bool,
        /// The answer.
        answer: AdmissionAnswer,
    },
    /// It is new.
    Proceed,
}

/// What becomes of a new operation.
#[derive(Clone, Copy, Debug, Eq, PartialEq, Structural)]
pub enum ProceedStep {
    /// Its clients wait for the same operation, which is in progress.
    Attached,
    /// Another operation of the client has not ended.
    Conflict,
    /// It is reserved in the record.
    Reserve,
}

/// What happens to the group's record when an operation ends.
#[derive(Clone, Copy, Debug, Eq, PartialEq, Structural)]
pub enum RecordAction {
    /// Nothing.
    Nothing,
    /// The reservation is cancelled.
    Cancel {
        /// The operation.
        operation: AcceptedOperation,
    },
    /// The reservation fails for good.
    Fail {
        /// The operation.
        operation: AcceptedOperation,
        /// How.
        failure: TerminalFailure,
    },
}

/// An operation that the group's record holds.
#[derive(Clone, Copy, Debug, Eq, PartialEq, Structural)]
pub struct OutstandingWork {
    /// Its group.
    pub group_id: GroupId,
    /// The group's lifecycle.
    pub lifecycle: GroupLifecycle,
    /// The group's record says that it is poisoned.
    pub poisoned: bool,
    /// The group has a driver.
    pub driver: bool,
    /// The operation.
    pub operation: AcceptedOperation,
    /// How far it came.
    pub phase: OutstandingPhase,
}

/// What a restart owes to an operation that the record holds.
#[derive(Clone, Copy, Debug, Eq, PartialEq, Structural)]
pub enum RecoveryStep {
    /// It is in progress, or waits for a retry, or its group has no driver.
    Leave,
    /// It fails for good.
    Fail {
        /// How.
        failure: TerminalFailure,
    },
    /// It is proposed again.
    Propose,
}

/// Number of a client of a group.
pub open(crate) spec fn pair_key(group_id: GroupId, client_id: ClientId) -> u64 {
    (group_id@ * 0x1_0000_0000 + client_id@) as u64
}

/// Different clients have different numbers.
pub proof fn lemma_pair_key(a: GroupId, b: ClientId, c: GroupId, d: ClientId)
    ensures
        pair_key(a, b) == pair_key(c, d) <==> a == c && b == d,
{
}

/// Clients that wait at a place, in the order in which they came.
pub open spec fn replies_at(waiters: Seq<Waiter>, place: Place) -> Seq<u64>
    decreases waiters.len(),
{
    if waiters.len() == 0 {
        Seq::empty()
    } else if waiters.last().place == place {
        replies_at(waiters.drop_last(), place).push(waiters.last().reply)
    } else {
        replies_at(waiters.drop_last(), place)
    }
}

/// Clients that wait elsewhere.
pub open spec fn waiters_besides(waiters: Seq<Waiter>, place: Place) -> Seq<Waiter>
    decreases waiters.len(),
{
    if waiters.len() == 0 {
        Seq::empty()
    } else if waiters.last().place == place {
        waiters_besides(waiters.drop_last(), place)
    } else {
        waiters_besides(waiters.drop_last(), place).push(waiters.last())
    }
}

/// The place belongs to the barrier.
pub open spec fn waits_for_read(place: Place, read_id: u64) -> bool {
    match place {
        Place::Candidate { read_id: read, .. } => read == read_id,
        Place::Proposal { .. } => false,
    }
}

/// Clients that do not wait for a barrier.
pub open spec fn waiters_besides_read(waiters: Seq<Waiter>, read_id: u64) -> Seq<Waiter>
    decreases waiters.len(),
{
    if waiters.len() == 0 {
        Seq::empty()
    } else if waits_for_read(waiters.last().place, read_id) {
        waiters_besides_read(waiters.drop_last(), read_id)
    } else {
        waiters_besides_read(waiters.drop_last(), read_id).push(waiters.last())
    }
}

/// Operations that wait for a barrier, in the order in which they came.
pub open spec fn candidates_of(candidates: Seq<Candidate>, read_id: u64) -> Seq<Candidate>
    decreases candidates.len(),
{
    if candidates.len() == 0 {
        Seq::empty()
    } else if candidates.last().read_id == read_id {
        candidates_of(candidates.drop_last(), read_id).push(candidates.last())
    } else {
        candidates_of(candidates.drop_last(), read_id)
    }
}

/// Operations that wait for another barrier.
pub open spec fn candidates_besides(candidates: Seq<Candidate>, read_id: u64) -> Seq<Candidate>
    decreases candidates.len(),
{
    if candidates.len() == 0 {
        Seq::empty()
    } else if candidates.last().read_id == read_id {
        candidates_besides(candidates.drop_last(), read_id)
    } else {
        candidates_besides(candidates.drop_last(), read_id).push(candidates.last())
    }
}

/// The operation waits for the barrier at `i`.
pub open spec fn stands_at(
    candidates: Seq<Candidate>,
    read_id: u64,
    operation: AcceptedOperation,
    i: int,
) -> bool {
    0 <= i < candidates.len() && candidates[i].read_id == read_id && candidates[i].operation
        == operation
}

/// The operation waits for the barrier.
pub open spec fn stands(
    candidates: Seq<Candidate>,
    read_id: u64,
    operation: AcceptedOperation,
) -> bool {
    exists|i: int| stands_at(candidates, read_id, operation, i)
}

/// Operations with the given one waiting for the barrier: once, and durable as soon as one of its
/// clients found it so.
pub open spec fn with_candidate(
    candidates: Seq<Candidate>,
    read_id: u64,
    operation: AcceptedOperation,
    durable: bool,
) -> Seq<Candidate> {
    if stands(candidates, read_id, operation) {
        let i = first_standing(candidates, read_id, operation, 0);
        candidates.update(
            i,
            Candidate { durable: candidates[i].durable || durable, ..candidates[i] },
        )
    } else {
        candidates.push(Candidate { read_id, operation, durable })
    }
}

/// First place at or after `from` where the operation waits for the barrier.
pub open spec fn first_standing(
    candidates: Seq<Candidate>,
    read_id: u64,
    operation: AcceptedOperation,
    from: int,
) -> int
    decreases candidates.len() - from,
{
    if from >= candidates.len() || stands_at(candidates, read_id, operation, from) {
        from
    } else {
        first_standing(candidates, read_id, operation, from + 1)
    }
}

/// An operation whose barrier ended, with its clients.
#[verifier::ext_equal]
pub struct TakenView {
    /// The operation.
    pub operation: AcceptedOperation,
    /// The record already held the operation.
    pub durable: bool,
    /// Its clients.
    pub replies: Seq<u64>,
}

/// Everything that the desk holds.
#[verifier::ext_equal]
pub struct DeskState {
    /// Time that a client waits, in milliseconds.
    pub timeout: u64,
    /// Clients of a group.
    pub max_sessions: usize,
    /// Accepted operations, by proposal.
    pub pending: Map<u64, Pending>,
    /// Proposal of a client's operation.
    pub operations: Map<u64, u64>,
    /// Barriers in progress.
    pub admissions: Map<u64, Admission>,
    /// Barrier of a client.
    pub reads: Map<u64, u64>,
    /// Operations that wait for barriers.
    pub candidates: Seq<Candidate>,
    /// Clients that wait.
    pub waiters: Seq<Waiter>,
    /// When a client's recorded operation is proposed again.
    pub deferred: Map<u64, u64>,
    /// Identity of the next proposal.
    pub next_proposal: u64,
    /// Identity of the next barrier.
    pub next_read: u64,
    /// Barriers started.
    pub barriers_started: u64,
    /// Client operations accepted.
    pub client_admitted: u64,
    /// Recoveries refused.
    pub recovery_refused: u64,
}

/// Counter that stays at its largest value.
pub open spec fn counted(count: u64) -> u64 {
    if count == u64::MAX {
        count
    } else {
        (count + 1) as u64
    }
}

impl DeskState {
    /// The desk before it has taken anything.
    pub open spec fn initial(timeout: u64, max_sessions: usize) -> Self {
        DeskState {
            timeout,
            max_sessions,
            pending: Map::empty(),
            operations: Map::empty(),
            admissions: Map::empty(),
            reads: Map::empty(),
            candidates: Seq::empty(),
            waiters: Seq::empty(),
            deferred: Map::empty(),
            next_proposal: 1,
            next_read: 1,
            barriers_started: 0,
            client_admitted: 0,
            recovery_refused: 0,
        }
    }

    /// A moment at which a client or a retry can still be given its time.
    pub open spec fn takes(self, now: u64) -> bool {
        now + self.timeout <= u64::MAX && now + RECOVERY_RETRY_DELAY_MS <= u64::MAX
    }

    /// The indexes name what they should, identities are fresh, and nobody waits for nothing.
    pub open(crate) spec fn sound(self) -> bool {
        &&& forall|id: u64| #[trigger]
            self.pending.contains_key(id) ==> {
                &&& id < self.next_proposal
                &&& match self.pending[id].operation {
                    Some(operation) => {
                        let key = pair_key(self.pending[id].group_id, operation.client_id());
                        self.operations.contains_key(key) && self.operations[key] == id
                    },
                    None => true,
                }
            }
        &&& forall|key: u64| #[trigger]
            self.operations.contains_key(key) ==> {
                let id = self.operations[key];
                &&& self.pending.contains_key(id)
                &&& self.pending[id].operation is Some
                &&& key == pair_key(
                    self.pending[id].group_id,
                    self.pending[id].operation->0.client_id(),
                )
            }
        &&& forall|read: u64| #[trigger]
            self.admissions.contains_key(read) ==> {
                let key = pair_key(self.admissions[read].group_id, self.admissions[read].client_id);
                &&& read < self.next_read
                &&& self.reads.contains_key(key)
                &&& self.reads[key] == read
            }
        &&& forall|key: u64| #[trigger]
            self.reads.contains_key(key) ==> {
                let read = self.reads[key];
                &&& self.admissions.contains_key(read)
                &&& key == pair_key(self.admissions[read].group_id, self.admissions[read].client_id)
            }
        &&& forall|i: int|
            0 <= i < self.candidates.len() ==> {
                let candidate = #[trigger] self.candidates[i];
                &&& self.admissions.contains_key(candidate.read_id)
                &&& candidate.operation.client_id() == self.admissions[candidate.read_id].client_id
            }
        &&& forall|i: int, j: int|
            0 <= i < j < self.candidates.len() ==> !(self.candidates[i].read_id
                == self.candidates[j].read_id && self.candidates[i].operation
                == self.candidates[j].operation)
        &&& forall|i: int|
            0 <= i < self.waiters.len() ==> self.attended(#[trigger] self.waiters[i])
    }

    /// What the client waits for is in progress.
    pub open spec fn attended(self, waiter: Waiter) -> bool {
        match waiter.place {
            Place::Proposal { id } => self.pending.contains_key(id),
            Place::Candidate { read_id, operation } => stands(self.candidates, read_id, operation),
        }
    }

    /// Proposal of the same operation, if it is in progress.
    pub open(crate) spec fn same_operation(self, group_id: GroupId, operation: AcceptedOperation) -> Option<
        u64,
    > {
        let key = pair_key(group_id, operation.client_id());
        if self.operations.contains_key(key) && self.pending[self.operations[key]].operation == Some(
            operation,
        ) {
            Some(self.operations[key])
        } else {
            None
        }
    }

    /// Clients join an operation in progress, and are given their time again.
    pub open spec fn join(self, now: u64, id: u64, replies: Seq<u64>) -> DeskState {
        DeskState {
            pending: self.pending.insert(
                id,
                Pending { deadline: Some((now + self.timeout) as u64), ..self.pending[id] },
            ),
            waiters: self.waiters + Seq::new(
                replies.len(),
                |i: int| Waiter { reply: replies[i], place: Place::Proposal { id } },
            ),
            ..self
        }
    }

    /// A client joins a barrier.
    pub open spec fn queue(
        self,
        now: u64,
        read_id: u64,
        operation: AcceptedOperation,
        reply: u64,
        durable: bool,
    ) -> DeskState {
        DeskState {
            admissions: self.admissions.insert(
                read_id,
                Admission {
                    deadline: (now + self.timeout) as u64,
                    ..self.admissions[read_id]
                },
            ),
            candidates: with_candidate(self.candidates, read_id, operation, durable),
            waiters: self.waiters.push(
                Waiter { reply, place: Place::Candidate { read_id, operation } },
            ),
            ..self
        }
    }

    /// A client joins what is in progress, if anything is that it can join.
    pub open(crate) spec fn attach(
        self,
        now: u64,
        group_id: GroupId,
        operation: AcceptedOperation,
        reply: u64,
        durable: bool,
    ) -> Option<DeskState> {
        let key = pair_key(group_id, operation.client_id());
        match self.same_operation(group_id, operation) {
            Some(id) => Some(self.join(now, id, seq![reply])),
            None => if self.reads.contains_key(key) {
                Some(self.queue(now, self.reads[key], operation, reply, durable))
            } else {
                None
            },
        }
    }

    /// A barrier starts.
    pub open(crate) spec fn start(
        self,
        now: u64,
        group_id: GroupId,
        incarnation: GroupIncarnation,
        operation: AcceptedOperation,
        reply: u64,
        durable: bool,
    ) -> DeskState {
        let read_id = self.next_read;
        let client_id = operation.client_id();
        DeskState {
            next_read: (read_id + 1) as u64,
            barriers_started: counted(self.barriers_started),
            reads: self.reads.insert(pair_key(group_id, client_id), read_id),
            admissions: self.admissions.insert(
                read_id,
                Admission {
                    group_id,
                    incarnation,
                    client_id,
                    deadline: (now + self.timeout) as u64,
                },
            ),
            candidates: self.candidates.push(Candidate { read_id, operation, durable }),
            waiters: self.waiters.push(
                Waiter { reply, place: Place::Candidate { read_id, operation } },
            ),
            ..self
        }
    }

    /// What becomes of an operation that a client asks for, and the desk after it.
    pub open(crate) spec fn begin(
        self,
        now: u64,
        facts: Option<GroupFacts>,
        group_id: GroupId,
        incarnation: GroupIncarnation,
        operation: AcceptedOperation,
        reply: u64,
        recorded: DurableOperationState,
    ) -> (DeskState, AdmissionStep) {
        let durable = recorded is ExactOutstanding;
        match record_refusal(facts, incarnation) {
            Some(refusal) => (
                self,
                AdmissionStep::Answer { answer: AdmissionAnswer::Refused { refusal } },
            ),
            None => if operation.client_id()@ >= self.max_sessions {
                (self, AdmissionStep::Answer { answer: AdmissionAnswer::ClientOutOfRange })
            } else if recorded is ExactTerminal {
                (
                    self,
                    AdmissionStep::Answer {
                        answer: AdmissionAnswer::Terminal { failure: recorded->failure },
                    },
                )
            } else if recorded is ConflictingTerminal {
                (self, AdmissionStep::Answer { answer: AdmissionAnswer::Conflicting })
            } else {
                match self.attach(now, group_id, operation, reply, durable) {
                    Some(after) => (after, AdmissionStep::Attached),
                    None => match serving_refusal(facts, incarnation) {
                        Some(refusal) => (
                            self,
                            AdmissionStep::Answer {
                                answer: failed_answer(
                                    durable,
                                    AdmissionAnswer::Refused { refusal },
                                ),
                            },
                        ),
                        None => if self.next_read == u64::MAX {
                            (
                                self,
                                AdmissionStep::Answer {
                                    answer: failed_answer(durable, AdmissionAnswer::ReadsExhausted),
                                },
                            )
                        } else {
                            (
                                self.start(now, group_id, incarnation, operation, reply, durable),
                                AdmissionStep::Barrier { read_id: self.next_read },
                            )
                        },
                    },
                }
            },
        }
    }

    /// Operations that wait for a barrier, with their clients.
    pub open spec fn waiting(self, read_id: u64) -> Seq<TakenView> {
        let candidates = candidates_of(self.candidates, read_id);
        Seq::new(
            candidates.len(),
            |i: int|
                TakenView {
                    operation: candidates[i].operation,
                    durable: candidates[i].durable,
                    replies: replies_at(
                        self.waiters,
                        Place::Candidate { read_id, operation: candidates[i].operation },
                    ),
                },
        )
    }

    /// A barrier ends.
    pub open(crate) spec fn close(self, read_id: u64) -> DeskState {
        if self.admissions.contains_key(read_id) {
            let admission = self.admissions[read_id];
            DeskState {
                admissions: self.admissions.remove(read_id),
                reads: self.reads.remove(pair_key(admission.group_id, admission.client_id)),
                candidates: candidates_besides(self.candidates, read_id),
                waiters: waiters_besides_read(self.waiters, read_id),
                ..self
            }
        } else {
            self
        }
    }

    /// Barriers end, one after the other.
    pub open(crate) spec fn close_all(self, reads: Seq<u64>) -> DeskState
        decreases reads.len(),
    {
        if reads.len() == 0 {
            self
        } else {
            self.close_all(reads.drop_last()).close(reads.last())
        }
    }

    /// What becomes of a new operation, and the desk after it.
    pub open(crate) spec fn proceed(
        self,
        now: u64,
        group_id: GroupId,
        operation: AcceptedOperation,
        replies: Seq<u64>,
        recorded: DurableOperationState,
    ) -> (DeskState, ProceedStep) {
        let key = pair_key(group_id, operation.client_id());
        match self.same_operation(group_id, operation) {
            Some(id) => (self.join(now, id, replies), ProceedStep::Attached),
            None => if self.operations.contains_key(key) || recorded is ConflictingOutstanding
                || recorded is ConflictingTerminal {
                (self, ProceedStep::Conflict)
            } else {
                (self, ProceedStep::Reserve)
            },
        }
    }

    /// The managed host accepted an operation, or an injected fault.
    pub open(crate) spec fn accept(
        self,
        now: u64,
        group_id: GroupId,
        operation: Option<AcceptedOperation>,
        replies: Seq<u64>,
    ) -> DeskState {
        let id = self.next_proposal;
        let accepted = DeskState {
            next_proposal: (id + 1) as u64,
            pending: self.pending.insert(
                id,
                Pending {
                    group_id,
                    operation,
                    deadline: Some((now + self.timeout) as u64),
                    recovered: false,
                },
            ),
            waiters: self.waiters + Seq::new(
                replies.len(),
                |i: int| Waiter { reply: replies[i], place: Place::Proposal { id } },
            ),
            ..self
        };
        match operation {
            None => accepted,
            Some(operation) => {
                let key = pair_key(group_id, operation.client_id());
                DeskState {
                    client_admitted: counted(self.client_admitted),
                    operations: self.operations.insert(key, id),
                    deferred: self.deferred.remove(key),
                    ..accepted
                }
            },
        }
    }

    /// An operation ends: it is no longer in progress, and waits for no retry.
    pub open(crate) spec fn take(self, id: u64) -> DeskState {
        if self.pending.contains_key(id) {
            let taken = DeskState {
                pending: self.pending.remove(id),
                waiters: waiters_besides(self.waiters, Place::Proposal { id }),
                ..self
            };
            match self.pending[id].operation {
                None => taken,
                Some(operation) => {
                    let key = pair_key(self.pending[id].group_id, operation.client_id());
                    DeskState {
                        operations: self.operations.remove(key),
                        deferred: self.deferred.remove(key),
                        ..taken
                    }
                },
            }
        } else {
            self
        }
    }

    /// Operations end, one after the other.
    pub open(crate) spec fn take_all(self, ids: Seq<u64>) -> DeskState
        decreases ids.len(),
    {
        if ids.len() == 0 {
            self
        } else {
            self.take_all(ids.drop_last()).take(ids.last())
        }
    }

    /// An operation ends without a definite outcome: a recovered one is proposed again later.
    pub open(crate) spec fn take_open(self, now: u64, id: u64) -> DeskState {
        let taken = self.take(id);
        if self.pending.contains_key(id) && self.pending[id].recovered
            && self.pending[id].operation is Some {
            let key = pair_key(
                self.pending[id].group_id,
                self.pending[id].operation->0.client_id(),
            );
            DeskState {
                deferred: taken.deferred.insert(key, (now + RECOVERY_RETRY_DELAY_MS) as u64),
                ..taken
            }
        } else {
            taken
        }
    }

    /// The clients of an operation were told that its outcome is unknown.
    pub open spec fn expire(self, id: u64) -> DeskState {
        DeskState {
            pending: self.pending.insert(id, Pending { deadline: None, ..self.pending[id] }),
            waiters: waiters_besides(self.waiters, Place::Proposal { id }),
            ..self
        }
    }

    /// The clients of operations were told so, one after the other.
    pub open spec fn expire_all(self, ids: Seq<u64>) -> DeskState
        decreases ids.len(),
    {
        if ids.len() == 0 {
            self
        } else {
            self.expire_all(ids.drop_last()).expire(ids.last())
        }
    }

    /// The operation's time is over.
    pub open spec fn overdue(self, now: u64, id: u64) -> bool {
        &&& self.pending.contains_key(id)
        &&& self.pending[id].deadline is Some
        &&& now >= self.pending[id].deadline->0
    }

    /// The barrier's time is over.
    pub open spec fn overdue_read(self, now: u64, read: u64) -> bool {
        self.admissions.contains_key(read) && now >= self.admissions[read].deadline
    }

    /// How a recorded operation that is not in progress failed, if it did.
    pub open(crate) spec fn interrupted(self, work: OutstandingWork) -> Option<TerminalFailure> {
        if self.operations.contains_key(pair_key(work.group_id, work.operation.client_id())) {
            None
        } else if work.poisoned {
            Some(
                match work.phase {
                    OutstandingPhase::Queued => TerminalFailure::GroupPoisoned,
                    OutstandingPhase::EnteredDriver => TerminalFailure::GroupPoisonedUnknown,
                },
            )
        } else if work.lifecycle == GroupLifecycle::Draining && work.phase
            == OutstandingPhase::Queued {
            Some(TerminalFailure::ProcessRestarted)
        } else {
            None
        }
    }

    /// What is owed to a recorded operation.
    pub open(crate) spec fn recovery(self, now: u64, work: OutstandingWork) -> RecoveryStep {
        let key = pair_key(work.group_id, work.operation.client_id());
        match self.interrupted(work) {
            Some(failure) => RecoveryStep::Fail { failure },
            None => if work.driver && !self.operations.contains_key(key) && (
            !self.deferred.contains_key(key) || now >= self.deferred[key]) {
                RecoveryStep::Propose
            } else {
                RecoveryStep::Leave
            },
        }
    }

    /// Only operations that the record still holds wait for a retry.
    pub open(crate) spec fn retain_deferred(self, work: Seq<OutstandingWork>) -> DeskState {
        DeskState {
            deferred: Map::new(
                |key: u64| self.deferred.contains_key(key) && self.remains_recorded(work, key),
                |key: u64| self.deferred[key],
            ),
            ..self
        }
    }

    /// The record still holds an operation of the client after the failures were recorded.
    pub open(crate) spec fn remains_recorded(self, work: Seq<OutstandingWork>, key: u64) -> bool {
        exists|i: int| #[trigger] self.records(work, key, i)
    }

    /// The operation at `i` is the client's, and did not fail.
    pub open(crate) spec fn records(self, work: Seq<OutstandingWork>, key: u64, i: int) -> bool {
        &&& 0 <= i < work.len()
        &&& pair_key(work[i].group_id, work[i].operation.client_id()) == key
        &&& self.interrupted(work[i]) is None
    }

    /// The managed host accepted a recorded operation again.
    pub open(crate) spec fn accept_recovered(
        self,
        group_id: GroupId,
        operation: AcceptedOperation,
    ) -> DeskState {
        let id = self.next_proposal;
        let key = pair_key(group_id, operation.client_id());
        DeskState {
            next_proposal: (id + 1) as u64,
            pending: self.pending.insert(
                id,
                Pending { group_id, operation: Some(operation), deadline: None, recovered: true },
            ),
            operations: self.operations.insert(key, id),
            deferred: self.deferred.remove(key),
            ..self
        }
    }

    /// The managed host refused a recorded operation.
    pub open(crate) spec fn refuse_recovered(
        self,
        now: u64,
        group_id: GroupId,
        operation: AcceptedOperation,
    ) -> DeskState {
        let key = pair_key(group_id, operation.client_id());
        DeskState {
            recovery_refused: counted(self.recovery_refused),
            deferred: self.deferred.insert(key, (now + RECOVERY_RETRY_DELAY_MS) as u64),
            ..self
        }
    }

    /// Every retry is due.
    pub open spec fn resume(self, now: u64) -> DeskState {
        DeskState {
            deferred: Map::new(|key: u64| self.deferred.contains_key(key), |key: u64| now),
            ..self
        }
    }
}

/// Answer to an operation whose barrier did not start or end well: what the record holds is not
/// known to have failed.
pub open spec fn failed_answer(durable: bool, answer: AdmissionAnswer) -> AdmissionAnswer {
    if durable {
        AdmissionAnswer::RemainsDurable
    } else {
        answer
    }
}

/// What becomes of an operation once its barrier is granted.
pub open(crate) spec fn granted_action(
    refusal: Option<Refusal>,
    decision: CounterAdmissionDecision,
    durable: bool,
) -> CandidateAction {
    match refusal {
        Some(refusal) => CandidateAction::Answer {
            reconcile: false,
            answer: failed_answer(durable, AdmissionAnswer::Refused { refusal }),
        },
        None => match decision {
            CounterAdmissionDecision::SessionAlreadyOpen => CandidateAction::Answer {
                reconcile: durable,
                answer: AdmissionAnswer::SessionAlreadyOpen,
            },
            CounterAdmissionDecision::CounterReplay(result) => CandidateAction::Answer {
                reconcile: durable,
                answer: AdmissionAnswer::Replay { result },
            },
            CounterAdmissionDecision::Rejected(rejection) => CandidateAction::Answer {
                reconcile: false,
                answer: AdmissionAnswer::Rejected { rejection },
            },
            CounterAdmissionDecision::Proceed => CandidateAction::Proceed,
        },
    }
}

} // verus!
