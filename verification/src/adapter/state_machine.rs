//! Replicated counter with bounded session state and snapshot support.

use rafter::{InMemorySnapshotChunkSource, RaftSnapshot};
use vstd::prelude::*;

use crate::adapter::codec::{
    command_bytes, decode_command, decode_snapshot, decoded_command, decoded_snapshot,
    encode_command, encode_snapshot, law_snapshots_round_trip, snapshot_bytes,
};
use crate::adapter::payloads::{
    copy_payloads, declared_length, held_payload, held_payloads, hold_payload, no_payloads,
    transfer_of,
};
use crate::adapter::replica::{
    is_slot, lemma_applied_wf, lemma_slot_found, lemma_slots_below, slot_of, slots_below, Replica,
};
use crate::types::{
    apply_counter_command, ClientId, CounterCommand, CounterResult, RequestFingerprint,
    RequestIdentity, Sequence, SessionEpoch,
};

verus! {

/// Replicated counter command owned by the consumer.
#[derive(Clone, Copy, Debug, Eq, PartialEq, Structural)]
pub enum ReplicatedCounterCommand {
    /// Establishes or advances a replicated client session.
    OpenSession {
        /// Bounded client slot.
        client_id: ClientId,
        /// Requested session generation.
        epoch: SessionEpoch,
    },
    /// Applies or replays one counter request.
    Counter {
        /// Exact request identity.
        request: RequestIdentity,
        /// Counter operation.
        command: CounterCommand,
    },
    /// An irrecoverable consumer apply fault, which poisons its group.
    Faulty,
    /// The session-capacity error that a corrupt old snapshot or an incompatible writer could
    /// expose.
    CapacityFault,
}

impl ReplicatedCounterCommand {
    /// Every part of the command is a value that can exist.
    pub open spec fn valid(self) -> bool {
        match self {
            ReplicatedCounterCommand::OpenSession { epoch, .. } => epoch.valid(),
            ReplicatedCounterCommand::Counter { request, command } => request.valid()
                && command.valid(),
            _ => true,
        }
    }
}

/// Replicated session outcome.
#[derive(Clone, Copy, Debug, Eq, PartialEq, Structural)]
pub enum SessionApplyResult {
    /// A vacant client slot opened.
    Opened,
    /// The exact epoch was already active.
    AlreadyOpen,
    /// A greater epoch replaced the old session and its completion cache.
    Replaced,
}

/// Refusal reached after a command was already replicated.
#[derive(Clone, Copy, Debug, Eq, PartialEq, Structural)]
pub enum CounterApplyRejection {
    /// The command names a client slot outside the configured range.
    ClientOutOfRange,
    /// The request did not name an open client slot.
    SessionNotOpen,
    /// The request named an older session generation.
    StaleSession {
        /// Active generation.
        current: SessionEpoch,
    },
    /// The request named a generation the slot has not reached.
    FutureSession {
        /// Active generation.
        current: SessionEpoch,
    },
    /// The request fingerprint did not describe its command.
    FingerprintMismatch,
    /// The sequence is older than the cached completion.
    StaleSequence {
        /// Highest completed sequence.
        highest: Sequence,
    },
    /// The sequence skipped the next admissible value.
    SequenceGap {
        /// Next admissible sequence.
        expected: Sequence,
    },
    /// The identity was reused for different command content.
    ConflictingRetry,
}

/// Result emitted by the replicated counter state machine.
#[derive(Clone, Copy, Debug, Eq, PartialEq, Structural)]
pub enum CounterApplyResult {
    /// Session establishment completed.
    Session(SessionApplyResult),
    /// A counter request completed or replayed.
    Counter(CounterResult),
    /// A replicated request was refused without changing counter state.
    Rejected(CounterApplyRejection),
}

/// Authoritative decision made from one quorum-confirmed application view.
#[derive(Clone, Copy, Debug, Eq, PartialEq, Structural)]
pub enum CounterAdmissionDecision {
    /// The operation is new and may proceed to durable reservation.
    Proceed,
    /// The exact session epoch is already open.
    SessionAlreadyOpen,
    /// The exact counter request already completed.
    CounterReplay(CounterResult),
    /// The operation is deterministically refused without admission.
    Rejected(CounterApplyRejection),
}

/// Read-only application state reconstructed from live state or a snapshot.
#[derive(Clone, Debug, Eq, PartialEq)]
pub struct CounterStateView {
    /// Highest applied log index.
    pub applied_index: u64,
    /// Current counter value.
    pub value: i64,
    /// Replicated session slots in client order.
    pub sessions: Vec<CounterSessionView>,
}

/// One replicated session.
#[derive(Clone, Copy, Debug, Eq, PartialEq, Structural)]
pub struct CounterSessionView {
    /// Client slot.
    pub client_id: ClientId,
    /// Active session generation.
    pub epoch: SessionEpoch,
    /// Highest cached completion, when one exists.
    pub completed: Option<CounterCompletedView>,
}

/// One cached request completion.
#[derive(Clone, Copy, Debug, Eq, PartialEq, Structural)]
pub struct CounterCompletedView {
    /// Completed request sequence.
    pub sequence: Sequence,
    /// Exact command bound to the request identity.
    pub command: CounterCommand,
    /// Cached deterministic result.
    pub result: CounterResult,
}

/// One committed log entry handed to the state machine.
#[derive(Clone, Copy, Debug, Eq, PartialEq, Structural)]
pub struct ApplyEntry {
    /// Log index of the entry.
    pub index: u64,
    /// Term of the entry.
    pub term: u64,
    /// Decoded command.
    pub command: ReplicatedCounterCommand,
    /// Identity of the local proposal that carried it, when this node proposed it.
    pub local_proposal_id: Option<u64>,
}

/// What applying one log entry reported.
#[derive(Clone, Copy, Debug, Eq, PartialEq, Structural)]
pub struct ApplyResult {
    /// Log index of the entry.
    pub index: u64,
    /// Term of the entry.
    pub term: u64,
    /// Deterministic result.
    pub result: CounterApplyResult,
    /// Identity of the local proposal that carried it, when this node proposed it.
    pub local_proposal_id: Option<u64>,
}

/// One application snapshot. A snapshot a peer transferred carries only the identity of its
/// transfer; its payload is the one registered under that identity.
#[derive(Clone, Debug, Eq, PartialEq)]
pub struct ApplicationSnapshot {
    /// Log index the snapshot was taken at.
    pub applied_index: u64,
    /// Encoded payload, or nothing when the payload was promoted separately.
    pub payload: Vec<u8>,
    /// Transfer that promoted the payload.
    pub transfer_id: Option<u64>,
}

/// Bounded codec or state-machine failure.
#[derive(Clone, Copy, Debug, Eq, PartialEq, Structural)]
pub enum CounterStateMachineError {
    /// A command exceeds its bound.
    CommandTooLarge,
    /// A command is not one that was encoded.
    MalformedCommand,
    /// A snapshot is not one that was encoded.
    MalformedSnapshot,
    /// The schema version is not this one.
    UnsupportedVersion,
    /// More sessions than the bound admits.
    SessionCapacity,
    /// A snapshot exceeds its bound.
    SnapshotTooLarge,
    /// A snapshot's index is not the one its payload states.
    SnapshotIndexMismatch,
    /// A promoted payload is not as long as its descriptor states.
    SnapshotPayloadLengthMismatch,
    /// A snapshot names a transfer no payload was promoted for.
    PromotedSnapshotMissing,
    /// A read asked for more than has been applied.
    ReadBarrierNotReached,
    /// A consumer fault.
    InjectedFault,
}

impl CounterStateMachineError {
    /// Description of the failure.
    pub open spec fn detail(self) -> Seq<char> {
        match self {
            CounterStateMachineError::CommandTooLarge => "replicated command exceeds its bound"@,
            CounterStateMachineError::MalformedCommand => "replicated command is malformed"@,
            CounterStateMachineError::MalformedSnapshot => "counter snapshot is malformed"@,
            CounterStateMachineError::UnsupportedVersion =>
                "counter schema version is unsupported"@,
            CounterStateMachineError::SessionCapacity =>
                "replicated session capacity is exhausted"@,
            CounterStateMachineError::SnapshotTooLarge => "counter snapshot exceeds its bound"@,
            CounterStateMachineError::SnapshotIndexMismatch =>
                "counter snapshot index does not match its payload"@,
            CounterStateMachineError::SnapshotPayloadLengthMismatch =>
                "promoted counter snapshot payload length contradicts its descriptor"@,
            CounterStateMachineError::PromotedSnapshotMissing =>
                "promoted counter snapshot payload is missing"@,
            CounterStateMachineError::ReadBarrierNotReached =>
                "counter read barrier has not been reached"@,
            CounterStateMachineError::InjectedFault =>
                "consumer fault poisoned the counter group"@,
        }
    }

    /// Returns the operator-facing description.
    pub fn message(self) -> (r: &'static str)
        ensures
            r@ == self.detail(),
    {
        match self {
            CounterStateMachineError::CommandTooLarge => "replicated command exceeds its bound",
            CounterStateMachineError::MalformedCommand => "replicated command is malformed",
            CounterStateMachineError::MalformedSnapshot => "counter snapshot is malformed",
            CounterStateMachineError::UnsupportedVersion => "counter schema version is unsupported",
            CounterStateMachineError::SessionCapacity => "replicated session capacity is exhausted",
            CounterStateMachineError::SnapshotTooLarge => "counter snapshot exceeds its bound",
            CounterStateMachineError::SnapshotIndexMismatch =>
                "counter snapshot index does not match its payload",
            CounterStateMachineError::SnapshotPayloadLengthMismatch =>
                "promoted counter snapshot payload length contradicts its descriptor",
            CounterStateMachineError::PromotedSnapshotMissing =>
                "promoted counter snapshot payload is missing",
            CounterStateMachineError::ReadBarrierNotReached =>
                "counter read barrier has not been reached",
            CounterStateMachineError::InjectedFault => "consumer fault poisoned the counter group",
        }
    }
}

/// Small replicated counter with bounded session state and snapshot support.
#[derive(Debug)]
pub struct CounterStateMachine {
    applied_index: u64,
    value: i64,
    max_sessions: usize,
    sessions: Vec<CounterSessionView>,
    promoted_payloads: InMemorySnapshotChunkSource,
}

impl CounterStateMachine {
    /// The snapshot-relevant state.
    pub closed spec fn replica(self) -> Replica {
        Replica {
            applied_index: self.applied_index,
            value: self.value,
            max_sessions: self.max_sessions as nat,
            sessions: self.sessions@,
        }
    }

    /// Payloads promoted so far, by transfer.
    pub closed spec fn promoted(self) -> Map<u64, Seq<u8>> {
        held_payloads(self.promoted_payloads)
    }

    /// The state machine holds a bounded number of valid sessions, in order.
    pub open spec fn wf(self) -> bool {
        self.replica().wf()
    }

    /// Creates an empty state machine with a fixed replicated-session bound, which has to be
    /// nonzero and fit the bounded snapshot representation.
    pub fn new(max_sessions: usize) -> (r: Self)
        requires
            0 < max_sessions <= 1724,
        ensures
            r.replica() == Replica::initial(max_sessions as nat),
            r.promoted() == Map::<u64, Seq<u8>>::empty(),
            r.wf(),
    {
        let machine = Self {
            applied_index: 0,
            value: 0,
            max_sessions,
            sessions: Vec::new(),
            promoted_payloads: no_payloads(),
        };
        assert(machine.replica() =~= Replica::initial(max_sessions as nat));
        machine
    }

    /// Finds a client's slot, or where it belongs.
    fn locate(&self, client: ClientId) -> (r: Result<usize, usize>)
        requires
            self.wf(),
        ensures
            match r {
                Ok(i) => is_slot(self.sessions@, client, i as int) && slot_of(
                    self.sessions@,
                    client,
                ) == Some(i as int),
                Err(i) => slot_of(self.sessions@, client) is None && i == slots_below(
                    self.sessions@,
                    client,
                ) && i <= self.sessions.len(),
            },
    {
        proof {
            lemma_slots_below(self.sessions@, client);
        }
        let mut i: usize = 0;
        while i < self.sessions.len() && self.sessions[i].client_id.get() < client.get()
            invariant
                i <= self.sessions.len(),
                self.wf(),
                i <= slots_below(self.sessions@, client) <= self.sessions.len(),
                forall|k: int|
                    slots_below(self.sessions@, client) <= k < self.sessions.len() ==> (
                    #[trigger] self.sessions@[k]).client_id@ >= client@,
                forall|k: int| 0 <= k < i ==> (#[trigger] self.sessions@[k]).client_id@ < client@,
            decreases self.sessions.len() - i,
        {
            i = i + 1;
        }
        if i < self.sessions.len() && self.sessions[i].client_id.get() == client.get() {
            proof {
                assert(is_slot(self.sessions@, client, i as int));
                lemma_slot_found(self.sessions@, client, i as int);
            }
            Ok(i)
        } else {
            proof {
                assert(i == slots_below(self.sessions@, client));
                assert forall|k: int| !is_slot(self.sessions@, client, k) by {
                    if 0 <= k < self.sessions.len() {
                        if k > i {
                            assert(self.sessions@[i as int].client_id@
                                < self.sessions@[k].client_id@);
                        } else if k < i {
                            assert(self.sessions@[k].client_id@ < client@);
                        }
                    }
                }
            }
            Err(i)
        }
    }

    /// Returns a complete read-only view of snapshot-relevant state.
    pub fn view(&self) -> (r: CounterStateView)
        ensures
            r.applied_index == self.replica().applied_index,
            r.value == self.replica().value,
            r.sessions@ == self.replica().sessions,
    {
        let mut sessions: Vec<CounterSessionView> = Vec::new();
        let mut i: usize = 0;
        while i < self.sessions.len()
            invariant
                i <= self.sessions.len(),
                sessions@ == self.sessions@.take(i as int),
            decreases self.sessions.len() - i,
        {
            sessions.push(self.sessions[i]);
            i = i + 1;
            assert(sessions@ =~= self.sessions@.take(i as int));
        }
        assert(self.sessions@.take(i as int) =~= self.sessions@);
        CounterStateView { applied_index: self.applied_index, value: self.value, sessions }
    }

    fn client_in_range(&self, client_id: ClientId) -> (r: bool)
        ensures
            r == (client_id@ < self.replica().max_sessions),
    {
        (client_id.get() as u64) < self.max_sessions as u64
    }

    /// Decides a counter request under the session it names.
    fn request_decision(
        session: CounterSessionView,
        request: RequestIdentity,
        command: CounterCommand,
    ) -> (r: CounterAdmissionDecision)
        ensures
            r == Replica::decide_request(session, request, command),
    {
        if request.session_epoch.get() < session.epoch.get() {
            return CounterAdmissionDecision::Rejected(
                CounterApplyRejection::StaleSession { current: session.epoch },
            );
        }
        if request.session_epoch.get() > session.epoch.get() {
            return CounterAdmissionDecision::Rejected(
                CounterApplyRejection::FutureSession { current: session.epoch },
            );
        }
        if request.fingerprint != RequestFingerprint::of(&command) {
            return CounterAdmissionDecision::Rejected(CounterApplyRejection::FingerprintMismatch);
        }
        let mut expected = Sequence::first();
        if let Some(completed) = session.completed {
            let highest = completed.sequence;
            if request.sequence.get() < highest.get() {
                return CounterAdmissionDecision::Rejected(
                    CounterApplyRejection::StaleSequence { highest },
                );
            }
            if request.sequence.get() == highest.get() {
                return if command == completed.command {
                    CounterAdmissionDecision::CounterReplay(completed.result)
                } else {
                    CounterAdmissionDecision::Rejected(CounterApplyRejection::ConflictingRetry)
                };
            }
            match highest.successor() {
                Some(next) => {
                    expected = next;
                },
                None => {
                    return CounterAdmissionDecision::Rejected(
                        CounterApplyRejection::StaleSequence { highest },
                    );
                },
            }
        }
        if request.sequence == expected {
            CounterAdmissionDecision::Proceed
        } else {
            CounterAdmissionDecision::Rejected(CounterApplyRejection::SequenceGap { expected })
        }
    }

    /// Decides one client operation from the current replicated session state.
    ///
    /// The caller must establish whatever freshness guarantee its API needs.
    pub fn admission_decision(&self, command: ReplicatedCounterCommand) -> (r:
        CounterAdmissionDecision)
        requires
            self.wf(),
        ensures
            r == self.replica().decide(command),
    {
        match command {
            ReplicatedCounterCommand::OpenSession { client_id, epoch } => {
                if !self.client_in_range(client_id) {
                    return CounterAdmissionDecision::Rejected(
                        CounterApplyRejection::ClientOutOfRange,
                    );
                }
                match self.locate(client_id) {
                    Err(_) => CounterAdmissionDecision::Proceed,
                    Ok(i) => {
                        let current = self.sessions[i].epoch;
                        if epoch.get() < current.get() {
                            CounterAdmissionDecision::Rejected(
                                CounterApplyRejection::StaleSession { current },
                            )
                        } else if epoch.get() == current.get() {
                            CounterAdmissionDecision::SessionAlreadyOpen
                        } else {
                            CounterAdmissionDecision::Proceed
                        }
                    },
                }
            },
            ReplicatedCounterCommand::Counter { request, command } => {
                if !self.client_in_range(request.client_id) {
                    return CounterAdmissionDecision::Rejected(
                        CounterApplyRejection::ClientOutOfRange,
                    );
                }
                match self.locate(request.client_id) {
                    Err(_) => CounterAdmissionDecision::Rejected(
                        CounterApplyRejection::SessionNotOpen,
                    ),
                    Ok(i) => Self::request_decision(self.sessions[i], request, command),
                }
            },
            ReplicatedCounterCommand::Faulty => CounterAdmissionDecision::Proceed,
            ReplicatedCounterCommand::CapacityFault => CounterAdmissionDecision::Proceed,
        }
    }

    fn apply_open_session(&mut self, client_id: ClientId, epoch: SessionEpoch) -> (r: Result<
        CounterApplyResult,
        CounterStateMachineError,
    >)
        requires
            old(self).wf(),
        ensures
            r == old(self).replica().result(
                ReplicatedCounterCommand::OpenSession { client_id, epoch },
            ),
            final(self).replica() == old(self).replica().applied(
                ReplicatedCounterCommand::OpenSession { client_id, epoch },
            ),
            final(self).promoted() == old(self).promoted(),
            final(self).wf(),
    {
        let command = ReplicatedCounterCommand::OpenSession { client_id, epoch };
        proof {
            use_type_invariant(&epoch);
            lemma_applied_wf(self.replica(), command);
        }
        match self.admission_decision(command) {
            CounterAdmissionDecision::Rejected(rejection) => {
                Ok(CounterApplyResult::Rejected(rejection))
            },
            CounterAdmissionDecision::Proceed => {
                let slot = CounterSessionView { client_id, epoch, completed: None };
                match self.locate(client_id) {
                    Err(at) => {
                        if self.sessions.len() >= self.max_sessions {
                            return Err(CounterStateMachineError::SessionCapacity);
                        }
                        self.sessions.insert(at, slot);
                        assert(self.replica() =~= old(self).replica().applied(command));
                        Ok(CounterApplyResult::Session(SessionApplyResult::Opened))
                    },
                    Ok(i) => {
                        self.sessions.set(i, slot);
                        assert(self.replica() =~= old(self).replica().applied(command));
                        Ok(CounterApplyResult::Session(SessionApplyResult::Replaced))
                    },
                }
            },
            _ => Ok(CounterApplyResult::Session(SessionApplyResult::AlreadyOpen)),
        }
    }

    fn apply_counter(&mut self, request: RequestIdentity, command: CounterCommand) -> (r:
        CounterApplyResult)
        requires
            old(self).wf(),
            request.valid(),
            command.valid(),
        ensures
            Ok::<CounterApplyResult, CounterStateMachineError>(r) == old(self).replica().result(
                ReplicatedCounterCommand::Counter { request, command },
            ),
            final(self).replica() == old(self).replica().applied(
                ReplicatedCounterCommand::Counter { request, command },
            ),
            final(self).promoted() == old(self).promoted(),
            final(self).wf(),
    {
        let replicated = ReplicatedCounterCommand::Counter { request, command };
        proof {
            lemma_applied_wf(self.replica(), replicated);
        }
        match self.admission_decision(replicated) {
            CounterAdmissionDecision::Rejected(rejection) => {
                return CounterApplyResult::Rejected(rejection);
            },
            CounterAdmissionDecision::CounterReplay(result) => {
                return CounterApplyResult::Counter(result);
            },
            _ => {},
        }
        let (value, result) = apply_counter_command(self.value, command);
        if let Ok(i) = self.locate(request.client_id) {
            let session = self.sessions[i];
            self.value = value;
            self.sessions.set(
                i,
                CounterSessionView {
                    client_id: session.client_id,
                    epoch: session.epoch,
                    completed: Some(
                        CounterCompletedView { sequence: request.sequence, command, result },
                    ),
                },
            );
            assert(self.replica() =~= old(self).replica().applied(replicated));
        }
        CounterApplyResult::Counter(result)
    }
}

/// What applying a batch reports: one result per entry, or the failure of the first entry that
/// fails.
pub open(crate) spec fn batch_result(
    r: Result<Vec<ApplyResult>, CounterStateMachineError>,
    s: Replica,
    entries: Seq<ApplyEntry>,
) -> bool {
    let n = s.failing(entries, entries.len());
    if n == entries.len() {
        &&& r is Ok
        &&& r->Ok_0@ == Seq::new(entries.len(), |i: int| s.reported(entries, i))
    } else {
        &&& r is Err
        &&& Err::<CounterApplyResult, CounterStateMachineError>(r->Err_0) == s.after(
            entries,
            n,
        ).result(entries[n as int].command)
    }
}

/// The first failing entry is one of the entries.
pub proof fn lemma_failing_bound(s: Replica, entries: Seq<ApplyEntry>, n: nat)
    ensures
        s.failing(entries, n) <= n,
    decreases n,
{
    if n > 0 {
        lemma_failing_bound(s, entries, (n - 1) as nat);
    }
}

/// The first failing entry is not moved by the entries after it.
proof fn lemma_failing_stops(s: Replica, entries: Seq<ApplyEntry>, n: nat, m: nat)
    requires
        n <= m,
        s.failing(entries, n) < n,
    ensures
        s.failing(entries, m) == s.failing(entries, n),
    decreases m,
{
    if n < m {
        lemma_failing_stops(s, entries, n, (m - 1) as nat);
    }
}

impl CounterStateMachine {
    /// Returns a state machine with the same state and promoted payloads.
    pub fn duplicate(&self) -> (r: Self)
        ensures
            r.replica() == self.replica(),
            r.promoted() == self.promoted(),
    {
        let mut sessions: Vec<CounterSessionView> = Vec::new();
        let mut i: usize = 0;
        while i < self.sessions.len()
            invariant
                i <= self.sessions.len(),
                sessions@ == self.sessions@.take(i as int),
            decreases self.sessions.len() - i,
        {
            sessions.push(self.sessions[i]);
            i = i + 1;
            assert(sessions@ =~= self.sessions@.take(i as int));
        }
        assert(sessions@ =~= self.sessions@);
        Self {
            applied_index: self.applied_index,
            value: self.value,
            max_sessions: self.max_sessions,
            sessions,
            promoted_payloads: copy_payloads(&self.promoted_payloads),
        }
    }

    /// Returns the highest applied log index.
    pub fn applied_index(&self) -> (r: u64)
        ensures
            r == self.replica().applied_index,
    {
        self.applied_index
    }

    /// Encodes a command for the log.
    pub fn encode_command(&self, command: &ReplicatedCounterCommand) -> (r: Result<
        Vec<u8>,
        CounterStateMachineError,
    >)
        requires
            command.valid(),
        ensures
            r is Ok,
            r->Ok_0@ == command_bytes(*command),
    {
        encode_command(command)
    }

    /// Decodes a command from the log.
    pub fn decode_command(&self, payload: &[u8]) -> (r: Result<
        ReplicatedCounterCommand,
        CounterStateMachineError,
    >)
        ensures
            r == decoded_command(payload@),
    {
        decode_command(payload)
    }

    /// Applies one command.
    fn apply(&mut self, command: ReplicatedCounterCommand) -> (r: Result<
        CounterApplyResult,
        CounterStateMachineError,
    >)
        requires
            old(self).wf(),
            command.valid(),
        ensures
            r == old(self).replica().result(command),
            final(self).replica() == old(self).replica().applied(command),
            final(self).promoted() == old(self).promoted(),
            final(self).wf(),
    {
        match command {
            ReplicatedCounterCommand::OpenSession { client_id, epoch } => self.apply_open_session(
                client_id,
                epoch,
            ),
            ReplicatedCounterCommand::Counter { request, command } => Ok(
                self.apply_counter(request, command),
            ),
            ReplicatedCounterCommand::Faulty => Err(CounterStateMachineError::InjectedFault),
            ReplicatedCounterCommand::CapacityFault => Err(
                CounterStateMachineError::SessionCapacity,
            ),
        }
    }

    /// Applies committed entries in order. An entry that fails stops the batch: what came before
    /// it stays applied, and nothing after it is.
    pub fn apply_batch(&mut self, entries: Vec<ApplyEntry>) -> (r: Result<
        Vec<ApplyResult>,
        CounterStateMachineError,
    >)
        requires
            old(self).wf(),
            forall|i: int| 0 <= i < entries@.len() ==> (#[trigger] entries@[i]).command.valid(),
        ensures
            batch_result(r, old(self).replica(), entries@),
            final(self).replica() == old(self).replica().after(
                entries@,
                old(self).replica().failing(entries@, entries@.len()),
            ),
            final(self).promoted() == old(self).promoted(),
            final(self).wf(),
    {
        let ghost start = self.replica();
        let mut results: Vec<ApplyResult> = Vec::new();
        let mut i: usize = 0;
        while i < entries.len()
            invariant
                i <= entries.len(),
                self.wf(),
                self.promoted() == old(self).promoted(),
                start == old(self).replica(),
                forall|j: int| 0 <= j < entries@.len() ==> (#[trigger] entries@[j]).command.valid(),
                start.failing(entries@, i as nat) == i,
                self.replica() == start.after(entries@, i as nat),
                results@ == Seq::new(i as nat, |j: int| start.reported(entries@, j)),
            decreases entries.len() - i,
        {
            let entry = entries[i];
            let ghost before = self.replica();
            match self.apply(entry.command) {
                Err(error) => {
                    proof {
                        assert(start.failing(entries@, (i + 1) as nat) == i);
                        lemma_failing_stops(start, entries@, (i + 1) as nat, entries@.len());
                    }
                    return Err(error);
                },
                Ok(result) => {
                    self.applied_index = entry.index;
                    results.push(
                        ApplyResult {
                            index: entry.index,
                            term: entry.term,
                            result,
                            local_proposal_id: entry.local_proposal_id,
                        },
                    );
                    proof {
                        assert(self.replica() =~= before.stepped(entry));
                        assert(results@ =~= Seq::new(
                            (i + 1) as nat,
                            |j: int| start.reported(entries@, j),
                        ));
                    }
                },
            }
            i = i + 1;
        }
        Ok(results)
    }

    /// Reads the counter once at least `required_applied_index` has been applied.
    pub fn read(&self, required_applied_index: u64) -> (r: Result<i64, CounterStateMachineError>)
        ensures
            r == if self.replica().applied_index < required_applied_index {
                Err(CounterStateMachineError::ReadBarrierNotReached)
            } else {
                Ok(self.replica().value)
            },
    {
        if self.applied_index < required_applied_index {
            return Err(CounterStateMachineError::ReadBarrierNotReached);
        }
        Ok(self.value)
    }

    /// Registers bytes already promoted by the caller's snapshot store under their transfer, in
    /// place of any registered for it before.
    ///
    /// A snapshot a peer transferred carries only a descriptor; the embedding resolves it from its
    /// durable store and registers the exact payload here before the snapshot is installed.
    pub fn register_promoted_snapshot(&mut self, snapshot: &RaftSnapshot, payload: Vec<u8>) -> (r:
        Result<(), CounterStateMachineError>)
        ensures
            final(self).replica() == old(self).replica(),
            if payload@.len() == declared_length(*snapshot) {
                &&& r is Ok
                &&& final(self).promoted() == old(self).promoted().insert(
                    transfer_of(*snapshot),
                    payload@,
                )
            } else {
                &&& r == Err::<(), CounterStateMachineError>(
                    CounterStateMachineError::SnapshotPayloadLengthMismatch,
                )
                &&& final(self).promoted() == old(self).promoted()
            },
    {
        match hold_payload(&mut self.promoted_payloads, snapshot, payload) {
            Ok(()) => Ok(()),
            Err(_) => Err(CounterStateMachineError::SnapshotPayloadLengthMismatch),
        }
    }

    /// Captures a snapshot at the applied index.
    pub fn build_snapshot(&mut self, at: u64) -> (r: Result<
        ApplicationSnapshot,
        CounterStateMachineError,
    >)
        requires
            old(self).wf(),
        ensures
            *final(self) == *old(self),
            if at == old(self).replica().applied_index {
                &&& r is Ok
                &&& r->Ok_0.applied_index == at
                &&& r->Ok_0.payload@ == snapshot_bytes(
                    at,
                    old(self).replica().value,
                    old(self).replica().sessions,
                )
                &&& r->Ok_0.transfer_id is None
            } else {
                r == Err::<ApplicationSnapshot, CounterStateMachineError>(
                    CounterStateMachineError::SnapshotIndexMismatch,
                )
            },
    {
        if at != self.applied_index {
            return Err(CounterStateMachineError::SnapshotIndexMismatch);
        }
        match encode_snapshot(self.applied_index, self.value, &self.sessions) {
            Ok(payload) => Ok(ApplicationSnapshot { applied_index: at, payload, transfer_id: None }),
            Err(error) => Err(error),
        }
    }

    /// Payload a snapshot is restored from: its own, or the one promoted for its transfer.
    pub open(crate) spec fn payload_for(self, snapshot: ApplicationSnapshot) -> Option<Seq<u8>> {
        if snapshot.payload@.len() > 0 {
            Some(snapshot.payload@)
        } else if snapshot.transfer_id is Some && self.promoted().contains_key(
            snapshot.transfer_id->0,
        ) {
            Some(self.promoted()[snapshot.transfer_id->0])
        } else {
            None
        }
    }

    /// What installing a snapshot gives: the replica it states, or why it is refused.
    pub open(crate) spec fn installed(self, snapshot: ApplicationSnapshot) -> Result<
        Replica,
        CounterStateMachineError,
    > {
        match self.payload_for(snapshot) {
            None => Err(CounterStateMachineError::PromotedSnapshotMissing),
            Some(payload) => match decoded_snapshot(payload, self.replica().max_sessions) {
                Err(error) => Err(error),
                Ok((applied_index, value, sessions)) => if applied_index
                    != snapshot.applied_index {
                    Err(CounterStateMachineError::SnapshotIndexMismatch)
                } else {
                    Ok(
                        Replica {
                            applied_index,
                            value,
                            sessions,
                            max_sessions: self.replica().max_sessions,
                        },
                    )
                },
            },
        }
    }

    /// Installs a snapshot, or leaves everything as it was.
    pub fn install_snapshot(&mut self, snapshot: ApplicationSnapshot) -> (r: Result<
        (),
        CounterStateMachineError,
    >)
        requires
            old(self).wf(),
        ensures
            final(self).wf(),
            final(self).promoted() == old(self).promoted(),
            match old(self).installed(snapshot) {
                Ok(replica) => r is Ok && final(self).replica() == replica,
                Err(error) => r == Err::<(), CounterStateMachineError>(error)
                    && final(self).replica() == old(self).replica(),
            },
    {
        let decoded = if snapshot.payload.len() == 0 {
            let Some(transfer_id) = snapshot.transfer_id else {
                return Err(CounterStateMachineError::PromotedSnapshotMissing);
            };
            match held_payload(&self.promoted_payloads, transfer_id) {
                None => {
                    return Err(CounterStateMachineError::PromotedSnapshotMissing);
                },
                Some(payload) => decode_snapshot(payload, self.max_sessions),
            }
        } else {
            decode_snapshot(snapshot.payload.as_slice(), self.max_sessions)
        };
        match decoded {
            Err(error) => Err(error),
            Ok((applied_index, value, sessions)) => {
                if applied_index != snapshot.applied_index {
                    return Err(CounterStateMachineError::SnapshotIndexMismatch);
                }
                self.applied_index = applied_index;
                self.value = value;
                self.sessions = sessions;
                Ok(())
            },
        }
    }

    /// Restores a fresh state machine from one bounded application snapshot.
    pub fn from_snapshot(max_sessions: usize, snapshot: ApplicationSnapshot) -> (r: Result<
        Self,
        CounterStateMachineError,
    >)
        requires
            0 < max_sessions <= 1724,
        ensures
            r is Ok ==> r->Ok_0.wf(),
            if snapshot.payload@.len() == 0 {
                r == Err::<Self, CounterStateMachineError>(
                    CounterStateMachineError::PromotedSnapshotMissing,
                )
            } else {
                match decoded_snapshot(snapshot.payload@, max_sessions as nat) {
                    Err(error) => r == Err::<Self, CounterStateMachineError>(error),
                    Ok((applied_index, value, sessions)) => if applied_index
                        != snapshot.applied_index {
                        r == Err::<Self, CounterStateMachineError>(
                            CounterStateMachineError::SnapshotIndexMismatch,
                        )
                    } else {
                        &&& r is Ok
                        &&& r->Ok_0.replica() == (Replica {
                            applied_index,
                            value,
                            sessions,
                            max_sessions: max_sessions as nat,
                        })
                        &&& r->Ok_0.promoted() == Map::<u64, Seq<u8>>::empty()
                    },
                }
            },
    {
        let mut state = Self::new(max_sessions);
        match state.install_snapshot(snapshot) {
            Ok(()) => Ok(state),
            Err(error) => Err(error),
        }
    }
}

// ---------------------------------------------------------------------- laws

/// Only a decision to proceed changes anything: a refused, replayed or already satisfied command
/// leaves the replica as it was.
pub proof fn law_only_new_commands_change_state(s: Replica, command: ReplicatedCounterCommand)
    requires
        !(s.decide(command) is Proceed),
    ensures
        s.applied(command) == s,
{
}

/// A decision made before a command is replicated and its later application agree, as long as
/// nothing else was applied in between: a refusal is reported as that refusal, a replay as that
/// result, and an open session as already open.
pub proof fn law_admission_agrees_with_apply(s: Replica, command: ReplicatedCounterCommand)
    ensures
        s.decide(command) matches CounterAdmissionDecision::Rejected(rejection) ==> s.result(
            command,
        ) == Ok::<CounterApplyResult, CounterStateMachineError>(
            CounterApplyResult::Rejected(rejection),
        ),
        s.decide(command) matches CounterAdmissionDecision::CounterReplay(result) ==> s.result(
            command,
        ) == Ok::<CounterApplyResult, CounterStateMachineError>(
            CounterApplyResult::Counter(result),
        ),
        s.decide(command) is SessionAlreadyOpen ==> s.result(command) == Ok::<
            CounterApplyResult,
            CounterStateMachineError,
        >(CounterApplyResult::Session(SessionApplyResult::AlreadyOpen)),
{
}

/// An exact retry of a request that was applied replays its cached result and applies nothing.
pub proof fn law_applied_request_is_replayed(
    s: Replica,
    request: RequestIdentity,
    command: CounterCommand,
)
    requires
        s.wf(),
        request.valid(),
        command.valid(),
        s.decide(ReplicatedCounterCommand::Counter { request, command }) is Proceed,
    ensures
        ({
            let replicated = ReplicatedCounterCommand::Counter { request, command };
            let t = s.applied(replicated);
            &&& t.decide(replicated) is CounterReplay
            &&& t.result(replicated) == s.result(replicated)
            &&& t.applied(replicated) == t
        }),
{
    let replicated = ReplicatedCounterCommand::Counter { request, command };
    let t = s.applied(replicated);
    lemma_applied_wf(s, replicated);
    let i = slot_of(s.sessions, request.client_id)->0;
    assert(is_slot(s.sessions, request.client_id, i));
    assert(is_slot(t.sessions, request.client_id, i));
    lemma_slot_found(t.sessions, request.client_id, i);
}

/// A session that was opened or replaced is then already open under the same epoch.
pub proof fn law_opened_session_is_open(s: Replica, client_id: ClientId, epoch: SessionEpoch)
    requires
        s.wf(),
        epoch.valid(),
        s.decide(ReplicatedCounterCommand::OpenSession { client_id, epoch }) is Proceed,
        s.result(ReplicatedCounterCommand::OpenSession { client_id, epoch }) is Ok,
    ensures
        s.applied(ReplicatedCounterCommand::OpenSession { client_id, epoch }).decide(
            ReplicatedCounterCommand::OpenSession { client_id, epoch },
        ) is SessionAlreadyOpen,
{
    let command = ReplicatedCounterCommand::OpenSession { client_id, epoch };
    let t = s.applied(command);
    lemma_applied_wf(s, command);
    match slot_of(s.sessions, client_id) {
        Some(i) => {
            assert(is_slot(s.sessions, client_id, i));
            assert(is_slot(t.sessions, client_id, i));
            lemma_slot_found(t.sessions, client_id, i);
        },
        None => {
            lemma_slots_below(s.sessions, client_id);
            let at = slots_below(s.sessions, client_id) as int;
            assert(is_slot(t.sessions, client_id, at));
            lemma_slot_found(t.sessions, client_id, at);
        },
    }
}

/// A command of one client leaves every other client's session as it was.
pub proof fn law_sessions_are_isolated(
    s: Replica,
    command: ReplicatedCounterCommand,
    other: ClientId,
)
    requires
        s.wf(),
        command.valid(),
        command matches ReplicatedCounterCommand::OpenSession { client_id, .. } ==> client_id
            != other,
        command matches ReplicatedCounterCommand::Counter { request, .. } ==> request.client_id
            != other,
    ensures
        s.applied(command).session(other) == s.session(other),
{
    let t = s.applied(command);
    lemma_applied_wf(s, command);
    let shift = match command {
        ReplicatedCounterCommand::OpenSession { client_id, .. } => if slot_of(
            s.sessions,
            client_id,
        ) is None && t != s {
            lemma_slots_below(s.sessions, client_id);
            slots_below(s.sessions, client_id) as int
        } else {
            if slot_of(s.sessions, client_id) is Some {
                assert(is_slot(
                    s.sessions,
                    client_id,
                    slot_of(s.sessions, client_id)->0,
                ));
            }
            s.sessions.len() as int
        },
        ReplicatedCounterCommand::Counter { request, .. } => {
            if slot_of(s.sessions, request.client_id) is Some {
                assert(is_slot(
                    s.sessions,
                    request.client_id,
                    slot_of(s.sessions, request.client_id)->0,
                ));
            }
            s.sessions.len() as int
        },
        _ => s.sessions.len() as int,
    };
    if slot_of(s.sessions, other) is Some {
        let j = slot_of(s.sessions, other)->0;
        assert(is_slot(s.sessions, other, j));
        let k = if j >= shift {
            j + 1
        } else {
            j
        };
        assert(t.sessions[k] == s.sessions[j]);
        assert(is_slot(t.sessions, other, k));
        lemma_slot_found(t.sessions, other, k);
    } else if slot_of(t.sessions, other) is Some {
        let k = slot_of(t.sessions, other)->0;
        assert(is_slot(t.sessions, other, k));
        let j = if k > shift {
            k - 1
        } else {
            k
        };
        assert(is_slot(s.sessions, other, j));
    }
}

/// A snapshot built by one state machine and installed by another with the same bound restores
/// exactly what was captured.
pub proof fn law_snapshot_restores_the_replica(s: Replica)
    requires
        s.wf(),
    ensures
        decoded_snapshot(snapshot_bytes(s.applied_index, s.value, s.sessions), s.max_sessions)
            == Ok::<(u64, i64, Seq<CounterSessionView>), CounterStateMachineError>(
            (s.applied_index, s.value, s.sessions),
        ),
        snapshot_bytes(s.applied_index, s.value, s.sessions).len() > 0,
{
    law_snapshots_round_trip(s.applied_index, s.value, s.sessions, s.max_sessions);
}

} // verus!
