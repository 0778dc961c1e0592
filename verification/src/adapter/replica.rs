//! Mathematical model of one replica: the counter, its sessions and what a command does to them.

use vstd::prelude::*;

use crate::adapter::state_machine::{
    ApplyEntry, ApplyResult, CounterAdmissionDecision, CounterApplyRejection, CounterApplyResult,
    CounterCompletedView, CounterSessionView, CounterStateMachineError, ReplicatedCounterCommand,
    SessionApplyResult,
};
use crate::types::{
    counter_after, counter_result, fingerprint_of, ClientId, CounterCommand, RequestIdentity,
    Sequence, SessionEpoch,
};

verus! {

/// `i` is the position of `client` among the sessions.
pub open spec fn is_slot(sessions: Seq<CounterSessionView>, client: ClientId, i: int) -> bool {
    0 <= i < sessions.len() && sessions[i].client_id == client
}

/// Position of `client` among the sessions, if its slot is open.
pub open spec fn slot_of(sessions: Seq<CounterSessionView>, client: ClientId) -> Option<int> {
    if exists|i: int| is_slot(sessions, client, i) {
        Some(choose|i: int| is_slot(sessions, client, i))
    } else {
        None
    }
}

/// The sessions stand in strictly ascending client order.
pub open spec fn ascending(sessions: Seq<CounterSessionView>) -> bool {
    forall|i: int, j: int|
        0 <= i < j < sessions.len() ==> sessions[i].client_id@ < sessions[j].client_id@
}

/// Number of sessions below `client`: where its slot belongs.
pub open spec fn slots_below(sessions: Seq<CounterSessionView>, client: ClientId) -> nat
    decreases sessions.len(),
{
    if sessions.len() == 0 {
        0
    } else if sessions.last().client_id@ < client@ {
        sessions.len()
    } else {
        slots_below(sessions.drop_last(), client)
    }
}

/// The sessions with one more slot, in order.
pub open spec fn with_slot(sessions: Seq<CounterSessionView>, slot: CounterSessionView) -> Seq<
    CounterSessionView,
> {
    sessions.insert(slots_below(sessions, slot.client_id) as int, slot)
}

/// In order, a slot's position is unique.
pub proof fn lemma_slot_found(sessions: Seq<CounterSessionView>, client: ClientId, i: int)
    requires
        ascending(sessions),
        is_slot(sessions, client, i),
    ensures
        slot_of(sessions, client) == Some(i),
{
    let j = choose|j: int| is_slot(sessions, client, j);
    assert(is_slot(sessions, client, j));
    if i < j {
        assert(sessions[i].client_id@ < sessions[j].client_id@);
    } else if j < i {
        assert(sessions[j].client_id@ < sessions[i].client_id@);
    }
}

/// Where a slot belongs among sessions in order.
pub proof fn lemma_slots_below(sessions: Seq<CounterSessionView>, client: ClientId)
    requires
        ascending(sessions),
    ensures
        slots_below(sessions, client) <= sessions.len(),
        forall|i: int|
            0 <= i < slots_below(sessions, client) ==> (#[trigger] sessions[i]).client_id@
                < client@,
        forall|i: int|
            slots_below(sessions, client) <= i < sessions.len() ==> (
            #[trigger] sessions[i]).client_id@ >= client@,
    decreases sessions.len(),
{
    if sessions.len() > 0 && sessions.last().client_id@ >= client@ {
        let rest = sessions.drop_last();
        assert(ascending(rest));
        lemma_slots_below(rest, client);
        assert forall|i: int| slots_below(sessions, client) <= i < sessions.len() implies (
        #[trigger] sessions[i]).client_id@ >= client@ by {
            if i < rest.len() {
                assert(rest[i] == sessions[i]);
            }
        }
        assert forall|i: int| 0 <= i < slots_below(sessions, client) implies (
        #[trigger] sessions[i]).client_id@ < client@ by {
            assert(rest[i] == sessions[i]);
        }
    }
}

/// A vacant slot filled keeps the sessions in order.
pub proof fn lemma_with_slot(sessions: Seq<CounterSessionView>, slot: CounterSessionView)
    requires
        ascending(sessions),
        slot_of(sessions, slot.client_id) is None,
    ensures
        ascending(with_slot(sessions, slot)),
        with_slot(sessions, slot).len() == sessions.len() + 1,
{
    lemma_slots_below(sessions, slot.client_id);
    let at = slots_below(sessions, slot.client_id) as int;
    let after = with_slot(sessions, slot);
    assert forall|i: int, j: int| 0 <= i < j < after.len() implies after[i].client_id@
        < after[j].client_id@ by {
        if at < sessions.len() {
            assert(!is_slot(sessions, slot.client_id, at));
            assert(sessions[at].client_id@ != slot.client_id@);
        }
        let k = if j > at {
            j - 1
        } else {
            j
        };
        if i == at {
            if k > at {
                assert(sessions[at].client_id@ < sessions[k].client_id@);
            }
        } else if j != at {
            let m = if i > at {
                i - 1
            } else {
                i
            };
            assert(sessions[m].client_id@ < sessions[k].client_id@);
        }
    }
}

impl CounterCompletedView {
    /// The completion holds values that can exist.
    pub open spec fn valid(self) -> bool {
        self.sequence.valid() && self.command.valid()
    }
}

impl CounterSessionView {
    /// The session holds values that can exist.
    pub open spec fn valid(self) -> bool {
        self.epoch.valid() && (self.completed is Some ==> self.completed->0.valid())
    }
}

/// Snapshot-relevant state of one replica.
#[verifier::ext_equal]
pub struct Replica {
    /// Highest applied log index.
    pub applied_index: u64,
    /// Counter value.
    pub value: i64,
    /// Session bound.
    pub max_sessions: nat,
    /// Sessions in client order.
    pub sessions: Seq<CounterSessionView>,
}

/// Sequence the next new request of a session must carry, unless the sequence space is used up.
pub open(crate) spec fn next_request(completed: Option<CounterCompletedView>) -> Option<Sequence> {
    match completed {
        None => Some(Sequence(1)),
        Some(done) => if done.sequence@ < u64::MAX {
            Some(Sequence((done.sequence@ + 1) as u64))
        } else {
            None
        },
    }
}

impl Replica {
    /// What holds of every replica: a bounded number of valid sessions, in order.
    pub open spec fn wf(self) -> bool {
        &&& 0 < self.max_sessions <= 1724
        &&& self.sessions.len() <= self.max_sessions
        &&& ascending(self.sessions)
        &&& forall|i: int| 0 <= i < self.sessions.len() ==> (#[trigger] self.sessions[i]).valid()
    }

    /// A replica that has applied nothing.
    pub open spec fn initial(max_sessions: nat) -> Self {
        Replica { applied_index: 0, value: 0, max_sessions, sessions: Seq::empty() }
    }

    /// The session of `client`, if its slot is open.
    pub open spec fn session(self, client: ClientId) -> Option<CounterSessionView> {
        match slot_of(self.sessions, client) {
            Some(i) => Some(self.sessions[i]),
            None => None,
        }
    }

    /// How a session command is decided.
    pub open spec fn decide_session(
        self,
        client: ClientId,
        epoch: SessionEpoch,
    ) -> CounterAdmissionDecision {
        if client@ >= self.max_sessions {
            CounterAdmissionDecision::Rejected(CounterApplyRejection::ClientOutOfRange)
        } else {
            match self.session(client) {
                None => CounterAdmissionDecision::Proceed,
                Some(session) => if epoch@ < session.epoch@ {
                    CounterAdmissionDecision::Rejected(
                        CounterApplyRejection::StaleSession { current: session.epoch },
                    )
                } else if epoch@ == session.epoch@ {
                    CounterAdmissionDecision::SessionAlreadyOpen
                } else {
                    CounterAdmissionDecision::Proceed
                },
            }
        }
    }

    /// How a counter request is decided under the session it names.
    pub open(crate) spec fn decide_request(
        session: CounterSessionView,
        request: RequestIdentity,
        command: CounterCommand,
    ) -> CounterAdmissionDecision {
        let completed = session.completed;
        if request.session_epoch@ < session.epoch@ {
            CounterAdmissionDecision::Rejected(
                CounterApplyRejection::StaleSession { current: session.epoch },
            )
        } else if request.session_epoch@ > session.epoch@ {
            CounterAdmissionDecision::Rejected(
                CounterApplyRejection::FutureSession { current: session.epoch },
            )
        } else if request.fingerprint@ != fingerprint_of(command) {
            CounterAdmissionDecision::Rejected(CounterApplyRejection::FingerprintMismatch)
        } else if completed is Some && request.sequence@ < completed->0.sequence@ {
            CounterAdmissionDecision::Rejected(
                CounterApplyRejection::StaleSequence { highest: completed->0.sequence },
            )
        } else if completed is Some && request.sequence@ == completed->0.sequence@ {
            if command == completed->0.command {
                CounterAdmissionDecision::CounterReplay(completed->0.result)
            } else {
                CounterAdmissionDecision::Rejected(CounterApplyRejection::ConflictingRetry)
            }
        } else {
            match next_request(completed) {
                None => CounterAdmissionDecision::Rejected(
                    CounterApplyRejection::StaleSequence { highest: completed->0.sequence },
                ),
                Some(expected) => if request.sequence == expected {
                    CounterAdmissionDecision::Proceed
                } else {
                    CounterAdmissionDecision::Rejected(
                        CounterApplyRejection::SequenceGap { expected },
                    )
                },
            }
        }
    }

    /// How a command is decided from the replica's sessions.
    pub open(crate) spec fn decide(self, command: ReplicatedCounterCommand) -> CounterAdmissionDecision {
        match command {
            ReplicatedCounterCommand::OpenSession { client_id, epoch } => self.decide_session(
                client_id,
                epoch,
            ),
            ReplicatedCounterCommand::Counter { request, command } => if request.client_id@
                >= self.max_sessions {
                CounterAdmissionDecision::Rejected(CounterApplyRejection::ClientOutOfRange)
            } else {
                match self.session(request.client_id) {
                    None => CounterAdmissionDecision::Rejected(
                        CounterApplyRejection::SessionNotOpen,
                    ),
                    Some(session) => Self::decide_request(session, request, command),
                }
            },
            ReplicatedCounterCommand::Faulty => CounterAdmissionDecision::Proceed,
            ReplicatedCounterCommand::CapacityFault => CounterAdmissionDecision::Proceed,
        }
    }

    /// What applying a command reports.
    pub open(crate) spec fn result(self, command: ReplicatedCounterCommand) -> Result<
        CounterApplyResult,
        CounterStateMachineError,
    > {
        match command {
            ReplicatedCounterCommand::OpenSession { client_id, epoch } => match self.decide(
                command,
            ) {
                CounterAdmissionDecision::Rejected(rejection) => Ok(
                    CounterApplyResult::Rejected(rejection),
                ),
                CounterAdmissionDecision::Proceed => if self.session(client_id) is Some {
                    Ok(CounterApplyResult::Session(SessionApplyResult::Replaced))
                } else if self.sessions.len() >= self.max_sessions {
                    Err(CounterStateMachineError::SessionCapacity)
                } else {
                    Ok(CounterApplyResult::Session(SessionApplyResult::Opened))
                },
                _ => Ok(CounterApplyResult::Session(SessionApplyResult::AlreadyOpen)),
            },
            ReplicatedCounterCommand::Counter { request, command: asked } => match self.decide(
                command,
            ) {
                CounterAdmissionDecision::Rejected(rejection) => Ok(
                    CounterApplyResult::Rejected(rejection),
                ),
                CounterAdmissionDecision::CounterReplay(result) => Ok(
                    CounterApplyResult::Counter(result),
                ),
                _ => Ok(CounterApplyResult::Counter(counter_result(self.value, asked))),
            },
            ReplicatedCounterCommand::Faulty => Err(CounterStateMachineError::InjectedFault),
            ReplicatedCounterCommand::CapacityFault => Err(
                CounterStateMachineError::SessionCapacity,
            ),
        }
    }

    /// The replica once a command has been applied, but for the applied index.
    pub open(crate) spec fn applied(self, command: ReplicatedCounterCommand) -> Self {
        if self.result(command) is Err || !(self.decide(command) is Proceed) {
            self
        } else {
            match command {
                ReplicatedCounterCommand::OpenSession { client_id, epoch } => {
                    let slot = CounterSessionView { client_id, epoch, completed: None };
                    match slot_of(self.sessions, client_id) {
                        Some(i) => Replica { sessions: self.sessions.update(i, slot), ..self },
                        None => Replica { sessions: with_slot(self.sessions, slot), ..self },
                    }
                },
                ReplicatedCounterCommand::Counter { request, command: asked } => {
                    let i = slot_of(self.sessions, request.client_id)->0;
                    Replica {
                        value: counter_after(self.value, asked),
                        sessions: self.sessions.update(
                            i,
                            CounterSessionView {
                                completed: Some(
                                    CounterCompletedView {
                                        sequence: request.sequence,
                                        command: asked,
                                        result: counter_result(self.value, asked),
                                    },
                                ),
                                ..self.sessions[i]
                            },
                        ),
                        ..self
                    }
                },
                _ => self,
            }
        }
    }

    /// The replica once one log entry has been applied.
    pub open(crate) spec fn stepped(self, entry: ApplyEntry) -> Self {
        if self.result(entry.command) is Err {
            self
        } else {
            Replica { applied_index: entry.index, ..self.applied(entry.command) }
        }
    }

    /// The replica once the first `n` entries have been applied, as far as none of them failed.
    pub open(crate) spec fn after(self, entries: Seq<ApplyEntry>, n: nat) -> Self
        decreases n,
    {
        if n == 0 {
            self
        } else {
            self.after(entries, (n - 1) as nat).stepped(entries[n - 1])
        }
    }

    /// Position of the first entry whose application fails, or the number of entries.
    pub open(crate) spec fn failing(self, entries: Seq<ApplyEntry>, n: nat) -> nat
        decreases n,
    {
        if n == 0 {
            0
        } else {
            let before = self.failing(entries, (n - 1) as nat);
            if before == n - 1 && self.after(entries, before).result(entries[n - 1].command) is Ok {
                n
            } else {
                before
            }
        }
    }

    /// What applying the entry at `i` reports once everything before it has been applied.
    pub open(crate) spec fn reported(self, entries: Seq<ApplyEntry>, i: int) -> ApplyResult {
        ApplyResult {
            index: entries[i].index,
            term: entries[i].term,
            result: self.after(entries, i as nat).result(entries[i].command)->Ok_0,
            local_proposal_id: entries[i].local_proposal_id,
        }
    }
}

/// Applying keeps a replica well formed.
pub proof fn lemma_applied_wf(s: Replica, command: ReplicatedCounterCommand)
    requires
        s.wf(),
        command.valid(),
    ensures
        s.applied(command).wf(),
{
    let t = s.applied(command);
    match command {
        ReplicatedCounterCommand::OpenSession { client_id, epoch } => {
            let slot = CounterSessionView { client_id, epoch, completed: None };
            if s.result(command) is Ok && s.decide(command) is Proceed {
                match slot_of(s.sessions, client_id) {
                    Some(i) => {
                        assert(is_slot(s.sessions, client_id, i));
                        lemma_update_wf(s, i, slot);
                    },
                    None => {
                        lemma_with_slot(s.sessions, slot);
                        lemma_slots_below(s.sessions, client_id);
                        let at = slots_below(s.sessions, client_id) as int;
                        assert forall|i: int| 0 <= i < t.sessions.len() implies (
                        #[trigger] t.sessions[i]).valid() by {
                            if i < at {
                                assert(t.sessions[i] == s.sessions[i]);
                            } else if i > at {
                                assert(t.sessions[i] == s.sessions[i - 1]);
                            }
                        }
                    },
                }
            }
        },
        ReplicatedCounterCommand::Counter { request, command: asked } => {
            if s.decide(command) is Proceed {
                let i = slot_of(s.sessions, request.client_id)->0;
                assert(is_slot(s.sessions, request.client_id, i));
                lemma_update_wf(s, i, t.sessions[i]);
            }
        },
        _ => {},
    }
}

/// Replacing a session of the same client keeps a replica well formed.
proof fn lemma_update_wf(s: Replica, i: int, slot: CounterSessionView)
    requires
        s.wf(),
        0 <= i < s.sessions.len(),
        slot.client_id == s.sessions[i].client_id,
        slot.valid(),
    ensures
        (Replica { sessions: s.sessions.update(i, slot), ..s }).wf(),
{
    let after = s.sessions.update(i, slot);
    assert forall|a: int, b: int| 0 <= a < b < after.len() implies after[a].client_id@
        < after[b].client_id@ by {
        assert(s.sessions[a].client_id@ < s.sessions[b].client_id@);
    }
}

} // verus!
