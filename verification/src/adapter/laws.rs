//! What the commands of a client do to a replica.

use vstd::prelude::*;

use crate::adapter::replica::{
    is_slot, lemma_applied_wf, lemma_slot_found, lemma_slots_below, slot_of, slots_below, Replica,
};
use crate::adapter::state_machine::{
    batch_result, ApplyEntry, ApplyResult, CounterAdmissionDecision, CounterApplyRejection,
    CounterApplyResult, CounterCompletedView, CounterSessionView, CounterStateMachine,
    CounterStateMachineError, ReplicatedCounterCommand, SessionApplyResult,
};
use crate::types::{
    fingerprint_of, ClientId, CounterCommand, CounterRejection, CounterResult, RequestIdentity,
    SessionEpoch,
};

verus! {

/// The client has a session, and it is this one.
pub open spec fn has(s: Replica, session: CounterSessionView) -> bool {
    s.sessions.contains(session)
}

/// The client has no session.
pub open spec fn has_none(s: Replica, client: ClientId) -> bool {
    forall|i: int| 0 <= i < s.sessions.len() ==> (#[trigger] s.sessions[i]).client_id != client
}

/// A session that stands anywhere is the client's.
proof fn lemma_has(s: Replica, session: CounterSessionView)
    requires
        s.wf(),
        has(s, session),
    ensures
        s.session(session.client_id) == Some(session),
        slot_of(s.sessions, session.client_id) is Some,
{
    let i = choose|i: int| 0 <= i < s.sessions.len() && s.sessions[i] == session;
    assert(is_slot(s.sessions, session.client_id, i));
    lemma_slot_found(s.sessions, session.client_id, i);
}

proof fn lemma_has_none(s: Replica, client: ClientId)
    requires
        has_none(s, client),
    ensures
        s.session(client) is None,
        slot_of(s.sessions, client) is None,
{
    assert forall|i: int| !is_slot(s.sessions, client, i) by {
        if is_slot(s.sessions, client, i) {
            assert(s.sessions[i].client_id != client);
        }
    }
}

/// A session command of a client without a session opens one, with nothing completed in it, and
/// changes neither the counter nor any other session. Only a client out of range or a full replica is
/// refused.
pub proof fn law_new_session_opens(s: Replica, client_id: ClientId, epoch: SessionEpoch)
    requires
        s.wf(),
        epoch.valid(),
        has_none(s, client_id),
    ensures
        ({
            let command = ReplicatedCounterCommand::OpenSession { client_id, epoch };
            let t = s.applied(command);
            if client_id@ >= s.max_sessions {
                &&& s.result(command) == Ok::<CounterApplyResult, CounterStateMachineError>(
                    CounterApplyResult::Rejected(CounterApplyRejection::ClientOutOfRange),
                )
                &&& t == s
            } else if s.sessions.len() >= s.max_sessions {
                &&& s.decide(command) == CounterAdmissionDecision::Proceed
                &&& s.result(command) == Err::<CounterApplyResult, CounterStateMachineError>(
                    CounterStateMachineError::SessionCapacity,
                )
                &&& t == s
            } else {
                &&& s.decide(command) == CounterAdmissionDecision::Proceed
                &&& s.result(command) == Ok::<CounterApplyResult, CounterStateMachineError>(
                    CounterApplyResult::Session(SessionApplyResult::Opened),
                )
                &&& has(t, CounterSessionView { client_id, epoch, completed: None })
                &&& t.sessions.len() == s.sessions.len() + 1
                &&& t.value == s.value
            }
        }),
{
    lemma_has_none(s, client_id);
    let command = ReplicatedCounterCommand::OpenSession { client_id, epoch };
    let t = s.applied(command);
    if client_id@ < s.max_sessions && s.sessions.len() < s.max_sessions {
        lemma_slots_below(s.sessions, client_id);
        let at = slots_below(s.sessions, client_id) as int;
        assert(t.sessions[at] == (CounterSessionView { client_id, epoch, completed: None }));
    }
}

/// A session command of a client that has a session is decided by the epochs: a smaller one is stale,
/// the same is open already, and a greater one replaces the session with one in which nothing is
/// completed.
pub proof fn law_greater_epoch_replaces_the_session(
    s: Replica,
    session: CounterSessionView,
    epoch: SessionEpoch,
)
    requires
        s.wf(),
        epoch.valid(),
        has(s, session),
        session.client_id@ < s.max_sessions,
    ensures
        ({
            let client_id = session.client_id;
            let command = ReplicatedCounterCommand::OpenSession { client_id, epoch };
            let t = s.applied(command);
            if epoch@ < session.epoch@ {
                &&& s.result(command) == Ok::<CounterApplyResult, CounterStateMachineError>(
                    CounterApplyResult::Rejected(
                        CounterApplyRejection::StaleSession { current: session.epoch },
                    ),
                )
                &&& t == s
            } else if epoch@ == session.epoch@ {
                &&& s.result(command) == Ok::<CounterApplyResult, CounterStateMachineError>(
                    CounterApplyResult::Session(SessionApplyResult::AlreadyOpen),
                )
                &&& t == s
            } else {
                &&& s.result(command) == Ok::<CounterApplyResult, CounterStateMachineError>(
                    CounterApplyResult::Session(SessionApplyResult::Replaced),
                )
                &&& has(t, CounterSessionView { client_id, epoch, completed: None })
                &&& t.sessions.len() == s.sessions.len()
                &&& t.value == s.value
            }
        }),
{
    lemma_has(s, session);
    let client_id = session.client_id;
    let command = ReplicatedCounterCommand::OpenSession { client_id, epoch };
    let t = s.applied(command);
    let i = slot_of(s.sessions, client_id)->0;
    assert(is_slot(s.sessions, client_id, i));
    if epoch@ > session.epoch@ {
        assert(t.sessions[i] == (CounterSessionView { client_id, epoch, completed: None }));
    }
}

/// After a session was opened or replaced its requests start over: sequence one is new, whatever was
/// completed before, and every later one is a gap.
pub proof fn law_opened_session_starts_over(
    s: Replica,
    client_id: ClientId,
    epoch: SessionEpoch,
    request: RequestIdentity,
    command: CounterCommand,
)
    requires
        s.wf(),
        epoch.valid(),
        request.valid(),
        s.result(ReplicatedCounterCommand::OpenSession { client_id, epoch }) == Ok::<
            CounterApplyResult,
            CounterStateMachineError,
        >(CounterApplyResult::Session(SessionApplyResult::Opened)) || s.result(
            ReplicatedCounterCommand::OpenSession { client_id, epoch },
        ) == Ok::<CounterApplyResult, CounterStateMachineError>(
            CounterApplyResult::Session(SessionApplyResult::Replaced),
        ),
        request.client_id == client_id,
        request.session_epoch == epoch,
        request.fingerprint@ == fingerprint_of(command),
    ensures
        ({
            let t = s.applied(ReplicatedCounterCommand::OpenSession { client_id, epoch });
            let decision = t.decide(ReplicatedCounterCommand::Counter { request, command });
            if request.sequence@ == 1 {
                decision == CounterAdmissionDecision::Proceed
            } else {
                decision matches CounterAdmissionDecision::Rejected(
                    CounterApplyRejection::SequenceGap { expected },
                ) && expected@ == 1
            }
        }),
{
    let open = ReplicatedCounterCommand::OpenSession { client_id, epoch };
    let t = s.applied(open);
    lemma_applied_wf(s, open);
    if slot_of(s.sessions, client_id) is Some {
        let i = slot_of(s.sessions, client_id)->0;
        assert(is_slot(s.sessions, client_id, i));
        let session = s.sessions[i];
        assert(has(s, session));
        law_greater_epoch_replaces_the_session(s, session, epoch);
    } else {
        assert(has_none(s, client_id)) by {
            assert forall|i: int| 0 <= i < s.sessions.len() implies (
            #[trigger] s.sessions[i]).client_id != client_id by {
                assert(!is_slot(s.sessions, client_id, i));
            }
        }
        law_new_session_opens(s, client_id, epoch);
    }
    lemma_has(t, CounterSessionView { client_id, epoch, completed: None });
}

/// A request needs an open session of its client, under the very epoch that it names, and a
/// fingerprint that describes its command.
pub proof fn law_request_needs_its_session(
    s: Replica,
    request: RequestIdentity,
    command: CounterCommand,
)
    requires
        s.wf(),
    ensures
        ({
            let decision = s.decide(ReplicatedCounterCommand::Counter { request, command });
            &&& request.client_id@ >= s.max_sessions ==> decision
                == CounterAdmissionDecision::Rejected(CounterApplyRejection::ClientOutOfRange)
            &&& request.client_id@ < s.max_sessions && has_none(s, request.client_id) ==> decision
                == CounterAdmissionDecision::Rejected(CounterApplyRejection::SessionNotOpen)
            &&& forall|session: CounterSessionView| #[trigger]
                has(s, session) && session.client_id == request.client_id
                    && request.client_id@ < s.max_sessions ==> {
                    &&& request.session_epoch@ < session.epoch@ ==> decision
                        == CounterAdmissionDecision::Rejected(
                        CounterApplyRejection::StaleSession { current: session.epoch },
                    )
                    &&& request.session_epoch@ > session.epoch@ ==> decision
                        == CounterAdmissionDecision::Rejected(
                        CounterApplyRejection::FutureSession { current: session.epoch },
                    )
                    &&& request.session_epoch@ == session.epoch@ && request.fingerprint@
                        != fingerprint_of(command) ==> decision
                        == CounterAdmissionDecision::Rejected(
                        CounterApplyRejection::FingerprintMismatch,
                    )
                }
        }),
{
    if has_none(s, request.client_id) {
        lemma_has_none(s, request.client_id);
    }
    assert forall|session: CounterSessionView| #[trigger]
        has(s, session) && session.client_id == request.client_id implies s.session(
        request.client_id,
    ) == Some(session) by {
        lemma_has(s, session);
    }
}

/// Within a session the sequences decide: what follows the last completed request is new, the same
/// sequence is a replay of the same command and a conflict of another, a smaller one is stale, and a
/// greater one leaves a gap.
pub proof fn law_requests_follow_each_other(
    s: Replica,
    session: CounterSessionView,
    request: RequestIdentity,
    command: CounterCommand,
)
    requires
        s.wf(),
        has(s, session),
        session.client_id@ < s.max_sessions,
        request.client_id == session.client_id,
        request.session_epoch == session.epoch,
        request.fingerprint@ == fingerprint_of(command),
        request.valid(),
    ensures
        ({
            let decision = s.decide(ReplicatedCounterCommand::Counter { request, command });
            match session.completed {
                None => if request.sequence@ == 1 {
                    decision == CounterAdmissionDecision::Proceed
                } else {
                    decision matches CounterAdmissionDecision::Rejected(
                        CounterApplyRejection::SequenceGap { expected },
                    ) && expected@ == 1
                },
                Some(last) => {
                    &&& request.sequence@ == last.sequence@ + 1 ==> decision
                        == CounterAdmissionDecision::Proceed
                    &&& request.sequence@ == last.sequence@ && command == last.command ==> decision
                        == CounterAdmissionDecision::CounterReplay(last.result)
                    &&& request.sequence@ == last.sequence@ && command != last.command ==> decision
                        == CounterAdmissionDecision::Rejected(
                        CounterApplyRejection::ConflictingRetry,
                    )
                    &&& request.sequence@ < last.sequence@ ==> decision
                        == CounterAdmissionDecision::Rejected(
                        CounterApplyRejection::StaleSequence { highest: last.sequence },
                    )
                    &&& request.sequence@ > last.sequence@ + 1 ==> (decision matches
                        CounterAdmissionDecision::Rejected(
                        CounterApplyRejection::SequenceGap { expected },
                    ) && expected@ == last.sequence@ + 1)
                },
            }
        }),
{
    lemma_has(s, session);
}

/// A request that proceeds takes effect on the counter: an addition adds its delta and reports the
/// sum, one that would overflow is refused and adds nothing, and a read reports the counter. The
/// session keeps the request with its result, under the same epoch.
pub proof fn law_request_takes_effect(
    s: Replica,
    session: CounterSessionView,
    request: RequestIdentity,
    command: CounterCommand,
)
    requires
        s.wf(),
        has(s, session),
        request.client_id == session.client_id,
        s.decide(ReplicatedCounterCommand::Counter { request, command })
            == CounterAdmissionDecision::Proceed,
    ensures
        ({
            let replicated = ReplicatedCounterCommand::Counter { request, command };
            let t = s.applied(replicated);
            &&& s.result(replicated) is Ok
            &&& s.result(replicated)->Ok_0 matches CounterApplyResult::Counter(result) && {
                &&& match command {
                    CounterCommand::Add { delta } => if i64::MIN <= s.value + delta@ <= i64::MAX {
                        &&& t.value == s.value + delta@
                        &&& result matches CounterResult::Added { value } && value == s.value
                            + delta@
                    } else {
                        &&& t.value == s.value
                        &&& result == CounterResult::Rejected(
                            CounterRejection::CounterOverflow { current: s.value },
                        )
                    },
                    CounterCommand::Read => {
                        &&& t.value == s.value
                        &&& result == (CounterResult::Value { value: s.value })
                    },
                }
                &&& has(
                    t,
                    CounterSessionView {
                        client_id: session.client_id,
                        epoch: session.epoch,
                        completed: Some(
                            CounterCompletedView { sequence: request.sequence, command, result },
                        ),
                    },
                )
            }
            &&& t.sessions.len() == s.sessions.len()
        }),
{
    lemma_has(s, session);
    let replicated = ReplicatedCounterCommand::Counter { request, command };
    let t = s.applied(replicated);
    let i = slot_of(s.sessions, request.client_id)->0;
    assert(is_slot(s.sessions, request.client_id, i));
    assert(t.sessions[i].client_id == session.client_id);
    assert(t.sessions.contains(t.sessions[i]));
}

/// A fault fails, is never refused before it is replicated, and changes nothing.
pub proof fn law_faults_fail(s: Replica)
    ensures
        s.decide(ReplicatedCounterCommand::Faulty) == CounterAdmissionDecision::Proceed,
        s.decide(ReplicatedCounterCommand::CapacityFault) == CounterAdmissionDecision::Proceed,
        s.result(ReplicatedCounterCommand::Faulty) == Err::<
            CounterApplyResult,
            CounterStateMachineError,
        >(CounterStateMachineError::InjectedFault),
        s.result(ReplicatedCounterCommand::CapacityFault) == Err::<
            CounterApplyResult,
            CounterStateMachineError,
        >(CounterStateMachineError::SessionCapacity),
        s.applied(ReplicatedCounterCommand::Faulty) == s,
        s.applied(ReplicatedCounterCommand::CapacityFault) == s,
{
}

proof fn lemma_first_failure(s: Replica, entries: Seq<ApplyEntry>, n: nat)
    ensures
        s.failing(entries, n) <= n,
        forall|i: int|
            0 <= i < s.failing(entries, n) ==> s.after(entries, i as nat).result(
                (#[trigger] entries[i]).command,
            ) is Ok,
        s.failing(entries, n) < n ==> s.after(entries, s.failing(entries, n)).result(
            entries[s.failing(entries, n) as int].command,
        ) is Err,
    decreases n,
{
    if n > 0 {
        lemma_first_failure(s, entries, (n - 1) as nat);
    }
}

/// A batch is its entries one after the other: each result carries its entry's position and proposal
/// and what applying that command then gave. The replica has applied up to the last entry's index, and
/// an empty batch changes nothing.
pub proof fn law_batch_is_its_entries(
    s: Replica,
    entries: Seq<ApplyEntry>,
    r: Result<Vec<ApplyResult>, CounterStateMachineError>,
)
    requires
        batch_result(r, s, entries),
    ensures
        match r {
            Ok(results) => {
                let t = s.after(entries, entries.len());
                &&& results@.len() == entries.len()
                &&& forall|i: int|
                    0 <= i < entries.len() ==> {
                        let before = s.after(entries, i as nat);
                        let after = s.after(entries, (i + 1) as nat);
                        &&& (#[trigger] results@[i]).index == entries[i].index
                        &&& results@[i].term == entries[i].term
                        &&& results@[i].local_proposal_id == entries[i].local_proposal_id
                        &&& before.result(entries[i].command) == Ok::<
                            CounterApplyResult,
                            CounterStateMachineError,
                        >(results@[i].result)
                        &&& after.value == before.applied(entries[i].command).value
                        &&& after.sessions == before.applied(entries[i].command).sessions
                        &&& after.max_sessions == before.applied(entries[i].command).max_sessions
                        &&& after.applied_index == entries[i].index
                    }
                &&& entries.len() == 0 ==> t == s
                &&& s.failing(entries, entries.len()) == entries.len()
            },
            Err(error) => {
                let n = s.failing(entries, entries.len());
                &&& n < entries.len()
                &&& s.after(entries, n).result(entries[n as int].command) == Err::<
                    CounterApplyResult,
                    CounterStateMachineError,
                >(error)
            },
        },
{
    lemma_first_failure(s, entries, entries.len());
    if r is Ok {
        let results = r->Ok_0;
        assert forall|i: int| 0 <= i < entries.len() implies {
            let before = s.after(entries, i as nat);
            let after = s.after(entries, (i + 1) as nat);
            &&& (#[trigger] results@[i]).index == entries[i].index
            &&& before.result(entries[i].command) == Ok::<
                CounterApplyResult,
                CounterStateMachineError,
            >(results@[i].result)
            &&& after == before.stepped(entries[i])
        } by {
            assert(entries[i] == entries[i]);
        }
    }
}

/// A read gives the counter once the index that it asks for was applied, and not before.
pub proof fn law_read_waits_for_its_index(
    machine: CounterStateMachine,
    required: u64,
    r: Result<i64, CounterStateMachineError>,
)
    requires
        call_ensures(CounterStateMachine::read, (&machine, required), r),
    ensures
        r is Ok <==> machine.replica().applied_index >= required,
        r is Ok ==> r->Ok_0 == machine.replica().value,
        r is Err ==> r->Err_0 == CounterStateMachineError::ReadBarrierNotReached,
{
}

/// What is decided of a command before it is replicated is what the replica decides.
pub proof fn law_admission_is_decided_by_the_replica(
    machine: CounterStateMachine,
    command: ReplicatedCounterCommand,
    r: CounterAdmissionDecision,
)
    requires
        call_ensures(CounterStateMachine::admission_decision, (&machine, command), r),
    ensures
        r == machine.replica().decide(command),
{
}

} // verus!
