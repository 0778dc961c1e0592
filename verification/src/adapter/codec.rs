//! Wire and snapshot formats of the replicated counter.

use vstd::prelude::*;

use crate::adapter::replica::{
    ascending, is_slot, lemma_slot_found, lemma_slots_below, lemma_with_slot, slot_of, slots_below,
    with_slot,
};
use crate::adapter::state_machine::{
    CounterCompletedView, CounterSessionView, CounterStateMachineError, ReplicatedCounterCommand,
};
use crate::bytes::{
    get_le_i64, get_le_u32, get_le_u64, i64_at, le_bytes_i64, le_bytes_u32, le_bytes_u64,
    lemma_i64_written, lemma_part, lemma_u32_at, lemma_u32_written, lemma_u64_at, lemma_u64_written,
    put_le_i64, put_le_u32, put_le_u64, u32_at, u64_at,
};
use crate::types::{
    ClientId, CounterCommand, CounterRejection, CounterResult, Delta, RequestFingerprint,
    RequestIdentity, Sequence, SessionEpoch,
};

verus! {

/// Maximum encoded replicated-command size.
pub const MAX_COMMAND_BYTES: usize = 39;

/// Maximum inline application-snapshot size accepted by the adapter.
pub const MAX_SNAPSHOT_BYTES: usize = 64 * 1024;

/// Schema version both formats start with.
pub const SCHEMA_VERSION: u8 = 1;

// ------------------------------------------------------------------ commands

/// Bytes of a counter operation.
pub open(crate) spec fn operation_bytes(command: CounterCommand) -> Seq<u8> {
    match command {
        CounterCommand::Add { delta } => seq![1u8] + le_bytes_i64(delta@),
        CounterCommand::Read => seq![2u8],
    }
}

/// Bytes of a replicated command.
pub open(crate) spec fn command_bytes(command: ReplicatedCounterCommand) -> Seq<u8> {
    match command {
        ReplicatedCounterCommand::OpenSession { client_id, epoch } => seq![SCHEMA_VERSION, 1u8]
            + le_bytes_u32(client_id@) + le_bytes_u64(epoch@),
        ReplicatedCounterCommand::Counter { request, command } => seq![SCHEMA_VERSION, 2u8]
            + le_bytes_u32(request.client_id@) + le_bytes_u64(request.session_epoch@)
            + le_bytes_u64(request.sequence@) + le_bytes_u64(request.fingerprint@)
            + operation_bytes(command),
        ReplicatedCounterCommand::Faulty => seq![SCHEMA_VERSION, 3u8],
        ReplicatedCounterCommand::CapacityFault => seq![SCHEMA_VERSION, 4u8],
    }
}

/// Counter operation that stands in the last bytes, from position `at` on.
pub open(crate) spec fn operation_of(payload: Seq<u8>, at: int) -> Option<CounterCommand> {
    if payload.len() == at + 9 && payload[at] == 1 && i64_at(payload, at + 1) != 0 {
        Some(CounterCommand::Add { delta: Delta(i64_at(payload, at + 1)) })
    } else if payload.len() == at + 1 && payload[at] == 2 {
        Some(CounterCommand::Read)
    } else {
        None
    }
}

/// Command that the bytes after the schema version stand for.
pub open(crate) spec fn command_of(payload: Seq<u8>) -> Option<ReplicatedCounterCommand> {
    if payload.len() < 2 {
        None
    } else if payload[1] == 1 {
        if payload.len() == 14 && u64_at(payload, 6) != 0 {
            Some(
                ReplicatedCounterCommand::OpenSession {
                    client_id: ClientId(u32_at(payload, 2)),
                    epoch: SessionEpoch(u64_at(payload, 6)),
                },
            )
        } else {
            None
        }
    } else if payload[1] == 2 {
        if payload.len() > 30 && u64_at(payload, 6) != 0 && u64_at(payload, 14) != 0
            && operation_of(payload, 30) is Some {
            Some(
                ReplicatedCounterCommand::Counter {
                    request: RequestIdentity {
                        client_id: ClientId(u32_at(payload, 2)),
                        session_epoch: SessionEpoch(u64_at(payload, 6)),
                        sequence: Sequence(u64_at(payload, 14)),
                        fingerprint: RequestFingerprint(u64_at(payload, 22)),
                    },
                    command: operation_of(payload, 30)->0,
                },
            )
        } else {
            None
        }
    } else if payload.len() == 2 && payload[1] == 3 {
        Some(ReplicatedCounterCommand::Faulty)
    } else if payload.len() == 2 && payload[1] == 4 {
        Some(ReplicatedCounterCommand::CapacityFault)
    } else {
        None
    }
}

/// What decoding a command payload gives.
pub open(crate) spec fn decoded_command(payload: Seq<u8>) -> Result<
    ReplicatedCounterCommand,
    CounterStateMachineError,
> {
    if payload.len() > MAX_COMMAND_BYTES {
        Err(CounterStateMachineError::CommandTooLarge)
    } else if payload.len() > 0 && payload[0] != SCHEMA_VERSION {
        Err(CounterStateMachineError::UnsupportedVersion)
    } else {
        match command_of(payload) {
            Some(command) => Ok(command),
            None => Err(CounterStateMachineError::MalformedCommand),
        }
    }
}

/// Every command that can exist fits its bound and is decoded to what was encoded.
pub proof fn law_commands_round_trip(command: ReplicatedCounterCommand)
    requires
        command.valid(),
    ensures
        command_bytes(command).len() <= MAX_COMMAND_BYTES,
        decoded_command(command_bytes(command)) == Ok::<
            ReplicatedCounterCommand,
            CounterStateMachineError,
        >(command),
{
    let p = command_bytes(command);
    match command {
        ReplicatedCounterCommand::OpenSession { client_id, epoch } => {
            lemma_u32_written(p, 2, client_id@);
            lemma_u64_written(p, 6, epoch@);
        },
        ReplicatedCounterCommand::Counter { request, command: asked } => {
            lemma_u32_written(p, 2, request.client_id@);
            lemma_u64_written(p, 6, request.session_epoch@);
            lemma_u64_written(p, 14, request.sequence@);
            lemma_u64_written(p, 22, request.fingerprint@);
            match asked {
                CounterCommand::Add { delta } => {
                    assert(p.len() == 39);
                    lemma_i64_written(p, 31, delta@);
                },
                CounterCommand::Read => {
                    assert(p.len() == 31);
                },
            }
        },
        _ => {},
    }
}

/// A command has one encoding: bytes that decode are the bytes the command encodes to.
pub proof fn law_command_encoding_is_canonical(payload: Seq<u8>)
    requires
        decoded_command(payload) is Ok,
    ensures
        payload == command_bytes(decoded_command(payload)->Ok_0),
        decoded_command(payload)->Ok_0.valid(),
{
    let command = command_of(payload)->0;
    match command {
        ReplicatedCounterCommand::OpenSession { .. } => {
            lemma_u32_at(payload, 2);
            lemma_u64_at(payload, 6);
            assert(payload =~= payload.subrange(0, 2) + payload.subrange(2, 6) + payload.subrange(
                6,
                14,
            ));
        },
        ReplicatedCounterCommand::Counter { command: asked, .. } => {
            lemma_u32_at(payload, 2);
            lemma_u64_at(payload, 6);
            lemma_u64_at(payload, 14);
            lemma_u64_at(payload, 22);
            assert(payload =~= payload.subrange(0, 2) + payload.subrange(2, 6) + payload.subrange(
                6,
                14,
            ) + payload.subrange(14, 22) + payload.subrange(22, 30) + payload.subrange(
                30,
                payload.len() as int,
            ));
            if asked is Add {
                lemma_u64_at(payload, 31);
                assert(payload.subrange(30, 39) =~= seq![1u8] + payload.subrange(31, 39));
            } else {
                assert(payload.subrange(30, 31) =~= seq![2u8]);
            }
            assert(payload.subrange(30, payload.len() as int) =~= operation_bytes(asked));
        },
        _ => {},
    }
    assert(payload =~= command_bytes(command));
}

fn encode_counter_command(bytes: &mut Vec<u8>, command: CounterCommand)
    ensures
        final(bytes)@ == old(bytes)@ + operation_bytes(command),
{
    match command {
        CounterCommand::Add { delta } => {
            bytes.push(1);
            put_le_i64(bytes, delta.get());
        },
        CounterCommand::Read => {
            bytes.push(2);
        },
    }
    assert(bytes@ =~= old(bytes)@ + operation_bytes(command));
}

/// Encodes a replicated command. Every command that can exist fits its bound.
pub fn encode_command(command: &ReplicatedCounterCommand) -> (r: Result<
    Vec<u8>,
    CounterStateMachineError,
>)
    requires
        command.valid(),
    ensures
        r is Ok,
        r->Ok_0@ == command_bytes(*command),
{
    let mut bytes: Vec<u8> = Vec::new();
    bytes.push(SCHEMA_VERSION);
    match command {
        ReplicatedCounterCommand::OpenSession { client_id, epoch } => {
            bytes.push(1);
            put_le_u32(&mut bytes, client_id.get());
            put_le_u64(&mut bytes, epoch.get());
        },
        ReplicatedCounterCommand::Counter { request, command } => {
            bytes.push(2);
            put_le_u32(&mut bytes, request.client_id.get());
            put_le_u64(&mut bytes, request.session_epoch.get());
            put_le_u64(&mut bytes, request.sequence.get());
            put_le_u64(&mut bytes, request.fingerprint.get());
            encode_counter_command(&mut bytes, *command);
        },
        ReplicatedCounterCommand::Faulty => {
            bytes.push(3);
        },
        ReplicatedCounterCommand::CapacityFault => {
            bytes.push(4);
        },
    }
    assert(bytes@ =~= command_bytes(*command));
    proof {
        law_commands_round_trip(*command);
    }
    if bytes.len() > MAX_COMMAND_BYTES {
        return Err(CounterStateMachineError::CommandTooLarge);
    }
    Ok(bytes)
}

fn decode_counter_command(payload: &[u8], at: usize) -> (r: Option<CounterCommand>)
    requires
        at < payload@.len() <= MAX_COMMAND_BYTES,
    ensures
        r == operation_of(payload@, at as int),
{
    if payload[at] == 1 && payload.len() == at + 9 {
        match Delta::new(get_le_i64(payload, at + 1)) {
            Some(delta) => Some(CounterCommand::Add { delta }),
            None => None,
        }
    } else if payload[at] == 2 && payload.len() == at + 1 {
        Some(CounterCommand::Read)
    } else {
        None
    }
}

/// Decodes a replicated command.
pub fn decode_command(payload: &[u8]) -> (r: Result<
    ReplicatedCounterCommand,
    CounterStateMachineError,
>)
    ensures
        r == decoded_command(payload@),
{
    if payload.len() > MAX_COMMAND_BYTES {
        return Err(CounterStateMachineError::CommandTooLarge);
    }
    if payload.len() > 0 && payload[0] != SCHEMA_VERSION {
        return Err(CounterStateMachineError::UnsupportedVersion);
    }
    let malformed = Err(CounterStateMachineError::MalformedCommand);
    if payload.len() < 2 {
        return malformed;
    }
    match payload[1] {
        1 => {
            if payload.len() != 14 {
                return malformed;
            }
            match SessionEpoch::new(get_le_u64(payload, 6)) {
                Some(epoch) => Ok(
                    ReplicatedCounterCommand::OpenSession {
                        client_id: ClientId::new(get_le_u32(payload, 2)),
                        epoch,
                    },
                ),
                None => malformed,
            }
        },
        2 => {
            if payload.len() <= 30 {
                return malformed;
            }
            let Some(session_epoch) = SessionEpoch::new(get_le_u64(payload, 6)) else {
                return malformed;
            };
            let Some(sequence) = Sequence::new(get_le_u64(payload, 14)) else {
                return malformed;
            };
            let Some(command) = decode_counter_command(payload, 30) else {
                return malformed;
            };
            Ok(
                ReplicatedCounterCommand::Counter {
                    request: RequestIdentity {
                        client_id: ClientId::new(get_le_u32(payload, 2)),
                        session_epoch,
                        sequence,
                        fingerprint: RequestFingerprint::from_digest(get_le_u64(payload, 22)),
                    },
                    command,
                },
            )
        },
        3 => if payload.len() == 2 {
            Ok(ReplicatedCounterCommand::Faulty)
        } else {
            malformed
        },
        4 => if payload.len() == 2 {
            Ok(ReplicatedCounterCommand::CapacityFault)
        } else {
            malformed
        },
        _ => malformed,
    }
}

// ----------------------------------------------------------------- snapshots

/// Bytes before the first session of a snapshot.
pub const SNAPSHOT_HEADER_BYTES: usize = 21;

/// Bytes of one session of a snapshot.
pub const SNAPSHOT_SESSION_BYTES: usize = 38;

/// Reports whether a session bound is nonzero and fits the bounded snapshot representation.
pub fn supports_session_bound(max_sessions: usize) -> (r: bool)
    ensures
        r == (max_sessions != 0 && SNAPSHOT_HEADER_BYTES + max_sessions * SNAPSHOT_SESSION_BYTES
            <= MAX_SNAPSHOT_BYTES),
        r == (0 < max_sessions <= 1724),
{
    max_sessions != 0 && max_sessions <= (MAX_SNAPSHOT_BYTES - SNAPSHOT_HEADER_BYTES)
        / SNAPSHOT_SESSION_BYTES
}

/// Bytes of a cached result.
pub open spec fn result_bytes(result: CounterResult) -> Seq<u8> {
    match result {
        CounterResult::Added { value } => seq![1u8] + le_bytes_i64(value),
        CounterResult::Value { value } => seq![2u8] + le_bytes_i64(value),
        CounterResult::Rejected(CounterRejection::CounterOverflow { current }) => seq![3u8]
            + le_bytes_i64(current),
    }
}

/// Bytes of a cached completion. No completion is all zeroes.
pub open(crate) spec fn completed_bytes(completed: Option<CounterCompletedView>) -> Seq<u8> {
    match completed {
        None => le_bytes_u64(0) + seq![0u8] + le_bytes_i64(0) + seq![0u8] + le_bytes_i64(0),
        Some(done) => le_bytes_u64(done.sequence@) + (match done.command {
            CounterCommand::Add { delta } => seq![1u8] + le_bytes_i64(delta@),
            CounterCommand::Read => seq![2u8] + le_bytes_i64(0),
        }) + result_bytes(done.result),
    }
}

/// Bytes of one session.
pub open(crate) spec fn session_bytes(session: CounterSessionView) -> Seq<u8> {
    le_bytes_u32(session.client_id@) + le_bytes_u64(session.epoch@) + completed_bytes(
        session.completed,
    )
}

/// Bytes of the sessions, one after the other.
pub open(crate) spec fn sessions_bytes(sessions: Seq<CounterSessionView>) -> Seq<u8>
    decreases sessions.len(),
{
    if sessions.len() == 0 {
        Seq::empty()
    } else {
        sessions_bytes(sessions.drop_last()) + session_bytes(sessions.last())
    }
}

/// Bytes of a whole snapshot.
pub open(crate) spec fn snapshot_bytes(
    applied_index: u64,
    value: i64,
    sessions: Seq<CounterSessionView>,
) -> Seq<u8> {
    seq![SCHEMA_VERSION] + le_bytes_u64(applied_index) + le_bytes_i64(value) + le_bytes_u32(
        sessions.len() as u32,
    ) + sessions_bytes(sessions)
}

/// Result that a tag and a value stand for.
pub open spec fn result_of(tag: u8, value: i64) -> Option<CounterResult> {
    if tag == 1 {
        Some(CounterResult::Added { value })
    } else if tag == 2 {
        Some(CounterResult::Value { value })
    } else if tag == 3 {
        Some(CounterResult::Rejected(CounterRejection::CounterOverflow { current: value }))
    } else {
        None
    }
}

/// Operation that a tag and a value stand for.
pub open(crate) spec fn cached_operation_of(tag: u8, value: i64) -> Option<CounterCommand> {
    if tag == 1 && value != 0 {
        Some(CounterCommand::Add { delta: Delta(value) })
    } else if tag == 2 && value == 0 {
        Some(CounterCommand::Read)
    } else {
        None
    }
}

/// Cached completion that stands at position `at`: `None` when none does, `Some(None)` for an
/// empty cache.
pub open(crate) spec fn completed_of(payload: Seq<u8>, at: int) -> Option<
    Option<CounterCompletedView>,
> {
    let sequence = u64_at(payload, at);
    let command = cached_operation_of(payload[at + 8], i64_at(payload, at + 9));
    let result = result_of(payload[at + 17], i64_at(payload, at + 18));
    if sequence == 0 {
        if payload[at + 8] == 0 && i64_at(payload, at + 9) == 0 && payload[at + 17] == 0 && i64_at(
            payload,
            at + 18,
        ) == 0 {
            Some(None)
        } else {
            None
        }
    } else if command is Some && result is Some {
        Some(
            Some(
                CounterCompletedView {
                    sequence: Sequence(sequence),
                    command: command->0,
                    result: result->0,
                },
            ),
        )
    } else {
        None
    }
}

/// Session that stands at position `at`.
pub open(crate) spec fn session_of(payload: Seq<u8>, at: int) -> Option<CounterSessionView> {
    match completed_of(payload, at + 12) {
        Some(completed) => if u64_at(payload, at + 4) != 0 {
            Some(
                CounterSessionView {
                    client_id: ClientId(u32_at(payload, at)),
                    epoch: SessionEpoch(u64_at(payload, at + 4)),
                    completed,
                },
            )
        } else {
            None
        },
        None => None,
    }
}

/// The first `n` sessions of a snapshot, in client order; none when one of them is malformed or
/// repeats a client.
pub open(crate) spec fn collected(payload: Seq<u8>, n: nat) -> Option<Seq<CounterSessionView>>
    decreases n,
{
    if n == 0 {
        Some(Seq::empty())
    } else {
        match (collected(payload, (n - 1) as nat), session_of(payload, 21 + 38 * (n - 1))) {
            (Some(sessions), Some(session)) => if slot_of(sessions, session.client_id) is None {
                Some(with_slot(sessions, session))
            } else {
                None
            },
            _ => None,
        }
    }
}

/// What decoding a snapshot payload gives.
pub open(crate) spec fn decoded_snapshot(payload: Seq<u8>, max_sessions: nat) -> Result<
    (u64, i64, Seq<CounterSessionView>),
    CounterStateMachineError,
> {
    let count = u32_at(payload, 17);
    if payload.len() > MAX_SNAPSHOT_BYTES {
        Err(CounterStateMachineError::SnapshotTooLarge)
    } else if payload.len() > 0 && payload[0] != SCHEMA_VERSION {
        Err(CounterStateMachineError::UnsupportedVersion)
    } else if payload.len() < SNAPSHOT_HEADER_BYTES {
        Err(CounterStateMachineError::MalformedSnapshot)
    } else if count > max_sessions {
        Err(CounterStateMachineError::SessionCapacity)
    } else if payload.len() != SNAPSHOT_HEADER_BYTES + SNAPSHOT_SESSION_BYTES * count {
        Err(CounterStateMachineError::MalformedSnapshot)
    } else {
        match collected(payload, count as nat) {
            Some(sessions) => Ok((u64_at(payload, 1), i64_at(payload, 9), sessions)),
            None => Err(CounterStateMachineError::MalformedSnapshot),
        }
    }
}

/// Every session takes as many bytes as another, and stands where its place says.
proof fn lemma_sessions_bytes(sessions: Seq<CounterSessionView>, k: int)
    ensures
        sessions_bytes(sessions).len() == 38 * sessions.len(),
        0 <= k < sessions.len() ==> sessions_bytes(sessions).subrange(38 * k, 38 * k + 38)
            == session_bytes(sessions[k]),
    decreases sessions.len(),
{
    if sessions.len() > 0 {
        let rest = sessions.drop_last();
        lemma_sessions_bytes(rest, k);
        if 0 <= k < rest.len() {
            assert(sessions_bytes(sessions).subrange(38 * k, 38 * k + 38) =~= sessions_bytes(
                rest,
            ).subrange(38 * k, 38 * k + 38));
        } else if k == rest.len() {
            assert(sessions_bytes(sessions).subrange(38 * k, 38 * k + 38) =~= session_bytes(
                sessions[k],
            ));
        }
    }
}

/// A session written at `at` is read back.
proof fn lemma_session_written(payload: Seq<u8>, at: int, session: CounterSessionView)
    requires
        session.valid(),
        0 <= at,
        at + 38 <= payload.len(),
        payload.subrange(at, at + 38) == session_bytes(session),
    ensures
        session_of(payload, at) == Some(session),
{
    let b = session_bytes(session);
    let c = completed_bytes(session.completed);
    lemma_part(payload, at, b, 0, 4);
    lemma_part(payload, at, b, 4, 12);
    lemma_part(payload, at, b, 12, 20);
    lemma_part(payload, at, b, 20, 21);
    lemma_part(payload, at, b, 21, 29);
    lemma_part(payload, at, b, 29, 30);
    lemma_part(payload, at, b, 30, 38);
    assert(b.subrange(0, 4) =~= le_bytes_u32(session.client_id@));
    assert(b.subrange(4, 12) =~= le_bytes_u64(session.epoch@));
    assert(b.subrange(12, 20) =~= c.subrange(0, 8));
    assert(b.subrange(20, 21) =~= c.subrange(8, 9));
    assert(b.subrange(21, 29) =~= c.subrange(9, 17));
    assert(b.subrange(29, 30) =~= c.subrange(17, 18));
    assert(b.subrange(30, 38) =~= c.subrange(18, 26));
    assert(payload[at + 20] == payload.subrange(at + 20, at + 21)[0]);
    assert(payload[at + 29] == payload.subrange(at + 29, at + 30)[0]);
    lemma_u32_written(payload, at, session.client_id@);
    lemma_u64_written(payload, at + 4, session.epoch@);
    match session.completed {
        None => {
            assert(c.subrange(0, 8) =~= le_bytes_u64(0));
            assert(c.subrange(9, 17) =~= le_bytes_i64(0));
            assert(c.subrange(18, 26) =~= le_bytes_i64(0));
            lemma_u64_written(payload, at + 12, 0);
            lemma_i64_written(payload, at + 21, 0);
            lemma_i64_written(payload, at + 30, 0);
        },
        Some(done) => {
            assert(c.subrange(0, 8) =~= le_bytes_u64(done.sequence@));
            lemma_u64_written(payload, at + 12, done.sequence@);
            let operand = match done.command {
                CounterCommand::Add { delta } => delta@,
                CounterCommand::Read => 0,
            };
            assert(c.subrange(9, 17) =~= le_bytes_i64(operand));
            lemma_i64_written(payload, at + 21, operand);
            let outcome = match done.result {
                CounterResult::Added { value } => value,
                CounterResult::Value { value } => value,
                CounterResult::Rejected(CounterRejection::CounterOverflow { current }) => current,
            };
            assert(c.subrange(18, 26) =~= le_bytes_i64(outcome));
            lemma_i64_written(payload, at + 30, outcome);
        },
    }
}

/// Sessions in order, written one after the other, are collected as they were.
proof fn lemma_collected(payload: Seq<u8>, sessions: Seq<CounterSessionView>, n: nat)
    requires
        ascending(sessions),
        n <= sessions.len(),
        payload.len() == 21 + 38 * sessions.len(),
        payload.subrange(21, payload.len() as int) == sessions_bytes(sessions),
        forall|i: int| 0 <= i < sessions.len() ==> (#[trigger] sessions[i]).valid(),
    ensures
        collected(payload, n) == Some(sessions.take(n as int)),
    decreases n,
{
    if n == 0 {
        assert(sessions.take(0) =~= Seq::empty());
    } else {
        let m = (n - 1) as nat;
        lemma_collected(payload, sessions, m);
        lemma_sessions_bytes(sessions, m as int);
        let k = m as int;
        let at = 21 + 38 * k;
        let tail = payload.subrange(21, payload.len() as int);
        assert(payload.subrange(at, at + 38) =~= tail.subrange(38 * k, 38 * k + 38));
        assert(sessions[m as int].valid());
        lemma_session_written(payload, at, sessions[m as int]);
        let before = sessions.take(m as int);
        let session = sessions[m as int];
        assert forall|i: int| !is_slot(before, session.client_id, i) by {
            if 0 <= i < before.len() {
                assert(sessions[i].client_id@ < sessions[m as int].client_id@);
            }
        }
        assert(slots_below(before, session.client_id) == m) by {
            if m > 0 {
                assert(sessions[m - 1].client_id@ < sessions[m as int].client_id@);
                assert(before.last() == sessions[m - 1]);
            }
        }
        assert(with_slot(before, session) =~= sessions.take(n as int));
    }
}

/// A snapshot of a replica's sessions is restored to exactly what was captured.
pub proof fn law_snapshots_round_trip(
    applied_index: u64,
    value: i64,
    sessions: Seq<CounterSessionView>,
    max_sessions: nat,
)
    requires
        ascending(sessions),
        forall|i: int| 0 <= i < sessions.len() ==> (#[trigger] sessions[i]).valid(),
        sessions.len() <= max_sessions <= 1724,
    ensures
        snapshot_bytes(applied_index, value, sessions).len() <= MAX_SNAPSHOT_BYTES,
        decoded_snapshot(snapshot_bytes(applied_index, value, sessions), max_sessions) == Ok::<
            (u64, i64, Seq<CounterSessionView>),
            CounterStateMachineError,
        >((applied_index, value, sessions)),
{
    let p = snapshot_bytes(applied_index, value, sessions);
    lemma_sessions_bytes(sessions, 0);
    lemma_u64_written(p, 1, applied_index);
    lemma_i64_written(p, 9, value);
    lemma_u32_written(p, 17, sessions.len() as u32);
    assert(p.subrange(21, p.len() as int) =~= sessions_bytes(sessions));
    lemma_collected(p, sessions, sessions.len());
    assert(sessions.take(sessions.len() as int) =~= sessions);
}

fn encode_completed(bytes: &mut Vec<u8>, completed: Option<CounterCompletedView>)
    ensures
        final(bytes)@ == old(bytes)@ + completed_bytes(completed),
{
    match completed {
        None => {
            put_le_u64(bytes, 0);
            bytes.push(0);
            put_le_i64(bytes, 0);
            bytes.push(0);
            put_le_i64(bytes, 0);
        },
        Some(done) => {
            put_le_u64(bytes, done.sequence.get());
            match done.command {
                CounterCommand::Add { delta } => {
                    bytes.push(1);
                    put_le_i64(bytes, delta.get());
                },
                CounterCommand::Read => {
                    bytes.push(2);
                    put_le_i64(bytes, 0);
                },
            }
            match done.result {
                CounterResult::Added { value } => {
                    bytes.push(1);
                    put_le_i64(bytes, value);
                },
                CounterResult::Value { value } => {
                    bytes.push(2);
                    put_le_i64(bytes, value);
                },
                CounterResult::Rejected(CounterRejection::CounterOverflow { current }) => {
                    bytes.push(3);
                    put_le_i64(bytes, current);
                },
            }
        },
    }
    assert(bytes@ =~= old(bytes)@ + completed_bytes(completed));
}

/// Encodes a snapshot, unless it exceeds its bound.
pub fn encode_snapshot(
    applied_index: u64,
    value: i64,
    sessions: &Vec<CounterSessionView>,
) -> (r: Result<Vec<u8>, CounterStateMachineError>)
    ensures
        match r {
            Ok(bytes) => sessions@.len() <= 1724 && bytes@ == snapshot_bytes(
                applied_index,
                value,
                sessions@,
            ),
            Err(error) => sessions@.len() > 1724 && error is SnapshotTooLarge,
        },
{
    if sessions.len() > (MAX_SNAPSHOT_BYTES - SNAPSHOT_HEADER_BYTES) / SNAPSHOT_SESSION_BYTES {
        return Err(CounterStateMachineError::SnapshotTooLarge);
    }
    let mut bytes: Vec<u8> = Vec::new();
    bytes.push(SCHEMA_VERSION);
    put_le_u64(&mut bytes, applied_index);
    put_le_i64(&mut bytes, value);
    put_le_u32(&mut bytes, sessions.len() as u32);
    let ghost header = seq![SCHEMA_VERSION] + le_bytes_u64(applied_index) + le_bytes_i64(value)
        + le_bytes_u32(sessions@.len() as u32);
    assert(bytes@ =~= header);
    let mut i: usize = 0;
    proof {
        assert(header + sessions_bytes(sessions@.take(0)) =~= header);
    }
    while i < sessions.len()
        invariant
            i <= sessions.len(),
            bytes@ == header + sessions_bytes(sessions@.take(i as int)),
        decreases sessions.len() - i,
    {
        let session = sessions[i];
        let ghost before = bytes@;
        put_le_u32(&mut bytes, session.client_id.get());
        put_le_u64(&mut bytes, session.epoch.get());
        encode_completed(&mut bytes, session.completed);
        proof {
            let more = sessions@.take(i + 1);
            assert(more.drop_last() =~= sessions@.take(i as int));
            assert(more.last() == session);
            assert(bytes@ =~= header + sessions_bytes(more));
        }
        i = i + 1;
    }
    assert(sessions@.take(i as int) =~= sessions@);
    Ok(bytes)
}

fn decode_completed(payload: &[u8], at: usize) -> (r: Option<Option<CounterCompletedView>>)
    requires
        at + 26 <= payload@.len() <= MAX_SNAPSHOT_BYTES,
    ensures
        r == completed_of(payload@, at as int),
{
    let sequence: u64 = get_le_u64(payload, at);
    let command_tag: u8 = payload[at + 8];
    let command_value: i64 = get_le_i64(payload, at + 9);
    let result_tag: u8 = payload[at + 17];
    let result_value: i64 = get_le_i64(payload, at + 18);
    let Some(sequence) = Sequence::new(sequence) else {
        return if command_tag == 0 && command_value == 0 && result_tag == 0 && result_value == 0 {
            Some(None)
        } else {
            None
        };
    };
    let command = match command_tag {
        1 => match Delta::new(command_value) {
            Some(delta) => CounterCommand::Add { delta },
            None => {
                return None;
            },
        },
        2 => {
            if command_value != 0 {
                return None;
            }
            CounterCommand::Read
        },
        _ => {
            return None;
        },
    };
    let result = match result_tag {
        1 => CounterResult::Added { value: result_value },
        2 => CounterResult::Value { value: result_value },
        3 => CounterResult::Rejected(
            CounterRejection::CounterOverflow { current: result_value },
        ),
        _ => {
            return None;
        },
    };
    Some(Some(CounterCompletedView { sequence, command, result }))
}

fn decode_session(payload: &[u8], at: usize) -> (r: Option<CounterSessionView>)
    requires
        at + 38 <= payload@.len() <= MAX_SNAPSHOT_BYTES,
    ensures
        r == session_of(payload@, at as int),
        r is Some ==> r->0.valid(),
{
    let client_id = ClientId::new(get_le_u32(payload, at));
    let Some(epoch) = SessionEpoch::new(get_le_u64(payload, at + 4)) else {
        return None;
    };
    let Some(completed) = decode_completed(payload, at + 12) else {
        return None;
    };
    Some(CounterSessionView { client_id, epoch, completed })
}

/// Adds one session in client order, unless its client already has one.
fn insert_session(sessions: &mut Vec<CounterSessionView>, session: CounterSessionView) -> (r: bool)
    requires
        ascending(old(sessions)@),
    ensures
        r == (slot_of(old(sessions)@, session.client_id) is None),
        final(sessions)@ == if r {
            with_slot(old(sessions)@, session)
        } else {
            old(sessions)@
        },
        ascending(final(sessions)@),
{
    let client = session.client_id;
    let ghost start = sessions@;
    proof {
        lemma_slots_below(start, client);
    }
    let mut i: usize = sessions.len();
    while i > 0 && sessions[i - 1].client_id.get() >= client.get()
        invariant
            i <= sessions.len(),
            sessions@ == start,
            slots_below(start, client) <= i,
            forall|k: int|
                0 <= k < slots_below(start, client) ==> (#[trigger] start[k]).client_id@ < client@,
            forall|k: int| i <= k < start.len() ==> (#[trigger] start[k]).client_id@ >= client@,
        decreases i,
    {
        i = i - 1;
    }
    assert(i == slots_below(start, client)) by {
        if slots_below(start, client) < i {
            assert(start[i - 1].client_id@ >= client@);
        }
    }
    if i < sessions.len() && sessions[i].client_id.get() == client.get() {
        proof {
            assert(is_slot(start, client, i as int));
            lemma_slot_found(start, client, i as int);
        }
        return false;
    }
    proof {
        assert forall|k: int| !is_slot(start, client, k) by {
            if 0 <= k < start.len() {
                if k < i {
                    assert(start[k].client_id@ < client@);
                } else if k > i {
                    assert(start[i as int].client_id@ < start[k].client_id@);
                }
            }
        }
        lemma_with_slot(start, session);
    }
    sessions.insert(i, session);
    true
}

/// Decodes a snapshot into its applied index, counter value and sessions in client order.
pub fn decode_snapshot(payload: &[u8], max_sessions: usize) -> (r: Result<
    (u64, i64, Vec<CounterSessionView>),
    CounterStateMachineError,
>)
    ensures
        match r {
            Ok((applied_index, value, sessions)) => {
                &&& decoded_snapshot(payload@, max_sessions as nat) == Ok::<
                    (u64, i64, Seq<CounterSessionView>),
                    CounterStateMachineError,
                >((applied_index, value, sessions@))
                &&& ascending(sessions@)
                &&& sessions@.len() <= max_sessions
                &&& forall|i: int| 0 <= i < sessions@.len() ==> (#[trigger] sessions@[i]).valid()
            },
            Err(error) => decoded_snapshot(payload@, max_sessions as nat) == Err::<
                (u64, i64, Seq<CounterSessionView>),
                CounterStateMachineError,
            >(error),
        },
{
    if payload.len() > MAX_SNAPSHOT_BYTES {
        return Err(CounterStateMachineError::SnapshotTooLarge);
    }
    if payload.len() > 0 && payload[0] != SCHEMA_VERSION {
        return Err(CounterStateMachineError::UnsupportedVersion);
    }
    if payload.len() < SNAPSHOT_HEADER_BYTES {
        return Err(CounterStateMachineError::MalformedSnapshot);
    }
    let applied_index: u64 = get_le_u64(payload, 1);
    let value: i64 = get_le_i64(payload, 9);
    let count: u32 = get_le_u32(payload, 17);
    if count as u64 > max_sessions as u64 {
        return Err(CounterStateMachineError::SessionCapacity);
    }
    if payload.len() as u64 != 21 + 38 * (count as u64) {
        return Err(CounterStateMachineError::MalformedSnapshot);
    }
    let mut sessions: Vec<CounterSessionView> = Vec::new();
    let mut n: usize = 0;
    while n < count as usize
        invariant
            n <= count <= max_sessions,
            payload@.len() == 21 + 38 * count,
            payload@.len() <= MAX_SNAPSHOT_BYTES,
            payload@[0] == SCHEMA_VERSION,
            count == u32_at(payload@, 17),
            collected(payload@, n as nat) == Some(sessions@),
            ascending(sessions@),
            sessions@.len() == n,
            forall|i: int| 0 <= i < sessions@.len() ==> (#[trigger] sessions@[i]).valid(),
        decreases count - n,
    {
        let ghost before = sessions@;
        let found = decode_session(payload, 21 + 38 * n);
        match found {
            None => {
                proof {
                    lemma_collected_stops(payload@, (n + 1) as nat, count as nat);
                }
                return Err(CounterStateMachineError::MalformedSnapshot);
            },
            Some(session) => {
                if !insert_session(&mut sessions, session) {
                    proof {
                        lemma_collected_stops(payload@, (n + 1) as nat, count as nat);
                    }
                    return Err(CounterStateMachineError::MalformedSnapshot);
                }
                proof {
                    lemma_slots_below(before, session.client_id);
                    let at = slots_below(before, session.client_id) as int;
                    assert forall|i: int| 0 <= i < sessions@.len() implies (
                    #[trigger] sessions@[i]).valid() by {
                        if i < at {
                            assert(sessions@[i] == before[i]);
                        } else if i > at {
                            assert(sessions@[i] == before[i - 1]);
                        }
                    }
                }
            },
        }
        n = n + 1;
    }
    Ok((applied_index, value, sessions))
}

/// A malformed session is never made up for.
proof fn lemma_collected_stops(payload: Seq<u8>, n: nat, count: nat)
    requires
        n <= count,
        collected(payload, n) is None,
    ensures
        collected(payload, count) is None,
    decreases count,
{
    if n < count {
        lemma_collected_stops(payload, n, (count - 1) as nat);
    }
}

} // verus!
