//! Byte layouts of what is stored and sent.

use rafter::Message;
use vstd::prelude::*;

use crate::adapter::codec::{
    decode_command, decode_snapshot, encode_command, encode_snapshot, session_bytes, sessions_bytes,
    supports_session_bound,
};
use crate::adapter::state_machine::{
    CounterSessionView, CounterStateMachineError, ReplicatedCounterCommand,
};
use crate::bytes::{
    be_bytes_u32, be_bytes_u64, be_u32_at, be_u64_at, le_bytes_u32, le_bytes_u64, u32_at,
};
use crate::checksum::crc32_of;
use crate::node::host_registry::{
    ActivationIntent, BootstrapIntent, HostRecord, RegistryError, RetirementIntent,
};
use crate::node::peer_link::{
    admit_outbound, encode_frame_with, encode_preamble, read_frame_checked, read_frame_length,
    read_preamble, receive_connection, transport_state, Diagnostics, FrameError, LinkCounters,
    LinkError, LinkStep, PeerFrame, PeerGroupCodecError, PeerGroupId, ReadEvent, TransportState,
};
use crate::node::record::{
    decode_checked, encode, header_bytes, lifecycle_byte, outstanding_bytes, outstanding_item_bytes,
    record_bytes, terminal_bytes, terminal_item_bytes, Corruption, OutstandingPhase,
    OutstandingRequest, RecordView, StoreError, StoredRecord, TerminalFailure, TerminalRequest,
};
use crate::types::{CounterCommand, CounterRejection, CounterResult, GroupLifecycle};

verus! {

/// The field of `width` bytes at `at`.
pub open spec fn field(bytes: Seq<u8>, at: int, width: int) -> Seq<u8> {
    bytes.subrange(at, at + width)
}

/// A number of four bytes is stored lowest byte first, or, on the wire, highest byte first.
pub proof fn law_fields_are_positional(value: u32)
    ensures
        le_bytes_u32(value).len() == 4,
        le_bytes_u32(value)[0] == value % 256,
        le_bytes_u32(value)[1] == (value / 256) % 256,
        le_bytes_u32(value)[2] == (value / 65536) % 256,
        le_bytes_u32(value)[3] == value / 16777216,
        be_bytes_u32(value).len() == 4,
        be_bytes_u32(value)[3] == value % 256,
        be_bytes_u32(value)[0] == value / 16777216,
        be_bytes_u32(value) == le_bytes_u32(value).reverse(),
{
    assert((value & 0xff) as u8 == value % 256) by (bit_vector);
    assert(((value >> 8) & 0xff) as u8 == (value / 256) % 256) by (bit_vector);
    assert(((value >> 16) & 0xff) as u8 == (value / 65536) % 256) by (bit_vector);
    assert(((value >> 24) & 0xff) as u8 == value / 16777216) by (bit_vector);
}

/// A number of eight bytes is its low half and then its high half, each lowest byte first.
pub proof fn law_wide_fields_are_positional(value: u64)
    ensures
        le_bytes_u64(value).len() == 8,
        le_bytes_u64(value) == le_bytes_u32((value % 0x1_0000_0000) as u32) + le_bytes_u32(
            (value / 0x1_0000_0000) as u32,
        ),
        be_bytes_u64(value) == le_bytes_u64(value).reverse(),
{
    let low = (value % 0x1_0000_0000) as u32;
    let high = (value / 0x1_0000_0000) as u32;
    assert((value & 0xff) as u8 == (((value % 0x1_0000_0000) as u32) & 0xff) as u8) by (bit_vector);
    assert(((value >> 8) & 0xff) as u8 == ((((value % 0x1_0000_0000) as u32) >> 8) & 0xff) as u8)
        by (bit_vector);
    assert(((value >> 16) & 0xff) as u8 == ((((value % 0x1_0000_0000) as u32) >> 16) & 0xff) as u8)
        by (bit_vector);
    assert(((value >> 24) & 0xff) as u8 == ((((value % 0x1_0000_0000) as u32) >> 24) & 0xff) as u8)
        by (bit_vector);
    assert(((value >> 32) & 0xff) as u8 == (((value / 0x1_0000_0000) as u32) & 0xff) as u8)
        by (bit_vector);
    assert(((value >> 40) & 0xff) as u8 == ((((value / 0x1_0000_0000) as u32) >> 8) & 0xff) as u8)
        by (bit_vector);
    assert(((value >> 48) & 0xff) as u8 == ((((value / 0x1_0000_0000) as u32) >> 16) & 0xff) as u8)
        by (bit_vector);
    assert(((value >> 56) & 0xff) as u8 == ((((value / 0x1_0000_0000) as u32) >> 24) & 0xff) as u8)
        by (bit_vector);
    assert(le_bytes_u64(value) =~= le_bytes_u32(low) + le_bytes_u32(high));
}

// ------------------------------------------------------------------- commands

/// A replicated command is the schema's version one, a tag, and its fields in order: client, epoch, and
/// for a counter request its sequence, its fingerprint and its operation.
pub proof fn law_command_layout(
    command: ReplicatedCounterCommand,
    r: Result<Vec<u8>, CounterStateMachineError>,
)
    requires
        call_ensures(encode_command, (&command,), r),
    ensures
        r is Ok,
        r->Ok_0@[0] == 1,
        command matches ReplicatedCounterCommand::OpenSession { client_id, epoch } ==> {
            let b = r->Ok_0@;
            &&& b.len() == 14
            &&& b[1] == 1
            &&& field(b, 2, 4) == le_bytes_u32(client_id@)
            &&& field(b, 6, 8) == le_bytes_u64(epoch@)
        },
        command matches ReplicatedCounterCommand::Counter { request, command: operation } ==> {
            let b = r->Ok_0@;
            &&& b[1] == 2
            &&& field(b, 2, 4) == le_bytes_u32(request.client_id@)
            &&& field(b, 6, 8) == le_bytes_u64(request.session_epoch@)
            &&& field(b, 14, 8) == le_bytes_u64(request.sequence@)
            &&& field(b, 22, 8) == le_bytes_u64(request.fingerprint@)
            &&& operation == CounterCommand::Read ==> b.len() == 31 && b[30] == 2
            &&& operation matches CounterCommand::Add { delta } ==> b.len() == 39 && b[30] == 1
                && field(b, 31, 8) == le_bytes_u64(delta@ as u64)
        },
        command == ReplicatedCounterCommand::Faulty ==> r->Ok_0@ == seq![1u8, 3u8],
        command == ReplicatedCounterCommand::CapacityFault ==> r->Ok_0@ == seq![1u8, 4u8],
{
    let b = r->Ok_0@;
    match command {
        ReplicatedCounterCommand::OpenSession { client_id, epoch } => {
            assert(field(b, 2, 4) =~= le_bytes_u32(client_id@));
            assert(field(b, 6, 8) =~= le_bytes_u64(epoch@));
        },
        ReplicatedCounterCommand::Counter { request, command: operation } => {
            assert(field(b, 2, 4) =~= le_bytes_u32(request.client_id@));
            assert(field(b, 6, 8) =~= le_bytes_u64(request.session_epoch@));
            assert(field(b, 14, 8) =~= le_bytes_u64(request.sequence@));
            assert(field(b, 22, 8) =~= le_bytes_u64(request.fingerprint@));
            if let CounterCommand::Add { delta } = operation {
                assert(field(b, 31, 8) =~= le_bytes_u64(delta@ as u64));
            }
        },
        _ => {},
    }
}

/// A payload above 39 bytes is too large, one of another version is not supported, and any other that
/// is no command is malformed.
pub proof fn law_command_faults(
    payload: &[u8],
    r: Result<ReplicatedCounterCommand, CounterStateMachineError>,
)
    requires
        call_ensures(decode_command, (payload,), r),
    ensures
        r == Err::<ReplicatedCounterCommand, CounterStateMachineError>(
            CounterStateMachineError::CommandTooLarge,
        ) <==> payload@.len() > 39,
        r == Err::<ReplicatedCounterCommand, CounterStateMachineError>(
            CounterStateMachineError::UnsupportedVersion,
        ) <==> 0 < payload@.len() <= 39 && payload@[0] != 1,
        payload@.len() < 2 && (payload@.len() == 1 ==> payload@[0] == 1) ==> r == Err::<
            ReplicatedCounterCommand,
            CounterStateMachineError,
        >(CounterStateMachineError::MalformedCommand),
        r is Err ==> r->Err_0 == CounterStateMachineError::CommandTooLarge || r->Err_0
            == CounterStateMachineError::UnsupportedVersion || r->Err_0
            == CounterStateMachineError::MalformedCommand,
{
}

// ------------------------------------------------------------------ snapshots

proof fn lemma_session_width(session: CounterSessionView)
    ensures
        session_bytes(session).len() == 38,
{
}

proof fn lemma_sessions_width(sessions: Seq<CounterSessionView>, i: int)
    requires
        0 <= i < sessions.len(),
    ensures
        sessions_bytes(sessions).len() == 38 * sessions.len(),
        sessions_bytes(sessions).subrange(38 * i, 38 * i + 38) == session_bytes(sessions[i]),
    decreases sessions.len(),
{
    let rest = sessions.drop_last();
    lemma_session_width(sessions.last());
    lemma_sessions_len(rest);
    if i < rest.len() {
        lemma_sessions_width(rest, i);
        assert(sessions_bytes(sessions).subrange(38 * i, 38 * i + 38) =~= sessions_bytes(
            rest,
        ).subrange(38 * i, 38 * i + 38));
    } else {
        assert(sessions_bytes(sessions).subrange(38 * i, 38 * i + 38) =~= session_bytes(
            sessions[i],
        ));
    }
}

proof fn lemma_sessions_len(sessions: Seq<CounterSessionView>)
    ensures
        sessions_bytes(sessions).len() == 38 * sessions.len(),
    decreases sessions.len(),
{
    if sessions.len() > 0 {
        lemma_session_width(sessions.last());
        lemma_sessions_len(sessions.drop_last());
    }
}

/// A session is its client and its epoch, then the last completed sequence, or zero, its command and
/// its result: 38 bytes in all.
pub proof fn law_session_layout(session: CounterSessionView)
    ensures
        ({
            let b = session_bytes(session);
            &&& b.len() == 38
            &&& field(b, 0, 4) == le_bytes_u32(session.client_id@)
            &&& field(b, 4, 8) == le_bytes_u64(session.epoch@)
            &&& session.completed is None ==> field(b, 12, 8) == le_bytes_u64(0) && b[20] == 0
                && b[29] == 0
            &&& session.completed matches Some(done) ==> {
                &&& field(b, 12, 8) == le_bytes_u64(done.sequence@)
                &&& done.command == CounterCommand::Read ==> b[20] == 2 && field(b, 21, 8)
                    == le_bytes_u64(0)
                &&& done.command matches CounterCommand::Add { delta } ==> b[20] == 1 && field(
                    b,
                    21,
                    8,
                ) == le_bytes_u64(delta@ as u64)
                &&& done.result matches CounterResult::Added { value: sum } ==> b[29] == 1 && field(
                    b,
                    30,
                    8,
                ) == le_bytes_u64(sum as u64)
                &&& done.result matches CounterResult::Value { value: seen } ==> b[29] == 2 && field(
                    b,
                    30,
                    8,
                ) == le_bytes_u64(seen as u64)
                &&& done.result matches CounterResult::Rejected(
                    CounterRejection::CounterOverflow { current },
                ) ==> b[29] == 3 && field(b, 30, 8) == le_bytes_u64(current as u64)
            }
        }),
{
    let b = session_bytes(session);
    assert(0i64 as u64 == 0u64) by (bit_vector);
    assert(field(b, 0, 4) =~= le_bytes_u32(session.client_id@));
    assert(field(b, 4, 8) =~= le_bytes_u64(session.epoch@));
    match session.completed {
        None => {
            assert(field(b, 12, 8) =~= le_bytes_u64(0));
        },
        Some(done) => {
            assert(field(b, 12, 8) =~= le_bytes_u64(done.sequence@));
            match done.command {
                CounterCommand::Add { delta } => assert(field(b, 21, 8) =~= le_bytes_u64(
                    delta@ as u64,
                )),
                CounterCommand::Read => assert(field(b, 21, 8) =~= le_bytes_u64(0)),
            }
            match done.result {
                CounterResult::Added { value: n } => assert(field(b, 30, 8) =~= le_bytes_u64(
                    n as u64,
                )),
                CounterResult::Value { value: n } => assert(field(b, 30, 8) =~= le_bytes_u64(
                    n as u64,
                )),
                CounterResult::Rejected(CounterRejection::CounterOverflow { current }) => assert(
                field(b, 30, 8) =~= le_bytes_u64(current as u64)),
            }
        },
    }
}

/// A snapshot is the schema's version one, the applied index, the value, the number of sessions, and
/// then the sessions in order.
pub proof fn law_snapshot_layout(
    applied_index: u64,
    value: i64,
    sessions: Vec<CounterSessionView>,
    r: Result<Vec<u8>, CounterStateMachineError>,
    i: int,
)
    requires
        call_ensures(encode_snapshot, (applied_index, value, &sessions), r),
        0 <= i < sessions@.len(),
    ensures
        r is Ok <==> sessions@.len() <= 1724,
        r is Ok ==> {
            let b = r->Ok_0@;
            &&& b.len() == 21 + 38 * sessions@.len()
            &&& b[0] == 1
            &&& field(b, 1, 8) == le_bytes_u64(applied_index)
            &&& field(b, 9, 8) == le_bytes_u64(value as u64)
            &&& field(b, 17, 4) == le_bytes_u32(sessions@.len() as u32)
            &&& field(b, 21 + 38 * i, 38) == session_bytes(sessions@[i])
        },
{
    if r is Ok {
        let b = r->Ok_0@;
        lemma_sessions_width(sessions@, i);
        assert(field(b, 1, 8) =~= le_bytes_u64(applied_index));
        assert(field(b, 9, 8) =~= le_bytes_u64(value as u64));
        assert(field(b, 17, 4) =~= le_bytes_u32(sessions@.len() as u32));
        assert(b.skip(21) =~= sessions_bytes(sessions@));
        assert(field(b, 21 + 38 * i, 38) =~= b.skip(21).subrange(38 * i, 38 * i + 38));
    }
}

/// A snapshot above 64 KiB is too large, one of another version is not supported, and one with more
/// sessions than the bound exceeds the capacity; up to 1724 sessions can be bounded.
pub proof fn law_snapshot_faults(
    payload: &[u8],
    max_sessions: usize,
    r: Result<(u64, i64, Vec<CounterSessionView>), CounterStateMachineError>,
    supported: bool,
)
    requires
        call_ensures(decode_snapshot, (payload, max_sessions), r),
        call_ensures(supports_session_bound, (max_sessions,), supported),
    ensures
        payload@.len() > 65536 ==> r is Err && r->Err_0
            == CounterStateMachineError::SnapshotTooLarge,
        0 < payload@.len() <= 65536 && payload@[0] != 1 ==> r is Err && r->Err_0
            == CounterStateMachineError::UnsupportedVersion,
        21 <= payload@.len() <= 65536 && payload@[0] == 1 && u32_at(payload@, 17) > max_sessions
            ==> r is Err && r->Err_0 == CounterStateMachineError::SessionCapacity,
        payload@.len() == 0 || payload@.len() < 21 && payload@[0] == 1 ==> r is Err && r->Err_0
            == CounterStateMachineError::MalformedSnapshot,
        r is Ok ==> r->Ok_0.2@.len() <= max_sessions,
        supported <==> 0 < max_sessions <= 1724,
{
}

// -------------------------------------------------------------------- records

/// A stored record is its magic, version two, incarnation, lifecycle, poison, quota and the number of
/// outstanding requests; behind everything stands the checksum of all before it.
#[verifier::rlimit(40)]
pub proof fn law_record_layout(record: StoredRecord, r: Result<Vec<u8>, StoreError>)
    requires
        call_ensures(encode, (&record,), r),
        r is Ok,
    ensures
        ({
            let b = r->Ok_0@;
            let n = b.len() - 4;
            let p = record@;
            &&& b.len() <= 131072
            &&& field(b, 0, 4) == seq![0x52u8, 0x43u8, 0x41u8, 0x50u8]
            &&& b[4] == 2
            &&& field(b, 5, 4) == le_bytes_u32(p.incarnation@)
            &&& p.lifecycle == GroupLifecycle::Creating <==> b[9] == 1
            &&& p.lifecycle == GroupLifecycle::Recovering <==> b[9] == 2
            &&& p.lifecycle == GroupLifecycle::Serving <==> b[9] == 3
            &&& p.lifecycle == GroupLifecycle::Draining <==> b[9] == 4
            &&& p.lifecycle == GroupLifecycle::Removed <==> b[9] == 5
            &&& p.lifecycle == GroupLifecycle::Tombstoned <==> b[9] == 6
            &&& b[10] == if p.poisoned {
                1u8
            } else {
                0u8
            }
            &&& field(b, 11, 4) == le_bytes_u32(p.quota@)
            &&& field(b, 15, 4) == le_bytes_u32(p.outstanding.len() as u32)
            &&& field(b, n, 4) == le_bytes_u32(crc32_of(b.take(n)))
            &&& b.subrange(n - p.payload.len(), n) == p.payload
            &&& field(b, n - p.payload.len() - 4, 4) == le_bytes_u32(p.payload.len() as u32)
            &&& field(b, n - p.payload.len() - 12, 8) == le_bytes_u64(p.applied_index)
        }),
{
    let b = r->Ok_0@;
    let p = record@;
    let body = record_bytes(p);
    let n = b.len() - 4;
    let head = header_bytes(p);
    assert(b.take(n) =~= body);
    assert(field(b, n, 4) =~= le_bytes_u32(crc32_of(body)));
    lemma_record_head(p);
    assert(body.take(19) =~= head);
    assert(b.take(19) =~= head);
    assert(field(b, 0, 4) =~= field(head, 0, 4));
    assert(field(b, 5, 4) =~= field(head, 5, 4));
    assert(field(b, 11, 4) =~= field(head, 11, 4));
    assert(field(b, 15, 4) =~= field(head, 15, 4));
    assert(b[4] == head[4] && b[9] == head[9] && b[10] == head[10]);
    let front = head + outstanding_bytes(p.outstanding) + le_bytes_u32(p.terminal.len() as u32)
        + terminal_bytes(p.terminal);
    let len = p.payload.len();
    assert(body =~= front + (le_bytes_u64(p.applied_index) + le_bytes_u32(len as u32) + p.payload));
    assert(b.subrange(n - len, n) =~= p.payload);
    assert(field(b, n - len - 4, 4) =~= le_bytes_u32(len as u32));
    assert(field(b, n - len - 12, 8) =~= le_bytes_u64(p.applied_index));
}

proof fn lemma_record_head(p: RecordView)
    ensures
        header_bytes(p).len() == 19,
        field(header_bytes(p), 0, 4) == seq![0x52u8, 0x43u8, 0x41u8, 0x50u8],
        header_bytes(p)[4] == 2,
        field(header_bytes(p), 5, 4) == le_bytes_u32(p.incarnation@),
        header_bytes(p)[9] == lifecycle_byte(p.lifecycle),
        header_bytes(p)[10] == if p.poisoned {
            1u8
        } else {
            0u8
        },
        field(header_bytes(p), 11, 4) == le_bytes_u32(p.quota@),
        field(header_bytes(p), 15, 4) == le_bytes_u32(p.outstanding.len() as u32),
{
    let head = header_bytes(p);
    assert(field(head, 0, 4) =~= seq![0x52u8, 0x43u8, 0x41u8, 0x50u8]);
    assert(field(head, 5, 4) =~= le_bytes_u32(p.incarnation@));
    assert(field(head, 11, 4) =~= le_bytes_u32(p.quota@));
    assert(field(head, 15, 4) =~= le_bytes_u32(p.outstanding.len() as u32));
}

/// A recorded request is its client, epoch, sequence and fingerprint, its operation, and behind them its
/// phase, or, where it was refused, its failure.
pub proof fn law_recorded_request_layout(item: OutstandingRequest, refused: TerminalRequest)
    ensures
        ({
            let b = outstanding_item_bytes(item);
            &&& field(b, 0, 4) == le_bytes_u32(item.request.client_id@)
            &&& field(b, 4, 8) == le_bytes_u64(item.request.session_epoch@)
            &&& field(b, 12, 8) == le_bytes_u64(item.request.sequence@)
            &&& field(b, 20, 8) == le_bytes_u64(item.request.fingerprint@)
            &&& item.command == CounterCommand::Read ==> b[28] == 2 && b.len() == 30
            &&& item.command matches CounterCommand::Add { delta } ==> b[28] == 1 && b.len() == 38
                && field(b, 29, 8) == le_bytes_u64(delta@ as u64)
            &&& b.last() == 1 <==> item.phase == OutstandingPhase::Queued
            &&& b.last() == 2 <==> item.phase == OutstandingPhase::EnteredDriver
        }),
        ({
            let b = terminal_item_bytes(refused);
            &&& field(b, 0, 4) == le_bytes_u32(refused.request.client_id@)
            &&& field(b, 4, 8) == le_bytes_u64(refused.request.session_epoch@)
            &&& field(b, 12, 8) == le_bytes_u64(refused.request.sequence@)
            &&& field(b, 20, 8) == le_bytes_u64(refused.request.fingerprint@)
            &&& b.last() == 1 <==> refused.failure == TerminalFailure::GroupPoisoned
            &&& b.last() == 2 <==> refused.failure == TerminalFailure::ProcessRestarted
            &&& b.last() == 3 <==> refused.failure == TerminalFailure::GroupPoisonedUnknown
        }),
{
    let b = outstanding_item_bytes(item);
    assert(field(b, 0, 4) =~= le_bytes_u32(item.request.client_id@));
    assert(field(b, 4, 8) =~= le_bytes_u64(item.request.session_epoch@));
    assert(field(b, 12, 8) =~= le_bytes_u64(item.request.sequence@));
    assert(field(b, 20, 8) =~= le_bytes_u64(item.request.fingerprint@));
    if let CounterCommand::Add { delta } = item.command {
        assert(field(b, 29, 8) =~= le_bytes_u64(delta@ as u64));
    }
    let c = terminal_item_bytes(refused);
    assert(field(c, 0, 4) =~= le_bytes_u32(refused.request.client_id@));
    assert(field(c, 4, 8) =~= le_bytes_u64(refused.request.session_epoch@));
    assert(field(c, 12, 8) =~= le_bytes_u64(refused.request.sequence@));
    assert(field(c, 20, 8) =~= le_bytes_u64(refused.request.fingerprint@));
}

/// An image above 128 KiB is too large, one below nine bytes is cut off, one whose checksum differs is
/// refused with both checksums, and only then is it looked into: for its magic and its version.
pub proof fn law_record_faults(bytes: &[u8], actual: u32, r: Result<StoredRecord, StoreError>)
    requires
        call_ensures(decode_checked, (bytes, actual), r),
    ensures
        ({
            let b = bytes@;
            let found = u32_at(b, b.len() - 4);
            let sound = 9 <= b.len() <= 131072 && found == actual;
            &&& b.len() > 131072 ==> r is Err && r->Err_0 == (StoreError::TooLarge {
                bytes: b.len() as usize,
            })
            &&& b.len() < 9 ==> r is Err && r->Err_0 == StoreError::Corrupt(
                Corruption::TruncatedEnvelope,
            )
            &&& 9 <= b.len() <= 131072 && found != actual ==> r is Err && r->Err_0 == (
            StoreError::Checksum { expected: found, actual })
            &&& sound && field(b, 0, 4) != seq![0x52u8, 0x43u8, 0x41u8, 0x50u8] ==> r is Err
                && r->Err_0 == StoreError::Corrupt(Corruption::WrongMagic)
            &&& sound && b.len() > 9 && field(b, 0, 4) == seq![0x52u8, 0x43u8, 0x41u8, 0x50u8]
                && b[4] != 1 && b[4] != 2 ==> r is Err && r->Err_0 == StoreError::Corrupt(
                Corruption::UnsupportedVersion,
            )
        }),
{
    let b = bytes@;
    if 9 <= b.len() {
        assert(b.take(b.len() - 4).subrange(0, 4) =~= field(b, 0, 4));
    }
}

// ------------------------------------------------------------- host records

/// Every host record starts with two letters of the project and two of its kind, then version one.
pub proof fn law_host_record_magic(kind: HostRecord)
    ensures
        kind == HostRecord::Registry ==> kind.magic() == seq![0x52u8, 0x43u8, 0x48u8, 0x52u8],
        kind == HostRecord::Retirement ==> kind.magic() == seq![0x52u8, 0x43u8, 0x52u8, 0x49u8],
        kind == HostRecord::Activation ==> kind.magic() == seq![0x52u8, 0x43u8, 0x52u8, 0x41u8],
        kind == HostRecord::Bootstrap ==> kind.magic() == seq![0x52u8, 0x43u8, 0x52u8, 0x42u8],
{
}

/// An intent is its head, its numbers in order, and the checksum of both.
pub proof fn law_intent_layout(
    retirement: RetirementIntent,
    activation: ActivationIntent,
    bootstrap: BootstrapIntent,
    retired: Vec<u8>,
    activated: Vec<u8>,
    started: Vec<u8>,
)
    requires
        call_ensures(RetirementIntent::encode, (retirement,), retired),
        call_ensures(ActivationIntent::encode, (activation,), activated),
        call_ensures(BootstrapIntent::encode, (bootstrap,), started),
    ensures
        retired@.len() == 17,
        field(retired@, 0, 4) == HostRecord::Retirement.magic(),
        retired@[4] == 1,
        field(retired@, 5, 4) == le_bytes_u32(retirement.group_id@),
        field(retired@, 9, 4) == le_bytes_u32(retirement.incarnation@),
        field(retired@, 13, 4) == le_bytes_u32(crc32_of(retired@.take(13))),
        activated@.len() == 25,
        field(activated@, 0, 4) == HostRecord::Activation.magic(),
        activated@[4] == 1,
        field(activated@, 5, 4) == le_bytes_u32(activation.group_id@),
        field(activated@, 9, 4) == le_bytes_u32(activation.previous_incarnation@),
        field(activated@, 13, 4) == le_bytes_u32(activation.next_incarnation@),
        field(activated@, 17, 4) == le_bytes_u32(activation.quota@),
        field(activated@, 21, 4) == le_bytes_u32(crc32_of(activated@.take(21))),
        started@.len() == 17,
        field(started@, 0, 4) == HostRecord::Bootstrap.magic(),
        started@[4] == 1,
        field(started@, 5, 4) == le_bytes_u32(bootstrap.group_count),
        field(started@, 9, 4) == le_bytes_u32(bootstrap.quota@),
        field(started@, 13, 4) == le_bytes_u32(crc32_of(started@.take(13))),
{
    let a = retired@;
    assert(field(a, 0, 4) =~= HostRecord::Retirement.magic());
    assert(field(a, 5, 4) =~= le_bytes_u32(retirement.group_id@));
    assert(field(a, 9, 4) =~= le_bytes_u32(retirement.incarnation@));
    assert(a.take(13) + field(a, 13, 4) =~= a);
    assert(a.take(13) =~= crate::node::host_registry::framed(
        HostRecord::Retirement,
        crate::node::host_registry::retirement_body(retirement),
    ));
    assert(field(a, 13, 4) =~= le_bytes_u32(crc32_of(a.take(13))));
    let b = activated@;
    assert(field(b, 0, 4) =~= HostRecord::Activation.magic());
    assert(field(b, 5, 4) =~= le_bytes_u32(activation.group_id@));
    assert(field(b, 9, 4) =~= le_bytes_u32(activation.previous_incarnation@));
    assert(field(b, 13, 4) =~= le_bytes_u32(activation.next_incarnation@));
    assert(field(b, 17, 4) =~= le_bytes_u32(activation.quota@));
    assert(b.take(21) =~= crate::node::host_registry::framed(
        HostRecord::Activation,
        crate::node::host_registry::activation_body(activation),
    ));
    assert(field(b, 21, 4) =~= le_bytes_u32(crc32_of(b.take(21))));
    let c = started@;
    assert(field(c, 0, 4) =~= HostRecord::Bootstrap.magic());
    assert(field(c, 5, 4) =~= le_bytes_u32(bootstrap.group_count));
    assert(field(c, 9, 4) =~= le_bytes_u32(bootstrap.quota@));
    assert(c.take(13) =~= crate::node::host_registry::framed(
        HostRecord::Bootstrap,
        crate::node::host_registry::bootstrap_body(bootstrap),
    ));
    assert(field(c, 13, 4) =~= le_bytes_u32(crc32_of(c.take(13))));
}

/// An activation moves to the next incarnation and to no other, and no intent has a zero in it that
/// cannot be.
pub proof fn law_intents_are_sound(
    bytes: &[u8],
    actual: u32,
    retired: Result<RetirementIntent, RegistryError>,
    activated: Result<ActivationIntent, RegistryError>,
    started: Result<BootstrapIntent, RegistryError>,
)
    requires
        call_ensures(RetirementIntent::decode_checked, (bytes, actual), retired),
        call_ensures(ActivationIntent::decode_checked, (bytes, actual), activated),
        call_ensures(BootstrapIntent::decode_checked, (bytes, actual), started),
    ensures
        retired is Ok ==> retired->Ok_0.incarnation@ != 0 && bytes@.len() == 17,
        activated is Ok ==> activated->Ok_0.next_incarnation@
            == activated->Ok_0.previous_incarnation@ + 1
            && activated->Ok_0.previous_incarnation@ != 0 && activated->Ok_0.quota@ != 0
            && bytes@.len() == 25,
        started is Ok ==> started->Ok_0.group_count != 0 && started->Ok_0.quota@ != 0
            && bytes@.len() == 17,
        bytes@.len() < 9 ==> retired is Err && retired->Err_0 == RegistryError::Truncated,
        bytes@.len() >= 9 && u32_at(bytes@, bytes@.len() - 4) != actual ==> retired is Err
            && retired->Err_0 == (RegistryError::Checksum {
            expected: u32_at(bytes@, bytes@.len() - 4),
            actual,
        }),
        bytes@.len() >= 9 && u32_at(bytes@, bytes@.len() - 4) == actual && field(bytes@, 0, 4)
            != HostRecord::Activation.magic() ==> activated is Err && activated->Err_0
            == RegistryError::WrongMagic,
{
}

// --------------------------------------------------------------------- frames

/// A peer frame is its length and then its magic, version one, group, incarnation, sender, receiver,
/// the length of the message, the message, and the checksum of all of these.
pub proof fn law_frame_layout(
    frame: PeerFrame,
    message: Vec<u8>,
    r: Result<Vec<u8>, LinkError>,
)
    requires
        call_ensures(encode_frame_with, (&frame, Some(message)), r),
    ensures
        r is Ok <==> message@.len() + 37 <= 8388608,
        r is Err ==> r->Err_0 == LinkError::Unencodable,
        r is Ok ==> {
            let b = r->Ok_0@;
            let n = b.len() - 4;
            &&& b.len() == 41 + message@.len()
            &&& field(b, 0, 4) == be_bytes_u32(n as u32)
            &&& field(b, 4, 4) == seq![0x52u8, 0x43u8, 0x50u8, 0x45u8]
            &&& b[8] == 1
            &&& field(b, 9, 4) == be_bytes_u32(frame.group_id@)
            &&& field(b, 13, 4) == be_bytes_u32(frame.incarnation@)
            &&& field(b, 17, 8) == be_bytes_u64(frame.from)
            &&& field(b, 25, 8) == be_bytes_u64(frame.to)
            &&& field(b, 33, 4) == be_bytes_u32(message@.len() as u32)
            &&& b.subrange(37, n) == message@
            &&& field(b, n, 4) == be_bytes_u32(crc32_of(b.subrange(4, n)))
        },
{
    if r is Ok {
        let b = r->Ok_0@;
        let n = b.len() - 4;
        let wire = frame.with_message(message@);
        assert(b.subrange(4, n) =~= crate::node::peer_link::frame_content(wire));
        assert(field(b, 0, 4) =~= be_bytes_u32(n as u32));
        assert(field(b, 4, 4) =~= seq![0x52u8, 0x43u8, 0x50u8, 0x45u8]);
        assert(field(b, 9, 4) =~= be_bytes_u32(frame.group_id@));
        assert(field(b, 13, 4) =~= be_bytes_u32(frame.incarnation@));
        assert(field(b, 17, 8) =~= be_bytes_u64(frame.from));
        assert(field(b, 25, 8) =~= be_bytes_u64(frame.to));
        assert(field(b, 33, 4) =~= be_bytes_u32(message@.len() as u32));
        assert(b.subrange(37, n) =~= message@);
        assert(field(b, n, 4) =~= be_bytes_u32(crc32_of(b.subrange(4, n))));
    }
}

/// A frame that is read is whole, has its checksum, and is what its bytes say; the first thing that is
/// wrong is the error.
pub proof fn law_frame_faults(
    body: &[u8],
    actual: u32,
    message: Option<Message>,
    r: Result<PeerFrame, FrameError>,
    prefix: &[u8],
    length: Result<usize, FrameError>,
)
    requires
        call_ensures(read_frame_checked, (body, actual, message), r),
        call_ensures(read_frame_length, (prefix,), length),
        body@.len() <= usize::MAX,
    ensures
        ({
            let b = body@;
            let n = b.len() - 4;
            let whole = b.len() >= 37;
            let sealed = whole && be_u32_at(b, n) == actual;
            let named = sealed && field(b, 0, 4) == seq![0x52u8, 0x43u8, 0x50u8, 0x45u8];
            &&& r == Err::<PeerFrame, FrameError>(FrameError::Short) <==> !whole
            &&& r == Err::<PeerFrame, FrameError>(FrameError::Checksum) <==> whole && !sealed
            &&& r == Err::<PeerFrame, FrameError>(FrameError::WrongMagic) <==> sealed && !named
            &&& r == Err::<PeerFrame, FrameError>(FrameError::UnsupportedVersion) <==> named && b[4]
                != 1
            &&& r == Err::<PeerFrame, FrameError>(FrameError::ZeroIncarnation) <==> named && b[4]
                == 1 && be_u32_at(b, 9) == 0
            &&& r is Ok ==> {
                &&& named && message is Some
                &&& r->Ok_0.group_id@ == be_u32_at(b, 5)
                &&& r->Ok_0.incarnation@ == be_u32_at(b, 9)
                &&& r->Ok_0.from == be_u64_at(b, 13)
                &&& r->Ok_0.to == be_u64_at(b, 21)
                &&& r->Ok_0.message == message->0
                &&& be_u32_at(b, 29) + 37 == b.len()
            }
            &&& named && b[4] == 1 && be_u32_at(b, 9) != 0 && be_u32_at(b, 29) + 37 == b.len()
                && message is Some ==> r is Ok
            &&& length is Ok <==> be_u32_at(prefix@, 0) <= 8388608
            &&& length is Ok ==> length->Ok_0 == be_u32_at(prefix@, 0)
            &&& length is Err ==> length->Err_0 == FrameError::TooLong
        }),
{
}

/// A connection opens with the sender and the receiver. It is taken by the receiver that it names, who
/// learns its sender; frames from another sender or to another receiver are refused, silence goes on,
/// and a malformed frame is discarded.
pub proof fn law_connections_are_claimed(
    from: u64,
    to: u64,
    preamble: Vec<u8>,
    opening: &[u8],
    node: u64,
    sender: Option<u64>,
    event: ReadEvent,
    claimed: u64,
    step: LinkStep,
)
    requires
        call_ensures(encode_preamble, (from, to), preamble),
        call_ensures(read_preamble, (opening, node), sender),
        call_ensures(receive_connection, (event, claimed, node), step),
    ensures
        field(preamble@, 0, 8) == be_bytes_u64(from),
        field(preamble@, 8, 8) == be_bytes_u64(to),
        sender is Some <==> be_u64_at(opening@, 8) == node,
        sender is Some ==> sender->0 == be_u64_at(opening@, 0),
        event matches ReadEvent::Frame { from: f, to: t } ==> (step == LinkStep::Deliver <==> f
            == claimed && t == node) && (step == LinkStep::Refuse <==> f != claimed || t != node),
        event == ReadEvent::TimedOut <==> step == LinkStep::Continue,
        event == ReadEvent::Closed <==> step == LinkStep::Close,
        event == ReadEvent::Malformed <==> step == LinkStep::Discard,
{
    assert(field(preamble@, 0, 8) =~= be_bytes_u64(from));
    assert(field(preamble@, 8, 8) =~= be_bytes_u64(to));
}

/// A frame goes out to a known peer while its queue is below the bound.
pub proof fn law_outbound_queues_are_bounded(
    peer: u64,
    queued: Option<usize>,
    bound: usize,
    r: Result<(), LinkError>,
    found: bool,
    has_groups: bool,
    state: TransportState,
)
    requires
        call_ensures(admit_outbound, (peer, queued, bound), r),
        call_ensures(transport_state, (found, has_groups), state),
    ensures
        r is Ok <==> queued is Some && queued->0 < bound,
        queued is None ==> r == Err::<(), LinkError>(LinkError::UnknownPeer { peer }),
        queued is Some && queued->0 >= bound ==> r == Err::<(), LinkError>(
            LinkError::QueueFull { peer, bound },
        ),
        state == TransportState::Open <==> found,
        state == TransportState::Missing <==> !found && has_groups,
        state == TransportState::Create <==> !found && !has_groups,
{
}

/// A transport group identity is the group and its incarnation, eight bytes in all, and never
/// incarnation zero.
pub proof fn law_group_identity_layout(
    group: PeerGroupId,
    bytes: Vec<u8>,
    input: &[u8],
    r: Result<PeerGroupId, PeerGroupCodecError>,
)
    requires
        call_ensures(PeerGroupId::encode, (group,), bytes),
        call_ensures(PeerGroupId::decode, (input,), r),
    ensures
        bytes@.len() == 8,
        field(bytes@, 0, 4) == be_bytes_u32(group.group_id@),
        field(bytes@, 4, 4) == be_bytes_u32(group.incarnation@),
        r is Ok <==> input@.len() == 8 && be_u32_at(input@, 4) != 0,
        r is Ok ==> r->Ok_0.group_id@ == be_u32_at(input@, 0) && r->Ok_0.incarnation@ == be_u32_at(
            input@,
            4,
        ),
        input@.len() != 8 ==> r is Err && r->Err_0 == (PeerGroupCodecError::InvalidLength {
            actual: input@.len() as usize,
        }),
        input@.len() == 8 && be_u32_at(input@, 4) == 0 ==> r is Err && r->Err_0
            == PeerGroupCodecError::ZeroIncarnation,
{
    assert(field(bytes@, 0, 4) =~= be_bytes_u32(group.group_id@));
    assert(field(bytes@, 4, 4) =~= be_bytes_u32(group.incarnation@));
}

/// The link counters are the transport's own; malformed and oversized frames count together, and so do
/// all refusals of an identity, neither beyond what the counter holds.
pub proof fn law_link_counters_add_up(d: Diagnostics, r: LinkCounters)
    requires
        call_ensures(LinkCounters::from_diagnostics, (d,), r),
    ensures
        r.outbound_full == d.queue_full,
        r.inbound_full == d.inbound_full,
        r.inbound_connection_full == d.connection_full,
        r.tls_handshakes == d.tls_handshakes,
        r.tls_failures == d.tls_failures,
        r.stale_sessions == d.stale_sessions,
        r.active_outbound_connections == d.active_outbound_connections,
        r.active_inbound_connections == d.active_inbound_connections,
        d.malformed_frames + d.frame_too_large <= u64::MAX ==> r.malformed == d.malformed_frames
            + d.frame_too_large,
        d.malformed_frames + d.frame_too_large > u64::MAX ==> r.malformed == u64::MAX,
        ({
            let sum = d.unknown_certificates + d.identity_mismatches + d.cluster_mismatches
                + d.version_mismatches + d.unauthorized_frames + d.retired_peer_frames;
            &&& sum <= u64::MAX ==> r.identity_refused == sum
            &&& sum > u64::MAX ==> r.identity_refused == u64::MAX
        }),
{
}

} // verus!
