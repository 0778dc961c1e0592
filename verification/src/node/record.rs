//! Durable image of one group: application snapshot, lifecycle policy and accepted requests, in
//! one checksummed record.

use vstd::prelude::*;

use crate::adapter::codec::operation_bytes;
use crate::adapter::state_machine::{ApplicationSnapshot, CounterStateMachineError};
use crate::bytes::{
    get_le_u32, get_le_u64, le_bytes_i64, le_bytes_u32, le_bytes_u64, lemma_i64_written, lemma_part,
    lemma_u32_written, lemma_u64_written, put_le_i64, put_le_u32, put_le_u64, u32_at, u64_at,
};
use crate::checksum::{crc32, crc32_of};
use crate::table::{
    contents, holds, lemma_rows_below, rows_below, rows_ordered, with_row, Row, Table,
};
use crate::types::{
    ClientId, CounterCommand, Delta, GroupIncarnation, GroupLifecycle, RequestFingerprint,
    RequestIdentity, Sequence, SessionEpoch, WorkQuota,
};

verus! {

/// Version records are written in.
pub const VERSION: u8 = 2;

/// Version without poison, phases and terminal outcomes, which is still read.
pub const LEGACY_VERSION: u8 = 1;

/// Maximum size of a record.
pub const MAX_RECORD_BYTES: usize = 128 * 1024;

/// One accepted request whose client-visible outcome may still be unknown.
#[derive(Clone, Copy, Debug, Eq, PartialEq, Structural)]
pub struct OutstandingRequest {
    /// Exact request identity.
    pub request: RequestIdentity,
    /// Exact command.
    pub command: CounterCommand,
    /// Whether it may have entered the driver.
    pub phase: OutstandingPhase,
}

/// Durable proof of whether an accepted request may have entered the driver.
#[derive(Clone, Copy, Debug, Eq, PartialEq, Structural)]
pub enum OutstandingPhase {
    /// It has not.
    Queued,
    /// It may have.
    EnteredDriver,
}

/// One accepted request whose exact terminal refusal must survive a restart.
#[derive(Clone, Copy, Debug, Eq, PartialEq, Structural)]
pub struct TerminalRequest {
    /// Exact request identity.
    pub request: RequestIdentity,
    /// Exact command.
    pub command: CounterCommand,
    /// Refusal.
    pub failure: TerminalFailure,
}

/// Durable terminal outcomes for accepted work that a group can no longer run.
#[derive(Clone, Copy, Debug, Eq, PartialEq, Structural)]
pub enum TerminalFailure {
    /// The group was poisoned before the request entered the driver.
    GroupPoisoned,
    /// The group was poisoned after the request may have entered the driver.
    GroupPoisonedUnknown,
    /// The process restarted.
    ProcessRestarted,
}

/// Durable policy restored before a group is admitted to the process host. Requests are kept by
/// client number.
#[derive(Debug)]
pub struct StoredPolicy {
    /// Current incarnation.
    pub incarnation: GroupIncarnation,
    /// Lifecycle state.
    pub lifecycle: GroupLifecycle,
    /// Whether the group is permanently poisoned.
    pub poisoned: bool,
    /// Per-turn quota.
    pub quota: WorkQuota,
    /// Accepted requests.
    pub outstanding: Table<OutstandingRequest>,
    /// Terminal refusals.
    pub terminal: Table<TerminalRequest>,
}

/// One durable image.
#[derive(Debug)]
pub struct StoredRecord {
    /// Consumer policy.
    pub policy: StoredPolicy,
    /// Application snapshot.
    pub application: ApplicationSnapshot,
}

/// What is wrong with a record's bytes.
#[derive(Clone, Copy, Debug, Eq, PartialEq, Structural)]
pub enum Corruption {
    /// Shorter than any record.
    TruncatedEnvelope,
    /// Not a record.
    WrongMagic,
    /// Unknown version.
    UnsupportedVersion,
    /// Zero incarnation.
    ZeroIncarnation,
    /// Unknown lifecycle.
    UnknownLifecycle,
    /// A flag that is neither set nor clear.
    InvalidBoolean,
    /// Zero quota.
    ZeroQuota,
    /// A field runs past the end.
    TruncatedField,
    /// A field's end cannot be addressed.
    LengthOverflow,
    /// Zero session epoch.
    ZeroSessionEpoch,
    /// Zero sequence.
    ZeroSequence,
    /// Zero delta.
    ZeroDelta,
    /// Unknown command.
    UnknownCommand,
    /// Unknown phase.
    UnknownPhase,
    /// Two accepted requests of one client.
    DuplicateOutstanding,
    /// Unknown terminal refusal.
    UnknownTerminal,
    /// Two outcomes of one client.
    DuplicateOutcome,
    /// Bytes after the record.
    TrailingBytes,
    /// The incarnation space is used up.
    IncarnationExhausted,
}

impl Corruption {
    /// Description of the failure.
    pub open spec fn detail(self) -> Seq<char> {
        match self {
            Corruption::TruncatedEnvelope => "truncated envelope"@,
            Corruption::WrongMagic => "wrong magic"@,
            Corruption::UnsupportedVersion => "unsupported version"@,
            Corruption::ZeroIncarnation => "zero incarnation"@,
            Corruption::UnknownLifecycle => "unknown lifecycle"@,
            Corruption::InvalidBoolean => "invalid boolean"@,
            Corruption::ZeroQuota => "zero quota"@,
            Corruption::TruncatedField => "truncated field"@,
            Corruption::LengthOverflow => "length overflow"@,
            Corruption::ZeroSessionEpoch => "zero session epoch"@,
            Corruption::ZeroSequence => "zero sequence"@,
            Corruption::ZeroDelta => "zero counter delta"@,
            Corruption::UnknownCommand => "unknown counter command"@,
            Corruption::UnknownPhase => "unknown outstanding phase"@,
            Corruption::DuplicateOutstanding => "duplicate outstanding client"@,
            Corruption::UnknownTerminal => "unknown terminal failure"@,
            Corruption::DuplicateOutcome => "duplicate durable client outcome"@,
            Corruption::TrailingBytes => "trailing bytes"@,
            Corruption::IncarnationExhausted => "group incarnation exhausted"@,
        }
    }

    /// Returns the operator-facing description.
    pub fn message(self) -> (r: &'static str)
        ensures
            r@ == self.detail(),
    {
        match self {
            Corruption::TruncatedEnvelope => "truncated envelope",
            Corruption::WrongMagic => "wrong magic",
            Corruption::UnsupportedVersion => "unsupported version",
            Corruption::ZeroIncarnation => "zero incarnation",
            Corruption::UnknownLifecycle => "unknown lifecycle",
            Corruption::InvalidBoolean => "invalid boolean",
            Corruption::ZeroQuota => "zero quota",
            Corruption::TruncatedField => "truncated field",
            Corruption::LengthOverflow => "length overflow",
            Corruption::ZeroSessionEpoch => "zero session epoch",
            Corruption::ZeroSequence => "zero sequence",
            Corruption::ZeroDelta => "zero counter delta",
            Corruption::UnknownCommand => "unknown counter command",
            Corruption::UnknownPhase => "unknown outstanding phase",
            Corruption::DuplicateOutstanding => "duplicate outstanding client",
            Corruption::UnknownTerminal => "unknown terminal failure",
            Corruption::DuplicateOutcome => "duplicate durable client outcome",
            Corruption::TrailingBytes => "trailing bytes",
            Corruption::IncarnationExhausted => "group incarnation exhausted",
        }
    }
}

/// A durable application-record failure.
#[derive(Clone, Copy, Debug, Eq, PartialEq, Structural)]
pub enum StoreError {
    /// The bytes are not a record.
    Corrupt(Corruption),
    /// The bytes are not the ones that were written.
    Checksum {
        /// Checksum the record states.
        expected: u32,
        /// Checksum of its bytes.
        actual: u32,
    },
    /// The record exceeds its bound.
    TooLarge {
        /// Its size.
        bytes: usize,
    },
    /// No room for another request.
    OutstandingCapacity {
        /// Configured bound.
        bound: usize,
    },
    /// The client already has a different request.
    ConflictingOutstanding {
        /// The client.
        client_id: ClientId,
    },
    /// Accepted requests still await their outcome.
    OutstandingRemain {
        /// How many.
        count: usize,
    },
    /// The counter state machine failed.
    Counter(CounterStateMachineError),
}

impl OutstandingRequest {
    /// The request holds values that can exist.
    pub open spec fn valid(self) -> bool {
        self.request.valid() && self.command.valid()
    }
}

impl TerminalRequest {
    /// The request holds values that can exist.
    pub open spec fn valid(self) -> bool {
        self.request.valid() && self.command.valid()
    }
}

/// Everything a durable image states.
#[verifier::ext_equal]
pub struct RecordView {
    /// Current incarnation.
    pub incarnation: GroupIncarnation,
    /// Lifecycle state.
    pub lifecycle: GroupLifecycle,
    /// Whether the group is permanently poisoned.
    pub poisoned: bool,
    /// Per-turn quota.
    pub quota: WorkQuota,
    /// Accepted requests in client order.
    pub outstanding: Seq<Row<OutstandingRequest>>,
    /// Terminal refusals in client order.
    pub terminal: Seq<Row<TerminalRequest>>,
    /// Index of the application snapshot.
    pub applied_index: u64,
    /// Payload of the application snapshot.
    pub payload: Seq<u8>,
}

impl RecordView {
    /// Requests stand by client, in order, and no client has two outcomes.
    pub open(crate) spec fn wf(self) -> bool {
        &&& self.incarnation.valid()
        &&& self.quota.valid()
        &&& rows_ordered(self.outstanding)
        &&& rows_ordered(self.terminal)
        &&& forall|i: int|
            0 <= i < self.outstanding.len() ==> (#[trigger] self.outstanding[i]).value.valid()
                && self.outstanding[i].key == self.outstanding[i].value.request.client_id@
        &&& forall|i: int|
            0 <= i < self.terminal.len() ==> (#[trigger] self.terminal[i]).value.valid()
                && self.terminal[i].key == self.terminal[i].value.request.client_id@
                && !contents(self.outstanding).contains_key(self.terminal[i].key)
    }
}

impl StoredRecord {
    /// What the image states.
    pub open(crate) spec fn view(self) -> RecordView {
        RecordView {
            incarnation: self.policy.incarnation,
            lifecycle: self.policy.lifecycle,
            poisoned: self.policy.poisoned,
            quota: self.policy.quota,
            outstanding: self.policy.outstanding.all(),
            terminal: self.policy.terminal.all(),
            applied_index: self.application.applied_index,
            payload: self.application.payload@,
        }
    }

    /// The image states a well-formed record, and its snapshot carries its own payload.
    pub open(crate) spec fn wf(self) -> bool {
        &&& self@.wf()
        &&& self.application.transfer_id is None
    }
}

// ------------------------------------------------------------------- encoding

/// Bytes a record starts with.
pub open spec fn magic() -> Seq<u8> {
    seq![0x52u8, 0x43u8, 0x41u8, 0x50u8]
}

/// Byte of a lifecycle state.
pub open spec fn lifecycle_byte(lifecycle: GroupLifecycle) -> u8 {
    match lifecycle {
        GroupLifecycle::Creating => 1,
        GroupLifecycle::Recovering => 2,
        GroupLifecycle::Serving => 3,
        GroupLifecycle::Draining => 4,
        GroupLifecycle::Removed => 5,
        GroupLifecycle::Tombstoned => 6,
    }
}

/// Byte of a phase.
pub open spec fn phase_byte(phase: OutstandingPhase) -> u8 {
    match phase {
        OutstandingPhase::Queued => 1,
        OutstandingPhase::EnteredDriver => 2,
    }
}

/// Byte of a terminal refusal.
pub open spec fn failure_byte(failure: TerminalFailure) -> u8 {
    match failure {
        TerminalFailure::GroupPoisoned => 1,
        TerminalFailure::ProcessRestarted => 2,
        TerminalFailure::GroupPoisonedUnknown => 3,
    }
}

/// Bytes of a request identity.
pub open(crate) spec fn request_bytes(request: RequestIdentity) -> Seq<u8> {
    le_bytes_u32(request.client_id@) + le_bytes_u64(request.session_epoch@) + le_bytes_u64(
        request.sequence@,
    ) + le_bytes_u64(request.fingerprint@)
}

/// Bytes of an accepted request.
pub open(crate) spec fn outstanding_item_bytes(item: OutstandingRequest) -> Seq<u8> {
    request_bytes(item.request) + operation_bytes(item.command) + seq![phase_byte(item.phase)]
}

/// Bytes of a terminal refusal.
pub open(crate) spec fn terminal_item_bytes(item: TerminalRequest) -> Seq<u8> {
    request_bytes(item.request) + operation_bytes(item.command) + seq![failure_byte(item.failure)]
}

/// Bytes of the accepted requests, one after the other.
pub open(crate) spec fn outstanding_bytes(rows: Seq<Row<OutstandingRequest>>) -> Seq<u8>
    decreases rows.len(),
{
    if rows.len() == 0 {
        Seq::empty()
    } else {
        outstanding_bytes(rows.drop_last()) + outstanding_item_bytes(rows.last().value)
    }
}

/// Bytes of the terminal refusals, one after the other.
pub open(crate) spec fn terminal_bytes(rows: Seq<Row<TerminalRequest>>) -> Seq<u8>
    decreases rows.len(),
{
    if rows.len() == 0 {
        Seq::empty()
    } else {
        terminal_bytes(rows.drop_last()) + terminal_item_bytes(rows.last().value)
    }
}

/// Bytes up to and with the number of accepted requests.
pub open(crate) spec fn header_bytes(record: RecordView) -> Seq<u8> {
    magic() + seq![VERSION] + le_bytes_u32(record.incarnation@) + seq![
        lifecycle_byte(record.lifecycle),
        if record.poisoned {
            1u8
        } else {
            0u8
        },
    ] + le_bytes_u32(record.quota@) + le_bytes_u32(record.outstanding.len() as u32)
}

/// Bytes of a record without its checksum.
pub open(crate) spec fn record_bytes(record: RecordView) -> Seq<u8> {
    header_bytes(record) + outstanding_bytes(record.outstanding) + le_bytes_u32(
        record.terminal.len() as u32,
    ) + terminal_bytes(record.terminal) + le_bytes_u64(record.applied_index) + le_bytes_u32(
        record.payload.len() as u32,
    ) + record.payload
}

/// A count that no field can hold.
pub open(crate) spec fn uncountable(record: RecordView) -> bool {
    record.outstanding.len() > u32::MAX || record.terminal.len() > u32::MAX || record.payload.len()
        > u32::MAX
}

// ------------------------------------------------------------------- decoding

/// Byte at `at`, and the position after it.
pub open spec fn u8_of(b: Seq<u8>, at: int) -> Result<(u8, int), Corruption> {
    if at + 1 <= b.len() {
        Ok((b[at], at + 1))
    } else {
        Err(Corruption::TruncatedField)
    }
}

/// `u32` field at `at`, and the position after it.
pub open spec fn u32_of(b: Seq<u8>, at: int) -> Result<(u32, int), Corruption> {
    if at + 4 <= b.len() {
        Ok((u32_at(b, at), at + 4))
    } else {
        Err(Corruption::TruncatedField)
    }
}

/// `u64` field at `at`, and the position after it.
pub open spec fn u64_of(b: Seq<u8>, at: int) -> Result<(u64, int), Corruption> {
    if at + 8 <= b.len() {
        Ok((u64_at(b, at), at + 8))
    } else {
        Err(Corruption::TruncatedField)
    }
}

/// Request identity at `at`, and the position after it.
pub open(crate) spec fn request_of(b: Seq<u8>, at: int) -> Result<
    (RequestIdentity, int),
    Corruption,
> {
    match u32_of(b, at) {
        Err(error) => Err(error),
        Ok((client, p)) => match u64_of(b, p) {
            Err(error) => Err(error),
            Ok((epoch, q)) => if epoch == 0 {
                Err(Corruption::ZeroSessionEpoch)
            } else {
                match u64_of(b, q) {
                    Err(error) => Err(error),
                    Ok((sequence, r)) => if sequence == 0 {
                        Err(Corruption::ZeroSequence)
                    } else {
                        match u64_of(b, r) {
                            Err(error) => Err(error),
                            Ok((fingerprint, s)) => Ok(
                                (
                                    RequestIdentity {
                                        client_id: ClientId(client),
                                        session_epoch: SessionEpoch(epoch),
                                        sequence: Sequence(sequence),
                                        fingerprint: RequestFingerprint(fingerprint),
                                    },
                                    s,
                                ),
                            ),
                        }
                    },
                }
            },
        },
    }
}

/// Counter command at `at`, and the position after it.
pub open(crate) spec fn command_of(b: Seq<u8>, at: int) -> Result<
    (CounterCommand, int),
    Corruption,
> {
    match u8_of(b, at) {
        Err(error) => Err(error),
        Ok((tag, p)) => if tag == 1 {
            match u64_of(b, p) {
                Err(error) => Err(error),
                Ok((delta, q)) => if delta as i64 == 0 {
                    Err(Corruption::ZeroDelta)
                } else {
                    Ok((CounterCommand::Add { delta: Delta(delta as i64) }, q))
                },
            }
        } else if tag == 2 {
            Ok((CounterCommand::Read, p))
        } else {
            Err(Corruption::UnknownCommand)
        },
    }
}

/// Accepted request at `at`, and the position after it. The legacy version states no phase; a
/// request it holds may have entered the driver.
pub open(crate) spec fn outstanding_of(b: Seq<u8>, at: int, version: u8) -> Result<
    (OutstandingRequest, int),
    Corruption,
> {
    match request_of(b, at) {
        Err(error) => Err(error),
        Ok((request, p)) => match command_of(b, p) {
            Err(error) => Err(error),
            Ok((command, q)) => if version >= VERSION {
                match u8_of(b, q) {
                    Err(error) => Err(error),
                    Ok((phase, r)) => if phase == 1 {
                        Ok(
                            (
                                OutstandingRequest {
                                    request,
                                    command,
                                    phase: OutstandingPhase::Queued,
                                },
                                r,
                            ),
                        )
                    } else if phase == 2 {
                        Ok(
                            (
                                OutstandingRequest {
                                    request,
                                    command,
                                    phase: OutstandingPhase::EnteredDriver,
                                },
                                r,
                            ),
                        )
                    } else {
                        Err(Corruption::UnknownPhase)
                    },
                }
            } else {
                Ok(
                    (
                        OutstandingRequest {
                            request,
                            command,
                            phase: OutstandingPhase::EnteredDriver,
                        },
                        q,
                    ),
                )
            },
        },
    }
}

/// Refusal a byte stands for.
pub open spec fn failure_of(byte: u8) -> Option<TerminalFailure> {
    if byte == 1 {
        Some(TerminalFailure::GroupPoisoned)
    } else if byte == 2 {
        Some(TerminalFailure::ProcessRestarted)
    } else if byte == 3 {
        Some(TerminalFailure::GroupPoisonedUnknown)
    } else {
        None
    }
}

/// Lifecycle state a byte stands for.
pub open spec fn lifecycle_of(byte: u8) -> Option<GroupLifecycle> {
    if byte == 1 {
        Some(GroupLifecycle::Creating)
    } else if byte == 2 {
        Some(GroupLifecycle::Recovering)
    } else if byte == 3 {
        Some(GroupLifecycle::Serving)
    } else if byte == 4 {
        Some(GroupLifecycle::Draining)
    } else if byte == 5 {
        Some(GroupLifecycle::Removed)
    } else if byte == 6 {
        Some(GroupLifecycle::Tombstoned)
    } else {
        None
    }
}

/// Terminal refusal at `at`, and the position after it.
pub open(crate) spec fn terminal_of(b: Seq<u8>, at: int) -> Result<
    (TerminalRequest, int),
    Corruption,
> {
    match request_of(b, at) {
        Err(error) => Err(error),
        Ok((request, p)) => match command_of(b, p) {
            Err(error) => Err(error),
            Ok((command, q)) => match u8_of(b, q) {
                Err(error) => Err(error),
                Ok((byte, r)) => match failure_of(byte) {
                    Some(failure) => Ok((TerminalRequest { request, command, failure }, r)),
                    None => Err(Corruption::UnknownTerminal),
                },
            },
        },
    }
}

/// The `n` accepted requests at `at`, by client, and the position after them.
pub open(crate) spec fn outstanding_rows(b: Seq<u8>, at: int, n: nat, version: u8) -> Result<
    (Seq<Row<OutstandingRequest>>, int),
    Corruption,
>
    decreases n,
{
    if n == 0 {
        Ok((Seq::empty(), at))
    } else {
        match outstanding_rows(b, at, (n - 1) as nat, version) {
            Err(error) => Err(error),
            Ok((rows, p)) => match outstanding_of(b, p, version) {
                Err(error) => Err(error),
                Ok((item, q)) => {
                    let key = item.request.client_id@ as u64;
                    if contents(rows).contains_key(key) {
                        Err(Corruption::DuplicateOutstanding)
                    } else {
                        Ok((with_row(rows, key, item), q))
                    }
                },
            },
        }
    }
}

/// The `n` terminal refusals at `at`, by client, and the position after them. No client among the
/// accepted requests may have one.
pub open(crate) spec fn terminal_rows(
    b: Seq<u8>,
    at: int,
    n: nat,
    outstanding: Seq<Row<OutstandingRequest>>,
) -> Result<(Seq<Row<TerminalRequest>>, int), Corruption>
    decreases n,
{
    if n == 0 {
        Ok((Seq::empty(), at))
    } else {
        match terminal_rows(b, at, (n - 1) as nat, outstanding) {
            Err(error) => Err(error),
            Ok((rows, p)) => match terminal_of(b, p) {
                Err(error) => Err(error),
                Ok((item, q)) => {
                    let key = item.request.client_id@ as u64;
                    if contents(outstanding).contains_key(key) || contents(rows).contains_key(
                        key,
                    ) {
                        Err(Corruption::DuplicateOutcome)
                    } else {
                        Ok((with_row(rows, key, item), q))
                    }
                },
            },
        }
    }
}

/// Fields of a record before its requests.
#[verifier::ext_equal]
pub struct HeaderView {
    /// Version.
    pub version: u8,
    /// Incarnation.
    pub incarnation: GroupIncarnation,
    /// Lifecycle state.
    pub lifecycle: GroupLifecycle,
    /// Whether the group is permanently poisoned.
    pub poisoned: bool,
    /// Per-turn quota.
    pub quota: WorkQuota,
    /// Number of accepted requests.
    pub outstanding: u32,
    /// Position after the header.
    pub end: int,
}

/// Fields after the lifecycle state.
pub open(crate) spec fn header_tail(
    b: Seq<u8>,
    at: int,
    version: u8,
    incarnation: GroupIncarnation,
    lifecycle: GroupLifecycle,
    poisoned: bool,
) -> Result<HeaderView, Corruption> {
    match u32_of(b, at) {
        Err(error) => Err(error),
        Ok((quota, p)) => if quota == 0 {
            Err(Corruption::ZeroQuota)
        } else {
            match u32_of(b, p) {
                Err(error) => Err(error),
                Ok((outstanding, end)) => Ok(
                    HeaderView {
                        version,
                        incarnation,
                        lifecycle,
                        poisoned,
                        quota: WorkQuota(quota),
                        outstanding,
                        end,
                    },
                ),
            }
        },
    }
}

/// Header of a record.
pub open(crate) spec fn header_of(b: Seq<u8>) -> Result<HeaderView, Corruption> {
    if b.len() < 4 {
        Err(Corruption::TruncatedField)
    } else if b.subrange(0, 4) != magic() {
        Err(Corruption::WrongMagic)
    } else {
        match u8_of(b, 4) {
            Err(error) => Err(error),
            Ok((version, p)) => if !(LEGACY_VERSION <= version <= VERSION) {
                Err(Corruption::UnsupportedVersion)
            } else {
                match u32_of(b, p) {
                    Err(error) => Err(error),
                    Ok((incarnation, q)) => if incarnation == 0 {
                        Err(Corruption::ZeroIncarnation)
                    } else {
                        match u8_of(b, q) {
                            Err(error) => Err(error),
                            Ok((byte, r)) => match lifecycle_of(byte) {
                                None => Err(Corruption::UnknownLifecycle),
                                Some(lifecycle) => if version < VERSION {
                                    header_tail(
                                        b,
                                        r,
                                        version,
                                        GroupIncarnation(incarnation),
                                        lifecycle,
                                        false,
                                    )
                                } else {
                                    match u8_of(b, r) {
                                        Err(error) => Err(error),
                                        Ok((flag, s)) => if flag > 1 {
                                            Err(Corruption::InvalidBoolean)
                                        } else {
                                            header_tail(
                                                b,
                                                s,
                                                version,
                                                GroupIncarnation(incarnation),
                                                lifecycle,
                                                flag == 1,
                                            )
                                        },
                                    }
                                },
                            },
                        }
                    },
                }
            },
        }
    }
}

/// Terminal refusals of a record whose accepted requests end at `at`. The legacy version has none.
pub open(crate) spec fn terminal_section(
    b: Seq<u8>,
    at: int,
    version: u8,
    outstanding: Seq<Row<OutstandingRequest>>,
) -> Result<(Seq<Row<TerminalRequest>>, int), Corruption> {
    if version < VERSION {
        Ok((Seq::empty(), at))
    } else {
        match u32_of(b, at) {
            Err(error) => Err(error),
            Ok((n, p)) => terminal_rows(b, p, n as nat, outstanding),
        }
    }
}

/// Application snapshot that ends the record, from `at` on.
pub open spec fn application_of(b: Seq<u8>, at: int) -> Result<(u64, Seq<u8>), Corruption> {
    match u64_of(b, at) {
        Err(error) => Err(error),
        Ok((applied_index, p)) => match u32_of(b, p) {
            Err(error) => Err(error),
            Ok((len, q)) => if q + len > usize::MAX {
                Err(Corruption::LengthOverflow)
            } else if q + len > b.len() {
                Err(Corruption::TruncatedField)
            } else if q + len < b.len() {
                Err(Corruption::TrailingBytes)
            } else {
                Ok((applied_index, b.subrange(q, q + len)))
            },
        },
    }
}

/// Record that bytes without a checksum stand for.
pub open(crate) spec fn record_of(b: Seq<u8>) -> Result<RecordView, Corruption> {
    match header_of(b) {
        Err(error) => Err(error),
        Ok(header) => match outstanding_rows(
            b,
            header.end,
            header.outstanding as nat,
            header.version,
        ) {
            Err(error) => Err(error),
            Ok((outstanding, p)) => match terminal_section(b, p, header.version, outstanding) {
                Err(error) => Err(error),
                Ok((terminal, q)) => match application_of(b, q) {
                    Err(error) => Err(error),
                    Ok((applied_index, payload)) => Ok(
                        RecordView {
                            incarnation: header.incarnation,
                            lifecycle: header.lifecycle,
                            poisoned: header.poisoned,
                            quota: header.quota,
                            outstanding,
                            terminal,
                            applied_index,
                            payload,
                        },
                    ),
                },
            },
        },
    }
}

/// What decoding an image gives, when its bytes without the checksum have the checksum `actual`.
pub open(crate) spec fn decoded_record(bytes: Seq<u8>, actual: u32) -> Result<
    RecordView,
    StoreError,
> {
    let n = bytes.len() - 4;
    if bytes.len() > MAX_RECORD_BYTES {
        Err(StoreError::TooLarge { bytes: bytes.len() as usize })
    } else if bytes.len() < 9 {
        Err(StoreError::Corrupt(Corruption::TruncatedEnvelope))
    } else if u32_at(bytes, n) != actual {
        Err(StoreError::Checksum { expected: u32_at(bytes, n), actual })
    } else {
        match record_of(bytes.take(n)) {
            Ok(record) => Ok(record),
            Err(corruption) => Err(StoreError::Corrupt(corruption)),
        }
    }
}

// ---------------------------------------------------------------------- laws

proof fn lemma_request_written(b: Seq<u8>, at: int, request: RequestIdentity)
    requires
        request.valid(),
        0 <= at,
        at + 28 <= b.len(),
        b.subrange(at, at + 28) == request_bytes(request),
    ensures
        request_of(b, at) == Ok::<(RequestIdentity, int), Corruption>((request, at + 28)),
{
    let piece = request_bytes(request);
    lemma_part(b, at, piece, 0, 4);
    lemma_part(b, at, piece, 4, 12);
    lemma_part(b, at, piece, 12, 20);
    lemma_part(b, at, piece, 20, 28);
    assert(piece.subrange(0, 4) =~= le_bytes_u32(request.client_id@));
    assert(piece.subrange(4, 12) =~= le_bytes_u64(request.session_epoch@));
    assert(piece.subrange(12, 20) =~= le_bytes_u64(request.sequence@));
    assert(piece.subrange(20, 28) =~= le_bytes_u64(request.fingerprint@));
    lemma_u32_written(b, at, request.client_id@);
    lemma_u64_written(b, at + 4, request.session_epoch@);
    lemma_u64_written(b, at + 12, request.sequence@);
    lemma_u64_written(b, at + 20, request.fingerprint@);
}

proof fn lemma_command_written(b: Seq<u8>, at: int, command: CounterCommand)
    requires
        command.valid(),
        0 <= at,
        at + operation_bytes(command).len() <= b.len(),
        b.subrange(at, at + operation_bytes(command).len()) == operation_bytes(command),
    ensures
        command_of(b, at) == Ok::<(CounterCommand, int), Corruption>(
            (command, at + operation_bytes(command).len()),
        ),
{
    let piece = operation_bytes(command);
    assert(b[at] == b.subrange(at, at + piece.len())[0]);
    match command {
        CounterCommand::Add { delta } => {
            lemma_part(b, at, piece, 1, 9);
            assert(piece.subrange(1, 9) =~= le_bytes_i64(delta@));
            lemma_i64_written(b, at + 1, delta@);
        },
        CounterCommand::Read => {},
    }
}

proof fn lemma_outstanding_written(b: Seq<u8>, at: int, item: OutstandingRequest)
    requires
        item.valid(),
        0 <= at,
        at + outstanding_item_bytes(item).len() <= b.len(),
        b.subrange(at, at + outstanding_item_bytes(item).len()) == outstanding_item_bytes(item),
    ensures
        outstanding_of(b, at, VERSION) == Ok::<(OutstandingRequest, int), Corruption>(
            (item, at + outstanding_item_bytes(item).len()),
        ),
{
    let piece = outstanding_item_bytes(item);
    let n = operation_bytes(item.command).len() as int;
    lemma_part(b, at, piece, 0, 28);
    lemma_part(b, at, piece, 28, 28 + n);
    assert(piece.subrange(0, 28) =~= request_bytes(item.request));
    assert(piece.subrange(28, 28 + n) =~= operation_bytes(item.command));
    lemma_request_written(b, at, item.request);
    lemma_command_written(b, at + 28, item.command);
    assert(b[at + 28 + n] == b.subrange(at, at + piece.len())[28 + n]);
}

proof fn lemma_terminal_written(b: Seq<u8>, at: int, item: TerminalRequest)
    requires
        item.valid(),
        0 <= at,
        at + terminal_item_bytes(item).len() <= b.len(),
        b.subrange(at, at + terminal_item_bytes(item).len()) == terminal_item_bytes(item),
    ensures
        terminal_of(b, at) == Ok::<(TerminalRequest, int), Corruption>(
            (item, at + terminal_item_bytes(item).len()),
        ),
{
    let piece = terminal_item_bytes(item);
    let n = operation_bytes(item.command).len() as int;
    lemma_part(b, at, piece, 0, 28);
    lemma_part(b, at, piece, 28, 28 + n);
    assert(piece.subrange(0, 28) =~= request_bytes(item.request));
    assert(piece.subrange(28, 28 + n) =~= operation_bytes(item.command));
    lemma_request_written(b, at, item.request);
    lemma_command_written(b, at + 28, item.command);
    assert(b[at + 28 + n] == b.subrange(at, at + piece.len())[28 + n]);
}

/// The last of ordered rows comes after the rest.
proof fn lemma_last_row<V>(rows: Seq<Row<V>>)
    requires
        rows_ordered(rows),
        rows.len() > 0,
    ensures
        rows_ordered(rows.drop_last()),
        !contents(rows.drop_last()).contains_key(rows.last().key),
        with_row(rows.drop_last(), rows.last().key, rows.last().value) == rows,
{
    let rest = rows.drop_last();
    let key = rows.last().key;
    assert forall|i: int, j: int| 0 <= i < j < rest.len() implies rest[i].key < rest[j].key by {
        assert(rows[i].key < rows[j].key);
    }
    if contents(rest).contains_key(key) {
        let i = choose|i: int| holds(rest, key, i);
        assert(holds(rest, key, i));
        assert(rows[i].key < rows[rows.len() - 1].key);
    }
    assert forall|k: int| 0 <= k < rest.len() implies (#[trigger] rest[k]).key < key by {
        assert(rows[k].key < rows[rows.len() - 1].key);
    }
    lemma_rows_below(rest, key, rest.len() as int);
    assert(with_row(rest, key, rows.last().value) =~= rows);
}

proof fn lemma_outstanding_rows_written(
    b: Seq<u8>,
    at: int,
    rows: Seq<Row<OutstandingRequest>>,
)
    requires
        rows_ordered(rows),
        forall|i: int|
            0 <= i < rows.len() ==> (#[trigger] rows[i]).value.valid() && rows[i].key
                == rows[i].value.request.client_id@,
        0 <= at,
        at + outstanding_bytes(rows).len() <= b.len(),
        b.subrange(at, at + outstanding_bytes(rows).len()) == outstanding_bytes(rows),
    ensures
        outstanding_rows(b, at, rows.len(), VERSION) == Ok::<
            (Seq<Row<OutstandingRequest>>, int),
            Corruption,
        >((rows, at + outstanding_bytes(rows).len())),
    decreases rows.len(),
{
    if rows.len() == 0 {
        assert(rows =~= Seq::empty());
    } else {
        let rest = rows.drop_last();
        let all = outstanding_bytes(rows);
        let head = outstanding_bytes(rest);
        let item = rows.last().value;
        lemma_last_row(rows);
        lemma_part(b, at, all, 0, head.len() as int);
        lemma_part(b, at, all, head.len() as int, all.len() as int);
        assert(all.subrange(0, head.len() as int) =~= head);
        assert(all.subrange(head.len() as int, all.len() as int) =~= outstanding_item_bytes(item));
        assert forall|i: int| 0 <= i < rest.len() implies (#[trigger] rest[i]).value.valid()
            && rest[i].key == rest[i].value.request.client_id@ by {
            assert(rest[i] == rows[i]);
        }
        lemma_outstanding_rows_written(b, at, rest);
        assert(rows[rows.len() - 1] == rows.last());
        lemma_outstanding_written(b, at + head.len(), item);
    }
}

proof fn lemma_terminal_rows_written(
    b: Seq<u8>,
    at: int,
    rows: Seq<Row<TerminalRequest>>,
    outstanding: Seq<Row<OutstandingRequest>>,
)
    requires
        rows_ordered(rows),
        forall|i: int|
            0 <= i < rows.len() ==> (#[trigger] rows[i]).value.valid() && rows[i].key
                == rows[i].value.request.client_id@ && !contents(outstanding).contains_key(
                rows[i].key,
            ),
        0 <= at,
        at + terminal_bytes(rows).len() <= b.len(),
        b.subrange(at, at + terminal_bytes(rows).len()) == terminal_bytes(rows),
    ensures
        terminal_rows(b, at, rows.len(), outstanding) == Ok::<
            (Seq<Row<TerminalRequest>>, int),
            Corruption,
        >((rows, at + terminal_bytes(rows).len())),
    decreases rows.len(),
{
    if rows.len() == 0 {
        assert(rows =~= Seq::empty());
    } else {
        let rest = rows.drop_last();
        let all = terminal_bytes(rows);
        let head = terminal_bytes(rest);
        let item = rows.last().value;
        lemma_last_row(rows);
        lemma_part(b, at, all, 0, head.len() as int);
        lemma_part(b, at, all, head.len() as int, all.len() as int);
        assert(all.subrange(0, head.len() as int) =~= head);
        assert(all.subrange(head.len() as int, all.len() as int) =~= terminal_item_bytes(item));
        assert forall|i: int| 0 <= i < rest.len() implies (#[trigger] rest[i]).value.valid()
            && rest[i].key == rest[i].value.request.client_id@ && !contents(
            outstanding,
        ).contains_key(rest[i].key) by {
            assert(rest[i] == rows[i]);
        }
        lemma_terminal_rows_written(b, at, rest, outstanding);
        assert(rows[rows.len() - 1] == rows.last());
        lemma_terminal_written(b, at + head.len(), item);
    }
}

proof fn lemma_header_written(record: RecordView, b: Seq<u8>)
    requires
        record.wf(),
        b.len() >= 19,
        b.subrange(0, 19) == header_bytes(record),
        record.outstanding.len() <= u32::MAX,
    ensures
        header_of(b) == Ok::<HeaderView, Corruption>(
            HeaderView {
                version: VERSION,
                incarnation: record.incarnation,
                lifecycle: record.lifecycle,
                poisoned: record.poisoned,
                quota: record.quota,
                outstanding: record.outstanding.len() as u32,
                end: 19,
            },
        ),
{
    let h = header_bytes(record);
    assert(h.len() == 19);
    lemma_part(b, 0, h, 0, 4);
    lemma_part(b, 0, h, 5, 9);
    lemma_part(b, 0, h, 11, 15);
    lemma_part(b, 0, h, 15, 19);
    assert(h.subrange(0, 4) =~= magic());
    assert(h.subrange(5, 9) =~= le_bytes_u32(record.incarnation@));
    assert(h.subrange(11, 15) =~= le_bytes_u32(record.quota@));
    assert(h.subrange(15, 19) =~= le_bytes_u32(record.outstanding.len() as u32));
    assert(b[4] == b.subrange(0, 19)[4]);
    assert(b[9] == b.subrange(0, 19)[9]);
    assert(b[10] == b.subrange(0, 19)[10]);
    assert(b.subrange(0, 4) =~= magic());
    lemma_u32_written(b, 5, record.incarnation@);
    lemma_u32_written(b, 11, record.quota@);
    lemma_u32_written(b, 15, record.outstanding.len() as u32);
}

/// Where the parts of a record stand.
proof fn lemma_layout(
    h: Seq<u8>,
    o: Seq<u8>,
    tc: Seq<u8>,
    t: Seq<u8>,
    ai: Seq<u8>,
    pl: Seq<u8>,
    payload: Seq<u8>,
)
    requires
        h.len() == 19,
        tc.len() == 4,
        ai.len() == 8,
        pl.len() == 4,
    ensures
        ({
            let b = h + o + tc + t + ai + pl + payload;
            let p: int = 19 + o.len() as int;
            let q: int = p + 4 + t.len() as int;
            &&& b.len() == q + 12 + payload.len()
            &&& b.subrange(0, 19) == h
            &&& b.subrange(19, p) == o
            &&& b.subrange(p, p + 4) == tc
            &&& b.subrange(p + 4, q) == t
            &&& b.subrange(q, q + 8) == ai
            &&& b.subrange(q + 8, q + 12) == pl
            &&& b.subrange(q + 12, q + 12 + payload.len()) == payload
        }),
{
    let b = h + o + tc + t + ai + pl + payload;
    let p: int = 19 + o.len() as int;
    let q: int = p + 4 + t.len() as int;
    assert(b.subrange(0, 19) =~= h);
    assert(b.subrange(19, p) =~= o);
    assert(b.subrange(p, p + 4) =~= tc);
    assert(b.subrange(p + 4, q) =~= t);
    assert(b.subrange(q, q + 8) =~= ai);
    assert(b.subrange(q + 8, q + 12) =~= pl);
    assert(b.subrange(q + 12, q + 12 + payload.len()) =~= payload);
}

/// A well-formed record is read back from its bytes exactly as it was written.
#[verifier::spinoff_prover]
#[verifier::rlimit(40)]
pub proof fn law_records_round_trip(record: RecordView)
    requires
        record.wf(),
        !uncountable(record),
        record_bytes(record).len() <= usize::MAX,
    ensures
        record_of(record_bytes(record)) == Ok::<RecordView, Corruption>(record),
{
    let b = record_bytes(record);
    let o = outstanding_bytes(record.outstanding);
    let t = terminal_bytes(record.terminal);
    let p: int = 19 + o.len() as int;
    let q: int = p + 4 + t.len() as int;
    lemma_layout(
        header_bytes(record),
        o,
        le_bytes_u32(record.terminal.len() as u32),
        t,
        le_bytes_u64(record.applied_index),
        le_bytes_u32(record.payload.len() as u32),
        record.payload,
    );
    lemma_header_written(record, b);
    lemma_outstanding_rows_written(b, 19, record.outstanding);
    lemma_u32_written(b, p, record.terminal.len() as u32);
    lemma_terminal_rows_written(b, p + 4, record.terminal, record.outstanding);
    lemma_u64_written(b, q, record.applied_index);
    lemma_u32_written(b, q + 8, record.payload.len() as u32);
    assert(application_of(b, q) == Ok::<(u64, Seq<u8>), Corruption>(
        (record.applied_index, record.payload),
    ));
    assert(terminal_section(b, p, VERSION, record.outstanding) == Ok::<
        (Seq<Row<TerminalRequest>>, int),
        Corruption,
    >((record.terminal, q)));
}

/// A sealed image is its body and the checksum it was sealed with.
proof fn lemma_sealed(body: Seq<u8>, checksum: u32)
    ensures
        ({
            let bytes = body + le_bytes_u32(checksum);
            &&& bytes.len() == body.len() + 4
            &&& u32_at(bytes, body.len() as int) == checksum
            &&& bytes.take(body.len() as int) == body
        }),
{
    let bytes = body + le_bytes_u32(checksum);
    let n = body.len() as int;
    assert(bytes.subrange(n, n + 4) =~= le_bytes_u32(checksum));
    lemma_u32_written(bytes, n, checksum);
    assert(bytes.take(n) =~= body);
}

/// Every record is longer than the shortest image.
proof fn lemma_record_len(record: RecordView)
    ensures
        record_bytes(record).len() >= 19,
{
    lemma_layout(
        header_bytes(record),
        outstanding_bytes(record.outstanding),
        le_bytes_u32(record.terminal.len() as u32),
        terminal_bytes(record.terminal),
        le_bytes_u64(record.applied_index),
        le_bytes_u32(record.payload.len() as u32),
        record.payload,
    );
}

/// A record that was published is what opening it gives: its bytes and their checksum are decoded
/// to exactly what was encoded.
#[verifier::spinoff_prover]
pub proof fn law_published_record_is_restored(record: RecordView, checksum: u32)
    requires
        record.wf(),
        !uncountable(record),
        record_bytes(record).len() + 4 <= MAX_RECORD_BYTES,
    ensures
        decoded_record(record_bytes(record) + le_bytes_u32(checksum), checksum) == Ok::<
            RecordView,
            StoreError,
        >(record),
{
    let body = record_bytes(record);
    lemma_record_len(record);
    lemma_sealed(body, checksum);
    law_records_round_trip(record);
    lemma_decoded_sealed(body, checksum);
}

/// Decoding a sealed image decodes its body.
proof fn lemma_decoded_sealed(body: Seq<u8>, checksum: u32)
    requires
        5 <= body.len(),
        body.len() + 4 <= MAX_RECORD_BYTES,
    ensures
        decoded_record(body + le_bytes_u32(checksum), checksum) == match record_of(body) {
            Ok(record) => Ok::<RecordView, StoreError>(record),
            Err(corruption) => Err::<RecordView, StoreError>(StoreError::Corrupt(corruption)),
        },
{
    lemma_sealed(body, checksum);
}

// ------------------------------------------------------------------ encoding

fn put_request(bytes: &mut Vec<u8>, request: RequestIdentity)
    ensures
        final(bytes)@ == old(bytes)@ + request_bytes(request),
{
    put_le_u32(bytes, request.client_id.get());
    put_le_u64(bytes, request.session_epoch.get());
    put_le_u64(bytes, request.sequence.get());
    put_le_u64(bytes, request.fingerprint.get());
    assert(bytes@ =~= old(bytes)@ + request_bytes(request));
}

fn put_command(bytes: &mut Vec<u8>, command: CounterCommand)
    ensures
        final(bytes)@ == old(bytes)@ + operation_bytes(command),
{
    match command {
        CounterCommand::Add { delta } => {
            bytes.push(1);
            put_le_i64(bytes, delta.get());
        },
        CounterCommand::Read => {
            bytes.push(2);
        },
    }
    assert(bytes@ =~= old(bytes)@ + operation_bytes(command));
}

pub(crate) fn encode_lifecycle(lifecycle: GroupLifecycle) -> (r: u8)
    ensures
        r == lifecycle_byte(lifecycle),
{
    match lifecycle {
        GroupLifecycle::Creating => 1,
        GroupLifecycle::Recovering => 2,
        GroupLifecycle::Serving => 3,
        GroupLifecycle::Draining => 4,
        GroupLifecycle::Removed => 5,
        GroupLifecycle::Tombstoned => 6,
    }
}

fn put_outstanding(bytes: &mut Vec<u8>, rows: &Table<OutstandingRequest>)
    requires
        rows.wf(),
    ensures
        final(bytes)@ == old(bytes)@ + outstanding_bytes(rows.all()),
{
    let ghost start = bytes@;
    let mut i: usize = 0;
    assert(start + outstanding_bytes(rows.all().take(0)) =~= start);
    while i < rows.len()
        invariant
            i <= rows.count(),
            rows.wf(),
            bytes@ == start + outstanding_bytes(rows.all().take(i as int)),
        decreases rows.count() - i,
    {
        let (_, item) = rows.row(i);
        let phase: u8 = match item.phase {
            OutstandingPhase::Queued => 1,
            OutstandingPhase::EnteredDriver => 2,
        };
        put_request(bytes, item.request);
        put_command(bytes, item.command);
        bytes.push(phase);
        proof {
            let more = rows.all().take(i + 1);
            assert(more.drop_last() =~= rows.all().take(i as int));
            assert(more.last() == rows.all()[i as int]);
            assert(bytes@ =~= start + outstanding_bytes(more));
        }
        i = i + 1;
    }
    assert(rows.all().take(i as int) =~= rows.all());
}

fn put_terminal(bytes: &mut Vec<u8>, rows: &Table<TerminalRequest>)
    requires
        rows.wf(),
    ensures
        final(bytes)@ == old(bytes)@ + terminal_bytes(rows.all()),
{
    let ghost start = bytes@;
    let mut i: usize = 0;
    assert(start + terminal_bytes(rows.all().take(0)) =~= start);
    while i < rows.len()
        invariant
            i <= rows.count(),
            rows.wf(),
            bytes@ == start + terminal_bytes(rows.all().take(i as int)),
        decreases rows.count() - i,
    {
        let (_, item) = rows.row(i);
        let failure: u8 = match item.failure {
            TerminalFailure::GroupPoisoned => 1,
            TerminalFailure::ProcessRestarted => 2,
            TerminalFailure::GroupPoisonedUnknown => 3,
        };
        put_request(bytes, item.request);
        put_command(bytes, item.command);
        bytes.push(failure);
        proof {
            let more = rows.all().take(i + 1);
            assert(more.drop_last() =~= rows.all().take(i as int));
            assert(more.last() == rows.all()[i as int]);
            assert(bytes@ =~= start + terminal_bytes(more));
        }
        i = i + 1;
    }
    assert(rows.all().take(i as int) =~= rows.all());
}

/// Encodes a record without its checksum.
pub fn encode_body(record: &StoredRecord) -> (r: Result<Vec<u8>, StoreError>)
    requires
        record.wf(),
    ensures
        match r {
            Ok(bytes) => !uncountable(record@) && bytes@ == record_bytes(record@),
            Err(error) => uncountable(record@) && error == (StoreError::TooLarge {
                bytes: usize::MAX,
            }),
        },
{
    let policy = &record.policy;
    if policy.outstanding.len() as u64 > u32::MAX as u64 || policy.terminal.len() as u64
        > u32::MAX as u64 || record.application.payload.len() as u64 > u32::MAX as u64 {
        return Err(StoreError::TooLarge { bytes: usize::MAX });
    }
    let mut bytes: Vec<u8> = Vec::new();
    bytes.push(0x52);
    bytes.push(0x43);
    bytes.push(0x41);
    bytes.push(0x50);
    bytes.push(VERSION);
    put_le_u32(&mut bytes, policy.incarnation.get());
    bytes.push(encode_lifecycle(policy.lifecycle));
    bytes.push(
        if policy.poisoned {
            1
        } else {
            0
        },
    );
    put_le_u32(&mut bytes, policy.quota.get());
    put_le_u32(&mut bytes, policy.outstanding.len() as u32);
    assert(bytes@ =~= header_bytes(record@));
    put_outstanding(&mut bytes, &policy.outstanding);
    put_le_u32(&mut bytes, policy.terminal.len() as u32);
    put_terminal(&mut bytes, &policy.terminal);
    put_le_u64(&mut bytes, record.application.applied_index);
    put_le_u32(&mut bytes, record.application.payload.len() as u32);
    bytes.extend_from_slice(record.application.payload.as_slice());
    assert(bytes@ =~= record_bytes(record@));
    Ok(bytes)
}

/// Size of an image whose body has `len` bytes, as far as it can be counted.
pub open spec fn image_len(len: nat) -> usize {
    if len + 4 > usize::MAX {
        usize::MAX
    } else {
        (len + 4) as usize
    }
}

/// Appends a checksum, unless the image exceeds its bound.
pub fn seal(body: Vec<u8>, checksum: u32) -> (r: Result<Vec<u8>, StoreError>)
    ensures
        match r {
            Ok(bytes) => body@.len() + 4 <= MAX_RECORD_BYTES && bytes@ == body@ + le_bytes_u32(
                checksum,
            ),
            Err(error) => body@.len() + 4 > MAX_RECORD_BYTES && error == (StoreError::TooLarge {
                bytes: image_len(body@.len()),
            }),
        },
{
    if body.len() > MAX_RECORD_BYTES - 4 {
        return Err(StoreError::TooLarge { bytes: body.len().saturating_add(4) });
    }
    let mut bytes = body;
    put_le_u32(&mut bytes, checksum);
    Ok(bytes)
}

/// Encodes a record as the image that is published.
pub fn encode(record: &StoredRecord) -> (r: Result<Vec<u8>, StoreError>)
    requires
        record.wf(),
    ensures
        match r {
            Ok(bytes) => {
                &&& !uncountable(record@)
                &&& record_bytes(record@).len() + 4 <= MAX_RECORD_BYTES
                &&& bytes@ == record_bytes(record@) + le_bytes_u32(crc32_of(record_bytes(record@)))
            },
            Err(error) => if uncountable(record@) {
                error == (StoreError::TooLarge { bytes: usize::MAX })
            } else {
                &&& record_bytes(record@).len() + 4 > MAX_RECORD_BYTES
                &&& error == (StoreError::TooLarge {
                    bytes: image_len(record_bytes(record@).len()),
                })
            },
        },
{
    match encode_body(record) {
        Err(error) => Err(error),
        Ok(body) => {
            let checksum: u32 = crc32(body.as_slice());
            seal(body, checksum)
        },
    }
}

// ------------------------------------------------------------------ decoding

/// Reads one field after the other.
struct Cursor<'a> {
    bytes: &'a [u8],
    offset: usize,
}

impl<'a> Cursor<'a> {
    spec fn wf(self) -> bool {
        self.offset <= self.bytes@.len()
    }

    fn u8(&mut self) -> (r: Result<u8, Corruption>)
        requires
            old(self).wf(),
        ensures
            final(self).wf(),
            final(self).bytes == old(self).bytes,
            match u8_of(old(self).bytes@, old(self).offset as int) {
                Ok((value, next)) => r == Ok::<u8, Corruption>(value) && final(self).offset == next,
                Err(error) => r == Err::<u8, Corruption>(error),
            },
    {
        if self.bytes.len() - self.offset < 1 {
            return Err(Corruption::TruncatedField);
        }
        let value: u8 = self.bytes[self.offset];
        self.offset = self.offset + 1;
        Ok(value)
    }

    fn u32(&mut self) -> (r: Result<u32, Corruption>)
        requires
            old(self).wf(),
        ensures
            final(self).wf(),
            final(self).bytes == old(self).bytes,
            match u32_of(old(self).bytes@, old(self).offset as int) {
                Ok((value, next)) => r == Ok::<u32, Corruption>(value) && final(self).offset == next,
                Err(error) => r == Err::<u32, Corruption>(error),
            },
    {
        if self.bytes.len() - self.offset < 4 {
            return Err(Corruption::TruncatedField);
        }
        let value: u32 = get_le_u32(self.bytes, self.offset);
        self.offset = self.offset + 4;
        Ok(value)
    }

    fn u64(&mut self) -> (r: Result<u64, Corruption>)
        requires
            old(self).wf(),
        ensures
            final(self).wf(),
            final(self).bytes == old(self).bytes,
            match u64_of(old(self).bytes@, old(self).offset as int) {
                Ok((value, next)) => r == Ok::<u64, Corruption>(value) && final(self).offset == next,
                Err(error) => r == Err::<u64, Corruption>(error),
            },
    {
        if self.bytes.len() - self.offset < 8 {
            return Err(Corruption::TruncatedField);
        }
        let value: u64 = get_le_u64(self.bytes, self.offset);
        self.offset = self.offset + 8;
        Ok(value)
    }

    fn request(&mut self) -> (r: Result<RequestIdentity, Corruption>)
        requires
            old(self).wf(),
        ensures
            final(self).wf(),
            final(self).bytes == old(self).bytes,
            match request_of(old(self).bytes@, old(self).offset as int) {
                Ok((value, next)) => r == Ok::<RequestIdentity, Corruption>(value)
                    && final(self).offset == next && value.valid(),
                Err(error) => r == Err::<RequestIdentity, Corruption>(error),
            },
    {
        let client: u32 = match self.u32() {
            Ok(value) => value,
            Err(error) => {
                return Err(error);
            },
        };
        let epoch: u64 = match self.u64() {
            Ok(value) => value,
            Err(error) => {
                return Err(error);
            },
        };
        let Some(session_epoch) = SessionEpoch::new(epoch) else {
            return Err(Corruption::ZeroSessionEpoch);
        };
        let number: u64 = match self.u64() {
            Ok(value) => value,
            Err(error) => {
                return Err(error);
            },
        };
        let Some(sequence) = Sequence::new(number) else {
            return Err(Corruption::ZeroSequence);
        };
        let digest: u64 = match self.u64() {
            Ok(value) => value,
            Err(error) => {
                return Err(error);
            },
        };
        Ok(
            RequestIdentity {
                client_id: ClientId::new(client),
                session_epoch,
                sequence,
                fingerprint: RequestFingerprint::from_digest(digest),
            },
        )
    }

    fn command(&mut self) -> (r: Result<CounterCommand, Corruption>)
        requires
            old(self).wf(),
        ensures
            final(self).wf(),
            final(self).bytes == old(self).bytes,
            match command_of(old(self).bytes@, old(self).offset as int) {
                Ok((value, next)) => r == Ok::<CounterCommand, Corruption>(value)
                    && final(self).offset == next && value.valid(),
                Err(error) => r == Err::<CounterCommand, Corruption>(error),
            },
    {
        let tag: u8 = match self.u8() {
            Ok(value) => value,
            Err(error) => {
                return Err(error);
            },
        };
        if tag == 1 {
            let field: u64 = match self.u64() {
                Ok(value) => value,
                Err(error) => {
                    return Err(error);
                },
            };
            match Delta::new(field as i64) {
                Some(delta) => Ok(CounterCommand::Add { delta }),
                None => Err(Corruption::ZeroDelta),
            }
        } else if tag == 2 {
            Ok(CounterCommand::Read)
        } else {
            Err(Corruption::UnknownCommand)
        }
    }

    fn outstanding(&mut self, version: u8) -> (r: Result<OutstandingRequest, Corruption>)
        requires
            old(self).wf(),
        ensures
            final(self).wf(),
            final(self).bytes == old(self).bytes,
            match outstanding_of(old(self).bytes@, old(self).offset as int, version) {
                Ok((value, next)) => r == Ok::<OutstandingRequest, Corruption>(value)
                    && final(self).offset == next && value.valid(),
                Err(error) => r == Err::<OutstandingRequest, Corruption>(error),
            },
    {
        let request = match self.request() {
            Ok(value) => value,
            Err(error) => {
                return Err(error);
            },
        };
        let command = match self.command() {
            Ok(value) => value,
            Err(error) => {
                return Err(error);
            },
        };
        if version < VERSION {
            return Ok(
                OutstandingRequest { request, command, phase: OutstandingPhase::EnteredDriver },
            );
        }
        let byte: u8 = match self.u8() {
            Ok(value) => value,
            Err(error) => {
                return Err(error);
            },
        };
        if byte == 1 {
            Ok(OutstandingRequest { request, command, phase: OutstandingPhase::Queued })
        } else if byte == 2 {
            Ok(OutstandingRequest { request, command, phase: OutstandingPhase::EnteredDriver })
        } else {
            Err(Corruption::UnknownPhase)
        }
    }

    fn terminal(&mut self) -> (r: Result<TerminalRequest, Corruption>)
        requires
            old(self).wf(),
        ensures
            final(self).wf(),
            final(self).bytes == old(self).bytes,
            match terminal_of(old(self).bytes@, old(self).offset as int) {
                Ok((value, next)) => r == Ok::<TerminalRequest, Corruption>(value)
                    && final(self).offset == next && value.valid(),
                Err(error) => r == Err::<TerminalRequest, Corruption>(error),
            },
    {
        let request = match self.request() {
            Ok(value) => value,
            Err(error) => {
                return Err(error);
            },
        };
        let command = match self.command() {
            Ok(value) => value,
            Err(error) => {
                return Err(error);
            },
        };
        let byte: u8 = match self.u8() {
            Ok(value) => value,
            Err(error) => {
                return Err(error);
            },
        };
        let failure = if byte == 1 {
            TerminalFailure::GroupPoisoned
        } else if byte == 2 {
            TerminalFailure::ProcessRestarted
        } else if byte == 3 {
            TerminalFailure::GroupPoisonedUnknown
        } else {
            return Err(Corruption::UnknownTerminal);
        };
        Ok(TerminalRequest { request, command, failure })
    }
}

/// A failed request is never made up for.
proof fn lemma_outstanding_stops(b: Seq<u8>, at: int, n: nat, m: nat, version: u8)
    requires
        n <= m,
        outstanding_rows(b, at, n, version) is Err,
    ensures
        outstanding_rows(b, at, m, version) == outstanding_rows(b, at, n, version),
    decreases m,
{
    if n < m {
        lemma_outstanding_stops(b, at, n, (m - 1) as nat, version);
    }
}

/// A failed refusal is never made up for.
proof fn lemma_terminal_stops(
    b: Seq<u8>,
    at: int,
    n: nat,
    m: nat,
    outstanding: Seq<Row<OutstandingRequest>>,
)
    requires
        n <= m,
        terminal_rows(b, at, n, outstanding) is Err,
    ensures
        terminal_rows(b, at, m, outstanding) == terminal_rows(b, at, n, outstanding),
    decreases m,
{
    if n < m {
        lemma_terminal_stops(b, at, n, (m - 1) as nat, outstanding);
    }
}

/// Rows that hold accepted requests by client.
spec fn outstanding_ok(rows: Seq<Row<OutstandingRequest>>) -> bool {
    forall|i: int|
        0 <= i < rows.len() ==> (#[trigger] rows[i]).value.valid() && rows[i].key
            == rows[i].value.request.client_id@
}

/// Rows that hold terminal refusals by client, of none that has an accepted request.
spec fn terminal_ok(
    rows: Seq<Row<TerminalRequest>>,
    outstanding: Seq<Row<OutstandingRequest>>,
) -> bool {
    forall|i: int|
        0 <= i < rows.len() ==> (#[trigger] rows[i]).value.valid() && rows[i].key
            == rows[i].value.request.client_id@ && !contents(outstanding).contains_key(rows[i].key)
}

impl<'a> Cursor<'a> {
    fn outstanding_table(&mut self, n: u32, version: u8) -> (r: Result<
        Table<OutstandingRequest>,
        Corruption,
    >)
        requires
            old(self).wf(),
        ensures
            final(self).wf(),
            final(self).bytes == old(self).bytes,
            match outstanding_rows(old(self).bytes@, old(self).offset as int, n as nat, version) {
                Ok((rows, next)) => r is Ok && r->Ok_0.all() == rows && final(self).offset == next
                    && r->Ok_0.wf() && outstanding_ok(rows),
                Err(error) => r is Err && r->Err_0 == error,
            },
    {
        let ghost b = self.bytes@;
        let ghost at = self.offset as int;
        let mut table: Table<OutstandingRequest> = Table::new();
        let mut i: u32 = 0;
        while i < n
            invariant
                i <= n,
                self.wf(),
                self.bytes == old(self).bytes,
                b == self.bytes@,
                at == old(self).offset,
                table.wf(),
                outstanding_ok(table.all()),
                outstanding_rows(b, at, i as nat, version) == Ok::<
                    (Seq<Row<OutstandingRequest>>, int),
                    Corruption,
                >((table.all(), self.offset as int)),
            decreases n - i,
        {
            let ghost before = table.all();
            match self.outstanding(version) {
                Err(error) => {
                    proof {
                        lemma_outstanding_stops(b, at, (i + 1) as nat, n as nat, version);
                    }
                    return Err(error);
                },
                Ok(item) => {
                    let key: u64 = item.request.client_id.get() as u64;
                    if table.get(key).is_some() {
                        proof {
                            lemma_outstanding_stops(b, at, (i + 1) as nat, n as nat, version);
                        }
                        return Err(Corruption::DuplicateOutstanding);
                    }
                    table.insert(key, item);
                    proof {
                        lemma_position(before, key);
                        let k = rows_below(before, key) as int;
                        assert forall|j: int| 0 <= j < table.all().len() implies (
                        #[trigger] table.all()[j]).value.valid() && table.all()[j].key
                            == table.all()[j].value.request.client_id@ by {
                            if j < k {
                                assert(table.all()[j] == before[j]);
                            } else if j > k {
                                assert(table.all()[j] == before[j - 1]);
                            }
                        }
                    }
                },
            }
            i = i + 1;
        }
        Ok(table)
    }

    fn terminal_table(&mut self, n: u32, outstanding: &Table<OutstandingRequest>) -> (r: Result<
        Table<TerminalRequest>,
        Corruption,
    >)
        requires
            old(self).wf(),
            outstanding.wf(),
        ensures
            final(self).wf(),
            final(self).bytes == old(self).bytes,
            match terminal_rows(
                old(self).bytes@,
                old(self).offset as int,
                n as nat,
                outstanding.all(),
            ) {
                Ok((rows, next)) => r is Ok && r->Ok_0.all() == rows && final(self).offset == next
                    && r->Ok_0.wf() && terminal_ok(rows, outstanding.all()),
                Err(error) => r is Err && r->Err_0 == error,
            },
    {
        let ghost b = self.bytes@;
        let ghost at = self.offset as int;
        let mut table: Table<TerminalRequest> = Table::new();
        let mut i: u32 = 0;
        while i < n
            invariant
                i <= n,
                self.wf(),
                self.bytes == old(self).bytes,
                b == self.bytes@,
                at == old(self).offset,
                table.wf(),
                outstanding.wf(),
                terminal_ok(table.all(), outstanding.all()),
                terminal_rows(b, at, i as nat, outstanding.all()) == Ok::<
                    (Seq<Row<TerminalRequest>>, int),
                    Corruption,
                >((table.all(), self.offset as int)),
            decreases n - i,
        {
            let ghost before = table.all();
            match self.terminal() {
                Err(error) => {
                    proof {
                        lemma_terminal_stops(
                            b,
                            at,
                            (i + 1) as nat,
                            n as nat,
                            outstanding.all(),
                        );
                    }
                    return Err(error);
                },
                Ok(item) => {
                    let key: u64 = item.request.client_id.get() as u64;
                    if outstanding.get(key).is_some() || table.get(key).is_some() {
                        proof {
                            lemma_terminal_stops(
                                b,
                                at,
                                (i + 1) as nat,
                                n as nat,
                                outstanding.all(),
                            );
                        }
                        return Err(Corruption::DuplicateOutcome);
                    }
                    table.insert(key, item);
                    proof {
                        lemma_position(before, key);
                        let k = rows_below(before, key) as int;
                        assert forall|j: int| 0 <= j < table.all().len() implies (
                        #[trigger] table.all()[j]).value.valid() && table.all()[j].key
                            == table.all()[j].value.request.client_id@ && !contents(
                            outstanding.all(),
                        ).contains_key(table.all()[j].key) by {
                            if j < k {
                                assert(table.all()[j] == before[j]);
                            } else if j > k {
                                assert(table.all()[j] == before[j - 1]);
                            }
                        }
                    }
                },
            }
            i = i + 1;
        }
        Ok(table)
    }
}

/// A row belongs somewhere among the rows.
proof fn lemma_position<V>(rows: Seq<Row<V>>, key: u64)
    ensures
        rows_below(rows, key) <= rows.len(),
    decreases rows.len(),
{
    if rows.len() > 0 {
        lemma_position(rows.drop_last(), key);
    }
}

/// Fields of a record before its requests.
struct Header {
    version: u8,
    incarnation: GroupIncarnation,
    lifecycle: GroupLifecycle,
    poisoned: bool,
    quota: WorkQuota,
    outstanding: u32,
}

pub(crate) fn decode_lifecycle(byte: u8) -> (r: Option<GroupLifecycle>)
    ensures
        r == lifecycle_of(byte),
{
    match byte {
        1 => Some(GroupLifecycle::Creating),
        2 => Some(GroupLifecycle::Recovering),
        3 => Some(GroupLifecycle::Serving),
        4 => Some(GroupLifecycle::Draining),
        5 => Some(GroupLifecycle::Removed),
        6 => Some(GroupLifecycle::Tombstoned),
        _ => None,
    }
}

impl<'a> Cursor<'a> {
    fn header(&mut self) -> (r: Result<Header, Corruption>)
        requires
            old(self).offset == 0,
        ensures
            final(self).wf(),
            final(self).bytes == old(self).bytes,
            match header_of(old(self).bytes@) {
                Ok(header) => r is Ok && header == (HeaderView {
                    version: r->Ok_0.version,
                    incarnation: r->Ok_0.incarnation,
                    lifecycle: r->Ok_0.lifecycle,
                    poisoned: r->Ok_0.poisoned,
                    quota: r->Ok_0.quota,
                    outstanding: r->Ok_0.outstanding,
                    end: final(self).offset as int,
                }) && r->Ok_0.incarnation.valid() && r->Ok_0.quota.valid(),
                Err(error) => r is Err && r->Err_0 == error,
            },
    {
        if self.bytes.len() < 4 {
            return Err(Corruption::TruncatedField);
        }
        let matched = self.bytes[0] == 0x52 && self.bytes[1] == 0x43 && self.bytes[2] == 0x41
            && self.bytes[3] == 0x50;
        proof {
            let head = self.bytes@.subrange(0, 4);
            assert(head[0] == self.bytes@[0] && head[1] == self.bytes@[1] && head[2]
                == self.bytes@[2] && head[3] == self.bytes@[3]);
            if matched {
                assert(head =~= magic());
            }
        }
        if !matched {
            return Err(Corruption::WrongMagic);
        }
        self.offset = 4;
        let version: u8 = match self.u8() {
            Ok(value) => value,
            Err(error) => {
                return Err(error);
            },
        };
        if version < LEGACY_VERSION || version > VERSION {
            return Err(Corruption::UnsupportedVersion);
        }
        let number: u32 = match self.u32() {
            Ok(value) => value,
            Err(error) => {
                return Err(error);
            },
        };
        let Some(incarnation) = GroupIncarnation::new(number) else {
            return Err(Corruption::ZeroIncarnation);
        };
        let byte: u8 = match self.u8() {
            Ok(value) => value,
            Err(error) => {
                return Err(error);
            },
        };
        let Some(lifecycle) = decode_lifecycle(byte) else {
            return Err(Corruption::UnknownLifecycle);
        };
        let mut poisoned: bool = false;
        if version >= VERSION {
            let flag: u8 = match self.u8() {
                Ok(value) => value,
                Err(error) => {
                    return Err(error);
                },
            };
            if flag > 1 {
                return Err(Corruption::InvalidBoolean);
            }
            poisoned = flag == 1;
        }
        let allowance: u32 = match self.u32() {
            Ok(value) => value,
            Err(error) => {
                return Err(error);
            },
        };
        let Some(quota) = WorkQuota::new(allowance) else {
            return Err(Corruption::ZeroQuota);
        };
        let outstanding: u32 = match self.u32() {
            Ok(value) => value,
            Err(error) => {
                return Err(error);
            },
        };
        Ok(Header { version, incarnation, lifecycle, poisoned, quota, outstanding })
    }

    fn application(&mut self) -> (r: Result<ApplicationSnapshot, Corruption>)
        requires
            old(self).wf(),
            old(self).bytes@.len() <= MAX_RECORD_BYTES,
        ensures
            match application_of(old(self).bytes@, old(self).offset as int) {
                Ok((applied_index, payload)) => r is Ok && r->Ok_0.applied_index == applied_index
                    && r->Ok_0.payload@ == payload && r->Ok_0.transfer_id is None,
                Err(error) => r is Err && r->Err_0 == error,
            },
    {
        let applied_index: u64 = match self.u64() {
            Ok(value) => value,
            Err(error) => {
                return Err(error);
            },
        };
        let len: u32 = match self.u32() {
            Ok(value) => value,
            Err(error) => {
                return Err(error);
            },
        };
        let end: u64 = self.offset as u64 + len as u64;
        if end > usize::MAX as u64 {
            return Err(Corruption::LengthOverflow);
        }
        if end > self.bytes.len() as u64 {
            return Err(Corruption::TruncatedField);
        }
        if end < self.bytes.len() as u64 {
            return Err(Corruption::TrailingBytes);
        }
        let mut payload: Vec<u8> = Vec::new();
        payload.extend_from_slice(
            vstd::slice::slice_subrange(self.bytes, self.offset, end as usize),
        );
        assert(payload@ =~= self.bytes@.subrange(self.offset as int, end as int));
        Ok(ApplicationSnapshot { applied_index, payload, transfer_id: None })
    }
}

/// Decodes a record without its checksum.
#[verifier::spinoff_prover]
#[verifier::rlimit(40)]
pub fn decode_body(body: &[u8]) -> (r: Result<StoredRecord, Corruption>)
    requires
        body@.len() <= MAX_RECORD_BYTES,
    ensures
        match record_of(body@) {
            Ok(record) => r is Ok && r->Ok_0@ == record && r->Ok_0.wf(),
            Err(error) => r is Err && r->Err_0 == error,
        },
{
    let mut cursor = Cursor { bytes: body, offset: 0 };
    let header = match cursor.header() {
        Ok(header) => header,
        Err(error) => {
            return Err(error);
        },
    };
    let outstanding = match cursor.outstanding_table(header.outstanding, header.version) {
        Ok(table) => table,
        Err(error) => {
            return Err(error);
        },
    };
    let mut terminal: Table<TerminalRequest> = Table::new();
    if header.version >= VERSION {
        let n: u32 = match cursor.u32() {
            Ok(value) => value,
            Err(error) => {
                return Err(error);
            },
        };
        match cursor.terminal_table(n, &outstanding) {
            Ok(table) => {
                terminal = table;
            },
            Err(error) => {
                return Err(error);
            },
        }
    }
    let application = match cursor.application() {
        Ok(application) => application,
        Err(error) => {
            return Err(error);
        },
    };
    let record = StoredRecord {
        policy: StoredPolicy {
            incarnation: header.incarnation,
            lifecycle: header.lifecycle,
            poisoned: header.poisoned,
            quota: header.quota,
            outstanding,
            terminal,
        },
        application,
    };
    assert(record@ =~= record_of(body@)->Ok_0);
    Ok(record)
}

/// Decodes an image whose bytes without the checksum have the checksum `actual`.
pub fn decode_checked(bytes: &[u8], actual: u32) -> (r: Result<StoredRecord, StoreError>)
    ensures
        match decoded_record(bytes@, actual) {
            Ok(record) => r is Ok && r->Ok_0@ == record && r->Ok_0.wf(),
            Err(error) => r is Err && r->Err_0 == error,
        },
{
    if bytes.len() > MAX_RECORD_BYTES {
        return Err(StoreError::TooLarge { bytes: bytes.len() });
    }
    if bytes.len() < 9 {
        return Err(StoreError::Corrupt(Corruption::TruncatedEnvelope));
    }
    let body_len: usize = bytes.len() - 4;
    let expected: u32 = get_le_u32(bytes, body_len);
    if expected != actual {
        return Err(StoreError::Checksum { expected, actual });
    }
    let body = vstd::slice::slice_subrange(bytes, 0, body_len);
    assert(body@ =~= bytes@.take(body_len as int));
    match decode_body(body) {
        Ok(record) => Ok(record),
        Err(corruption) => Err(StoreError::Corrupt(corruption)),
    }
}

/// Decodes a published image.
pub fn decode(bytes: &[u8]) -> (r: Result<StoredRecord, StoreError>)
    ensures
        ({
            let actual = if bytes@.len() >= 4 {
                crc32_of(bytes@.take(bytes@.len() - 4))
            } else {
                0
            };
            match decoded_record(bytes@, actual) {
                Ok(record) => r is Ok && r->Ok_0@ == record && r->Ok_0.wf(),
                Err(error) => r is Err && r->Err_0 == error,
            }
        }),
{
    if bytes.len() < 4 {
        return decode_checked(bytes, 0);
    }
    let body = vstd::slice::slice_subrange(bytes, 0, bytes.len() - 4);
    assert(body@ =~= bytes@.take(bytes@.len() - 4));
    decode_checked(bytes, crc32(body))
}

} // verus!
