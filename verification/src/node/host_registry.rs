//! Durable host authority for counter group identities and retirement.
//!
//! The per-group application image is not an existence oracle. The registry survives loss of that
//! image and prevents a known slot, incarnation, removal or tombstone from being mistaken for a
//! first boot. Intents make every cross-directory lifecycle transition replayable after a crash.

pub mod laws;

use vstd::prelude::*;

use crate::bytes::{get_le_u32, le_bytes_u32, lemma_part, lemma_u32_written, put_le_u32, u32_at};
use crate::checksum::{crc32, crc32_of};
use crate::node::record::{decode_lifecycle, encode_lifecycle, lifecycle_byte, lifecycle_of};
use crate::table::{
    contents, holds, lemma_row, lemma_rows_below, rows_below, rows_ordered, with_row, Row, Table,
};
use crate::types::{GroupId, GroupIncarnation, GroupLifecycle, WorkQuota};

verus! {

/// Version every host record is written in.
pub const VERSION: u8 = 1;

/// Maximum size of the registry.
pub const MAX_REGISTRY_BYTES: usize = 128 * 1024;

/// Kind of a host record, which fixes the bytes it starts with.
#[derive(Clone, Copy, Debug, Eq, PartialEq, Structural)]
pub enum HostRecord {
    /// Slot registry.
    Registry,
    /// Retirement intent.
    Retirement,
    /// Activation intent.
    Activation,
    /// Bootstrap intent.
    Bootstrap,
}

impl HostRecord {
    /// Last byte of the magic; the first three are shared.
    pub open spec fn tag(self) -> (u8, u8) {
        match self {
            HostRecord::Registry => (0x48, 0x52),
            HostRecord::Retirement => (0x52, 0x49),
            HostRecord::Activation => (0x52, 0x41),
            HostRecord::Bootstrap => (0x52, 0x42),
        }
    }

    /// Bytes a record of this kind starts with.
    pub open spec fn magic(self) -> Seq<u8> {
        seq![0x52u8, 0x43u8, self.tag().0, self.tag().1]
    }

    fn third(self) -> (r: u8)
        ensures
            r == self.tag().0,
    {
        match self {
            HostRecord::Registry => 0x48,
            _ => 0x52,
        }
    }

    fn fourth(self) -> (r: u8)
        ensures
            r == self.tag().1,
    {
        match self {
            HostRecord::Registry => 0x52,
            HostRecord::Retirement => 0x49,
            HostRecord::Activation => 0x41,
            HostRecord::Bootstrap => 0x42,
        }
    }
}

/// What is wrong with a host record or a request to the registry.
#[derive(Clone, Copy, Debug, Eq, PartialEq, Structural)]
pub enum RegistryError {
    /// Shorter than any record.
    Truncated,
    /// The bytes are not the ones that were written.
    Checksum {
        /// Checksum the record states.
        expected: u32,
        /// Checksum of its bytes.
        actual: u32,
    },
    /// Not a record of this kind.
    WrongMagic,
    /// Unknown version.
    UnsupportedVersion,
    /// A field runs past the end.
    TruncatedField,
    /// Zero incarnation.
    ZeroIncarnation,
    /// Zero previous incarnation.
    ZeroPreviousIncarnation,
    /// Zero next incarnation.
    ZeroNextIncarnation,
    /// Unknown lifecycle.
    UnknownLifecycle {
        /// Its byte.
        value: u8,
    },
    /// Zero quota.
    ZeroQuota,
    /// Zero group count.
    ZeroGroupCount,
    /// Incarnations that do not follow each other.
    NotConsecutive,
    /// Two slots of one group.
    DuplicateGroup {
        /// The group.
        group: GroupId,
    },
    /// Bytes after the record.
    TrailingBytes,
    /// The registry exceeds its bound.
    TooLarge {
        /// Its size.
        bytes: usize,
    },
    /// Not as many slots as groups are configured.
    SlotCount {
        /// Slots found.
        found: usize,
        /// Groups configured.
        expected: u32,
    },
    /// No slot for a configured group.
    MissingGroup {
        /// The group.
        group: GroupId,
    },
    /// No slot for this group.
    NoSlot {
        /// The group.
        group: GroupId,
    },
    /// The registry takes no group that was not configured.
    Unconfigured {
        /// The group.
        group: GroupId,
    },
}

/// Durable identity of one slot.
#[derive(Clone, Copy, Debug, Eq, PartialEq, Structural)]
pub struct SlotRecord {
    /// The group.
    pub group_id: GroupId,
    /// Its incarnation.
    pub incarnation: GroupIncarnation,
    /// Its lifecycle.
    pub lifecycle: GroupLifecycle,
    /// Its quota.
    pub quota: WorkQuota,
}

impl SlotRecord {
    /// The slot holds values that can exist.
    pub open spec fn valid(self) -> bool {
        self.incarnation.valid() && self.quota.valid()
    }
}

/// Promise to retire a group.
#[derive(Clone, Copy, Debug, Eq, PartialEq, Structural)]
pub struct RetirementIntent {
    /// The group.
    pub group_id: GroupId,
    /// Incarnation that retires.
    pub incarnation: GroupIncarnation,
}

/// Promise to open the next incarnation of a group.
#[derive(Clone, Copy, Debug, Eq, PartialEq, Structural)]
pub struct ActivationIntent {
    /// The group.
    pub group_id: GroupId,
    /// Incarnation that was retired.
    pub previous_incarnation: GroupIncarnation,
    /// Incarnation that opens.
    pub next_incarnation: GroupIncarnation,
    /// Its quota.
    pub quota: WorkQuota,
}

/// Promise to boot a host for the first time.
#[derive(Clone, Copy, Debug, Eq, PartialEq, Structural)]
pub struct BootstrapIntent {
    /// Groups configured.
    pub group_count: u32,
    /// Quota of each.
    pub quota: WorkQuota,
}

// ------------------------------------------------------------------ envelope

/// What is wrong with the envelope of a record whose bytes without the checksum have the checksum
/// `actual`.
pub open spec fn envelope_fault(bytes: Seq<u8>, actual: u32, kind: HostRecord) -> Option<
    RegistryError,
> {
    let n = bytes.len() - 4;
    if bytes.len() < 9 {
        Some(RegistryError::Truncated)
    } else if u32_at(bytes, n) != actual {
        Some(RegistryError::Checksum { expected: u32_at(bytes, n), actual })
    } else if bytes.subrange(0, 4) != kind.magic() {
        Some(RegistryError::WrongMagic)
    } else if bytes[4] != VERSION {
        Some(RegistryError::UnsupportedVersion)
    } else {
        None
    }
}

/// Bytes between the version and the checksum.
pub open spec fn body_of(bytes: Seq<u8>) -> Seq<u8> {
    bytes.subrange(5, bytes.len() - 4)
}

/// Bytes of a record before its checksum.
pub open spec fn framed(kind: HostRecord, body: Seq<u8>) -> Seq<u8> {
    kind.magic() + seq![VERSION] + body
}

/// A framed body with the checksum it was sealed with has a sound envelope, and is that body.
pub proof fn law_envelopes_round_trip(kind: HostRecord, body: Seq<u8>, checksum: u32)
    ensures
        ({
            let bytes = framed(kind, body) + le_bytes_u32(checksum);
            &&& envelope_fault(bytes, checksum, kind) is None
            &&& body_of(bytes) == body
            &&& bytes.take(bytes.len() - 4) == framed(kind, body)
        }),
{
    let bytes = framed(kind, body) + le_bytes_u32(checksum);
    let n = bytes.len() - 4;
    assert(bytes.subrange(n, n + 4) =~= le_bytes_u32(checksum));
    lemma_u32_written(bytes, n, checksum);
    assert(bytes.subrange(0, 4) =~= kind.magic());
    assert(body_of(bytes) =~= body);
    assert(bytes.take(n) =~= framed(kind, body));
}

/// Records of different kinds are told apart by their first bytes.
pub proof fn law_kinds_are_told_apart(a: HostRecord, b: HostRecord)
    requires
        a != b,
    ensures
        a.magic() != b.magic(),
{
    assert(a.magic()[2] == a.tag().0 && a.magic()[3] == a.tag().1);
    assert(b.magic()[2] == b.tag().0 && b.magic()[3] == b.tag().1);
}

fn check_envelope(bytes: &[u8], actual: u32, kind: HostRecord) -> (r: Result<(), RegistryError>)
    ensures
        match envelope_fault(bytes@, actual, kind) {
            None => r is Ok,
            Some(error) => r == Err::<(), RegistryError>(error),
        },
{
    if bytes.len() < 9 {
        return Err(RegistryError::Truncated);
    }
    let expected: u32 = get_le_u32(bytes, bytes.len() - 4);
    if expected != actual {
        return Err(RegistryError::Checksum { expected, actual });
    }
    let matched = bytes[0] == 0x52 && bytes[1] == 0x43 && bytes[2] == kind.third() && bytes[3]
        == kind.fourth();
    proof {
        let head = bytes@.subrange(0, 4);
        assert(head[0] == bytes@[0] && head[1] == bytes@[1] && head[2] == bytes@[2] && head[3]
            == bytes@[3]);
        if matched {
            assert(head =~= kind.magic());
        }
    }
    if !matched {
        return Err(RegistryError::WrongMagic);
    }
    if bytes[4] != VERSION {
        return Err(RegistryError::UnsupportedVersion);
    }
    Ok(())
}

fn start_record(kind: HostRecord) -> (r: Vec<u8>)
    ensures
        r@ == framed(kind, Seq::empty()),
{
    let mut bytes: Vec<u8> = Vec::new();
    bytes.push(0x52);
    bytes.push(0x43);
    bytes.push(kind.third());
    bytes.push(kind.fourth());
    bytes.push(VERSION);
    assert(bytes@ =~= framed(kind, Seq::empty()));
    bytes
}

/// Appends the checksum of everything so far.
fn append_checksum(bytes: &mut Vec<u8>)
    ensures
        final(bytes)@ == old(bytes)@ + le_bytes_u32(crc32_of(old(bytes)@)),
{
    let checksum: u32 = crc32(bytes.as_slice());
    put_le_u32(bytes, checksum);
}

/// Returns the checksum of a record's bytes but for the stated checksum.
pub fn checksum_of(bytes: &[u8]) -> (r: u32)
    ensures
        bytes@.len() >= 4 ==> r == crc32_of(bytes@.take(bytes@.len() - 4)),
        bytes@.len() < 4 ==> r == 0,
{
    if bytes.len() < 4 {
        return 0;
    }
    let body = vstd::slice::slice_subrange(bytes, 0, bytes.len() - 4);
    assert(body@ =~= bytes@.take(bytes@.len() - 4));
    crc32(body)
}

// ------------------------------------------------------------------- intents

/// Body of a retirement intent.
pub open(crate) spec fn retirement_body(intent: RetirementIntent) -> Seq<u8> {
    le_bytes_u32(intent.group_id@) + le_bytes_u32(intent.incarnation@)
}

/// Retirement intent a body stands for.
pub open(crate) spec fn retirement_of(body: Seq<u8>) -> Result<RetirementIntent, RegistryError> {
    if body.len() < 8 {
        Err(RegistryError::TruncatedField)
    } else if u32_at(body, 4) == 0 {
        Err(RegistryError::ZeroIncarnation)
    } else if body.len() > 8 {
        Err(RegistryError::TrailingBytes)
    } else {
        Ok(
            RetirementIntent {
                group_id: GroupId(u32_at(body, 0)),
                incarnation: GroupIncarnation(u32_at(body, 4)),
            },
        )
    }
}

/// What decoding a retirement intent gives.
pub open(crate) spec fn decoded_retirement(bytes: Seq<u8>, actual: u32) -> Result<
    RetirementIntent,
    RegistryError,
> {
    match envelope_fault(bytes, actual, HostRecord::Retirement) {
        Some(error) => Err(error),
        None => retirement_of(body_of(bytes)),
    }
}

impl RetirementIntent {
    /// Encodes the intent as it is published.
    pub fn encode(self) -> (r: Vec<u8>)
        ensures
            r@ == framed(HostRecord::Retirement, retirement_body(self)) + le_bytes_u32(
                crc32_of(framed(HostRecord::Retirement, retirement_body(self))),
            ),
    {
        let mut bytes = start_record(HostRecord::Retirement);
        put_le_u32(&mut bytes, self.group_id.get());
        put_le_u32(&mut bytes, self.incarnation.get());
        assert(bytes@ =~= framed(HostRecord::Retirement, retirement_body(self)));
        append_checksum(&mut bytes);
        bytes
    }

    /// Decodes a published intent whose bytes without the checksum have the checksum `actual`.
    pub fn decode_checked(bytes: &[u8], actual: u32) -> (r: Result<Self, RegistryError>)
        ensures
            r == decoded_retirement(bytes@, actual),
    {
        if let Err(error) = check_envelope(bytes, actual, HostRecord::Retirement) {
            return Err(error);
        }
        let body = vstd::slice::slice_subrange(bytes, 5, bytes.len() - 4);
        if body.len() < 8 {
            return Err(RegistryError::TruncatedField);
        }
        let Some(incarnation) = GroupIncarnation::new(get_le_u32(body, 4)) else {
            return Err(RegistryError::ZeroIncarnation);
        };
        if body.len() > 8 {
            return Err(RegistryError::TrailingBytes);
        }
        Ok(RetirementIntent { group_id: GroupId::new(get_le_u32(body, 0)), incarnation })
    }

    /// Decodes a published intent.
    pub fn decode(bytes: &[u8]) -> (r: Result<Self, RegistryError>)
        ensures
            bytes@.len() >= 4 ==> r == decoded_retirement(
                bytes@,
                crc32_of(bytes@.take(bytes@.len() - 4)),
            ),
            bytes@.len() < 4 ==> r == Err::<Self, RegistryError>(RegistryError::Truncated),
    {
        Self::decode_checked(bytes, checksum_of(bytes))
    }
}

/// Body of an activation intent.
pub open(crate) spec fn activation_body(intent: ActivationIntent) -> Seq<u8> {
    le_bytes_u32(intent.group_id@) + le_bytes_u32(intent.previous_incarnation@) + le_bytes_u32(
        intent.next_incarnation@,
    ) + le_bytes_u32(intent.quota@)
}

/// Activation intent a body stands for.
pub open(crate) spec fn activation_of(body: Seq<u8>) -> Result<ActivationIntent, RegistryError> {
    let previous = u32_at(body, 4);
    let next = u32_at(body, 8);
    if body.len() < 8 {
        Err(RegistryError::TruncatedField)
    } else if previous == 0 {
        Err(RegistryError::ZeroPreviousIncarnation)
    } else if body.len() < 12 {
        Err(RegistryError::TruncatedField)
    } else if next == 0 {
        Err(RegistryError::ZeroNextIncarnation)
    } else if body.len() < 16 {
        Err(RegistryError::TruncatedField)
    } else if u32_at(body, 12) == 0 {
        Err(RegistryError::ZeroQuota)
    } else if previous + 1 != next {
        Err(RegistryError::NotConsecutive)
    } else if body.len() > 16 {
        Err(RegistryError::TrailingBytes)
    } else {
        Ok(
            ActivationIntent {
                group_id: GroupId(u32_at(body, 0)),
                previous_incarnation: GroupIncarnation(previous),
                next_incarnation: GroupIncarnation(next),
                quota: WorkQuota(u32_at(body, 12)),
            },
        )
    }
}

/// What decoding an activation intent gives.
pub open(crate) spec fn decoded_activation(bytes: Seq<u8>, actual: u32) -> Result<
    ActivationIntent,
    RegistryError,
> {
    match envelope_fault(bytes, actual, HostRecord::Activation) {
        Some(error) => Err(error),
        None => activation_of(body_of(bytes)),
    }
}

impl ActivationIntent {
    /// Encodes the intent as it is published.
    pub fn encode(self) -> (r: Vec<u8>)
        ensures
            r@ == framed(HostRecord::Activation, activation_body(self)) + le_bytes_u32(
                crc32_of(framed(HostRecord::Activation, activation_body(self))),
            ),
    {
        let mut bytes = start_record(HostRecord::Activation);
        put_le_u32(&mut bytes, self.group_id.get());
        put_le_u32(&mut bytes, self.previous_incarnation.get());
        put_le_u32(&mut bytes, self.next_incarnation.get());
        put_le_u32(&mut bytes, self.quota.get());
        assert(bytes@ =~= framed(HostRecord::Activation, activation_body(self)));
        append_checksum(&mut bytes);
        bytes
    }

    /// Decodes a published intent whose bytes without the checksum have the checksum `actual`.
    pub fn decode_checked(bytes: &[u8], actual: u32) -> (r: Result<Self, RegistryError>)
        ensures
            r == decoded_activation(bytes@, actual),
    {
        if let Err(error) = check_envelope(bytes, actual, HostRecord::Activation) {
            return Err(error);
        }
        let body = vstd::slice::slice_subrange(bytes, 5, bytes.len() - 4);
        if body.len() < 8 {
            return Err(RegistryError::TruncatedField);
        }
        let Some(previous_incarnation) = GroupIncarnation::new(get_le_u32(body, 4)) else {
            return Err(RegistryError::ZeroPreviousIncarnation);
        };
        if body.len() < 12 {
            return Err(RegistryError::TruncatedField);
        }
        let Some(next_incarnation) = GroupIncarnation::new(get_le_u32(body, 8)) else {
            return Err(RegistryError::ZeroNextIncarnation);
        };
        if body.len() < 16 {
            return Err(RegistryError::TruncatedField);
        }
        let Some(quota) = WorkQuota::new(get_le_u32(body, 12)) else {
            return Err(RegistryError::ZeroQuota);
        };
        let consecutive = match previous_incarnation.successor() {
            Some(successor) => successor == next_incarnation,
            None => false,
        };
        if !consecutive {
            return Err(RegistryError::NotConsecutive);
        }
        if body.len() > 16 {
            return Err(RegistryError::TrailingBytes);
        }
        Ok(
            ActivationIntent {
                group_id: GroupId::new(get_le_u32(body, 0)),
                previous_incarnation,
                next_incarnation,
                quota,
            },
        )
    }

    /// Decodes a published intent.
    pub fn decode(bytes: &[u8]) -> (r: Result<Self, RegistryError>)
        ensures
            bytes@.len() >= 4 ==> r == decoded_activation(
                bytes@,
                crc32_of(bytes@.take(bytes@.len() - 4)),
            ),
            bytes@.len() < 4 ==> r == Err::<Self, RegistryError>(RegistryError::Truncated),
    {
        Self::decode_checked(bytes, checksum_of(bytes))
    }
}

/// Body of a bootstrap intent.
pub open(crate) spec fn bootstrap_body(intent: BootstrapIntent) -> Seq<u8> {
    le_bytes_u32(intent.group_count) + le_bytes_u32(intent.quota@)
}

/// Bootstrap intent a body stands for.
pub open(crate) spec fn bootstrap_of(body: Seq<u8>) -> Result<BootstrapIntent, RegistryError> {
    if body.len() < 8 {
        Err(RegistryError::TruncatedField)
    } else if u32_at(body, 4) == 0 {
        Err(RegistryError::ZeroQuota)
    } else if u32_at(body, 0) == 0 {
        Err(RegistryError::ZeroGroupCount)
    } else if body.len() > 8 {
        Err(RegistryError::TrailingBytes)
    } else {
        Ok(BootstrapIntent { group_count: u32_at(body, 0), quota: WorkQuota(u32_at(body, 4)) })
    }
}

/// What decoding a bootstrap intent gives.
pub open(crate) spec fn decoded_bootstrap(bytes: Seq<u8>, actual: u32) -> Result<
    BootstrapIntent,
    RegistryError,
> {
    match envelope_fault(bytes, actual, HostRecord::Bootstrap) {
        Some(error) => Err(error),
        None => bootstrap_of(body_of(bytes)),
    }
}

impl BootstrapIntent {
    /// Encodes the intent as it is published.
    pub fn encode(self) -> (r: Vec<u8>)
        ensures
            r@ == framed(HostRecord::Bootstrap, bootstrap_body(self)) + le_bytes_u32(
                crc32_of(framed(HostRecord::Bootstrap, bootstrap_body(self))),
            ),
    {
        let mut bytes = start_record(HostRecord::Bootstrap);
        put_le_u32(&mut bytes, self.group_count);
        put_le_u32(&mut bytes, self.quota.get());
        assert(bytes@ =~= framed(HostRecord::Bootstrap, bootstrap_body(self)));
        append_checksum(&mut bytes);
        bytes
    }

    /// Decodes a published intent whose bytes without the checksum have the checksum `actual`.
    pub fn decode_checked(bytes: &[u8], actual: u32) -> (r: Result<Self, RegistryError>)
        ensures
            r == decoded_bootstrap(bytes@, actual),
    {
        if let Err(error) = check_envelope(bytes, actual, HostRecord::Bootstrap) {
            return Err(error);
        }
        let body = vstd::slice::slice_subrange(bytes, 5, bytes.len() - 4);
        if body.len() < 8 {
            return Err(RegistryError::TruncatedField);
        }
        let group_count: u32 = get_le_u32(body, 0);
        let Some(quota) = WorkQuota::new(get_le_u32(body, 4)) else {
            return Err(RegistryError::ZeroQuota);
        };
        if group_count == 0 {
            return Err(RegistryError::ZeroGroupCount);
        }
        if body.len() > 8 {
            return Err(RegistryError::TrailingBytes);
        }
        Ok(BootstrapIntent { group_count, quota })
    }

    /// Decodes a published intent.
    pub fn decode(bytes: &[u8]) -> (r: Result<Self, RegistryError>)
        ensures
            bytes@.len() >= 4 ==> r == decoded_bootstrap(
                bytes@,
                crc32_of(bytes@.take(bytes@.len() - 4)),
            ),
            bytes@.len() < 4 ==> r == Err::<Self, RegistryError>(RegistryError::Truncated),
    {
        Self::decode_checked(bytes, checksum_of(bytes))
    }
}

/// Every intent is restored to what was published.
pub proof fn law_intents_round_trip(
    retirement: RetirementIntent,
    activation: ActivationIntent,
    bootstrap: BootstrapIntent,
)
    requires
        retirement.incarnation.valid(),
        activation.previous_incarnation.valid(),
        activation.quota.valid(),
        activation.next_incarnation@ == activation.previous_incarnation@ + 1,
        bootstrap.group_count != 0,
        bootstrap.quota.valid(),
    ensures
        retirement_of(retirement_body(retirement)) == Ok::<RetirementIntent, RegistryError>(
            retirement,
        ),
        activation_of(activation_body(activation)) == Ok::<ActivationIntent, RegistryError>(
            activation,
        ),
        bootstrap_of(bootstrap_body(bootstrap)) == Ok::<BootstrapIntent, RegistryError>(bootstrap),
{
    let r = retirement_body(retirement);
    assert(r.subrange(0, 4) =~= le_bytes_u32(retirement.group_id@));
    assert(r.subrange(4, 8) =~= le_bytes_u32(retirement.incarnation@));
    lemma_u32_written(r, 0, retirement.group_id@);
    lemma_u32_written(r, 4, retirement.incarnation@);
    let a = activation_body(activation);
    assert(a.subrange(0, 4) =~= le_bytes_u32(activation.group_id@));
    assert(a.subrange(4, 8) =~= le_bytes_u32(activation.previous_incarnation@));
    assert(a.subrange(8, 12) =~= le_bytes_u32(activation.next_incarnation@));
    assert(a.subrange(12, 16) =~= le_bytes_u32(activation.quota@));
    lemma_u32_written(a, 0, activation.group_id@);
    lemma_u32_written(a, 4, activation.previous_incarnation@);
    lemma_u32_written(a, 8, activation.next_incarnation@);
    lemma_u32_written(a, 12, activation.quota@);
    let b = bootstrap_body(bootstrap);
    assert(b.subrange(0, 4) =~= le_bytes_u32(bootstrap.group_count));
    assert(b.subrange(4, 8) =~= le_bytes_u32(bootstrap.quota@));
    lemma_u32_written(b, 0, bootstrap.group_count);
    lemma_u32_written(b, 4, bootstrap.quota@);
}

// ------------------------------------------------------------------ registry

/// Bytes of one slot.
pub open(crate) spec fn slot_bytes(slot: SlotRecord) -> Seq<u8> {
    le_bytes_u32(slot.group_id@) + le_bytes_u32(slot.incarnation@) + seq![
        lifecycle_byte(slot.lifecycle),
    ] + le_bytes_u32(slot.quota@)
}

/// Bytes of the slots, one after the other.
pub open(crate) spec fn slots_bytes(rows: Seq<Row<SlotRecord>>) -> Seq<u8>
    decreases rows.len(),
{
    if rows.len() == 0 {
        Seq::empty()
    } else {
        slots_bytes(rows.drop_last()) + slot_bytes(rows.last().value)
    }
}

/// Body of the registry.
pub open(crate) spec fn registry_body(rows: Seq<Row<SlotRecord>>) -> Seq<u8> {
    le_bytes_u32(rows.len() as u32) + slots_bytes(rows)
}

/// Slot at `at`. Fields are read in order, so a short slot fails at the first field it lacks.
pub open(crate) spec fn slot_of(body: Seq<u8>, at: int) -> Result<SlotRecord, RegistryError> {
    if body.len() < at + 8 {
        Err(RegistryError::TruncatedField)
    } else if u32_at(body, at + 4) == 0 {
        Err(RegistryError::ZeroIncarnation)
    } else if body.len() < at + 9 {
        Err(RegistryError::TruncatedField)
    } else if lifecycle_of(body[at + 8]) is None {
        Err(RegistryError::UnknownLifecycle { value: body[at + 8] })
    } else if body.len() < at + 13 {
        Err(RegistryError::TruncatedField)
    } else if u32_at(body, at + 9) == 0 {
        Err(RegistryError::ZeroQuota)
    } else {
        Ok(
            SlotRecord {
                group_id: GroupId(u32_at(body, at)),
                incarnation: GroupIncarnation(u32_at(body, at + 4)),
                lifecycle: lifecycle_of(body[at + 8])->0,
                quota: WorkQuota(u32_at(body, at + 9)),
            },
        )
    }
}

/// The first `n` slots of the registry, by group.
pub open(crate) spec fn slot_rows(body: Seq<u8>, n: nat) -> Result<
    Seq<Row<SlotRecord>>,
    RegistryError,
>
    decreases n,
{
    if n == 0 {
        Ok(Seq::empty())
    } else {
        match slot_rows(body, (n - 1) as nat) {
            Err(error) => Err(error),
            Ok(rows) => match slot_of(body, 4 + 13 * (n - 1)) {
                Err(error) => Err(error),
                Ok(slot) => {
                    let key = slot.group_id@ as u64;
                    if contents(rows).contains_key(key) {
                        Err(RegistryError::DuplicateGroup { group: slot.group_id })
                    } else {
                        Ok(with_row(rows, key, slot))
                    }
                },
            },
        }
    }
}

/// Slots a registry body stands for.
pub open(crate) spec fn registry_of(body: Seq<u8>) -> Result<Seq<Row<SlotRecord>>, RegistryError> {
    if body.len() < 4 {
        Err(RegistryError::TruncatedField)
    } else {
        match slot_rows(body, u32_at(body, 0) as nat) {
            Err(error) => Err(error),
            Ok(rows) => if body.len() > 4 + 13 * u32_at(body, 0) {
                Err(RegistryError::TrailingBytes)
            } else {
                Ok(rows)
            },
        }
    }
}

/// What decoding a registry gives.
pub open(crate) spec fn decoded_registry(bytes: Seq<u8>, actual: u32) -> Result<
    Seq<Row<SlotRecord>>,
    RegistryError,
> {
    if bytes.len() > MAX_REGISTRY_BYTES {
        Err(RegistryError::TooLarge { bytes: bytes.len() as usize })
    } else {
        match envelope_fault(bytes, actual, HostRecord::Registry) {
            Some(error) => Err(error),
            None => registry_of(body_of(bytes)),
        }
    }
}

/// Rows that hold slots by group.
pub open(crate) spec fn slots_by_group(rows: Seq<Row<SlotRecord>>) -> bool {
    &&& rows_ordered(rows)
    &&& forall|i: int|
        0 <= i < rows.len() ==> (#[trigger] rows[i]).value.valid() && rows[i].key
            == rows[i].value.group_id@
}

/// What is wrong with the set of slots, when `group_count` groups are configured: numbered from
/// one.
pub open(crate) spec fn slot_set_fault(rows: Seq<Row<SlotRecord>>, group_count: u32) -> Option<
    RegistryError,
> {
    if rows.len() != group_count {
        Some(RegistryError::SlotCount { found: rows.len() as usize, expected: group_count })
    } else {
        first_missing(rows, 1, group_count)
    }
}

/// First configured group, from `raw` on, that has no slot.
pub open(crate) spec fn first_missing(rows: Seq<Row<SlotRecord>>, raw: int, group_count: u32) -> Option<
    RegistryError,
>
    decreases group_count - raw + 1,
{
    if raw > group_count {
        None
    } else if !contents(rows).contains_key(raw as u64) {
        Some(RegistryError::MissingGroup { group: GroupId(raw as u32) })
    } else {
        first_missing(rows, raw + 1, group_count)
    }
}

/// Slots of every group this host was ever configured with.
#[derive(Debug)]
pub struct HostRegistry {
    slots: Table<SlotRecord>,
}

impl HostRegistry {
    /// The slots, by group.
    pub closed spec fn rows(self) -> Seq<Row<SlotRecord>> {
        self.slots.all()
    }

    /// Slots stand by group, in order.
    pub open(crate) spec fn wf(self) -> bool {
        slots_by_group(self.rows())
    }

    /// Decodes a published registry whose bytes without the checksum have the checksum `actual`,
    /// and checks that it has exactly the configured groups.
    pub fn open_checked(bytes: &[u8], group_count: u32, actual: u32) -> (r: Result<
        Self,
        RegistryError,
    >)
        ensures
            match decoded_registry(bytes@, actual) {
                Err(error) => r is Err && r->Err_0 == error,
                Ok(rows) => match slot_set_fault(rows, group_count) {
                    Some(error) => r is Err && r->Err_0 == error,
                    None => r is Ok && r->Ok_0.rows() == rows && r->Ok_0.wf(),
                },
            },
    {
        if bytes.len() > MAX_REGISTRY_BYTES {
            return Err(RegistryError::TooLarge { bytes: bytes.len() });
        }
        if let Err(error) = check_envelope(bytes, actual, HostRecord::Registry) {
            return Err(error);
        }
        let body = vstd::slice::slice_subrange(bytes, 5, bytes.len() - 4);
        assert(body@ =~= body_of(bytes@));
        let slots = match decode_slots(body) {
            Ok(slots) => slots,
            Err(error) => {
                return Err(error);
            },
        };
        if slots.len() as u64 != group_count as u64 {
            return Err(RegistryError::SlotCount { found: slots.len(), expected: group_count });
        }
        let mut raw: u64 = 1;
        while raw <= group_count as u64
            invariant
                1 <= raw <= group_count + 1,
                slots.wf(),
                first_missing(slots.all(), 1, group_count) == first_missing(
                    slots.all(),
                    raw as int,
                    group_count,
                ),
                decoded_registry(bytes@, actual) == Ok::<Seq<Row<SlotRecord>>, RegistryError>(
                    slots.all(),
                ),
                slots.all().len() == group_count,
            decreases group_count + 1 - raw,
        {
            if slots.get(raw).is_none() {
                return Err(RegistryError::MissingGroup { group: GroupId::new(raw as u32) });
            }
            raw = raw + 1;
        }
        Ok(Self { slots })
    }

    /// Decodes a published registry.
    pub fn open(bytes: &[u8], group_count: u32) -> (r: Result<Self, RegistryError>)
        ensures
            ({
                let actual = if bytes@.len() >= 4 {
                    crc32_of(bytes@.take(bytes@.len() - 4))
                } else {
                    0
                };
                match decoded_registry(bytes@, actual) {
                    Err(error) => r is Err && r->Err_0 == error,
                    Ok(rows) => match slot_set_fault(rows, group_count) {
                        Some(error) => r is Err && r->Err_0 == error,
                        None => r is Ok && r->Ok_0.rows() == rows && r->Ok_0.wf(),
                    },
                }
            }),
    {
        Self::open_checked(bytes, group_count, checksum_of(bytes))
    }

    /// Builds a registry from its first slots. A later slot of the same group stands.
    pub fn create(slots: &Vec<SlotRecord>) -> (r: Self)
        requires
            forall|i: int| 0 <= i < slots@.len() ==> (#[trigger] slots@[i]).valid(),
        ensures
            r.wf(),
            forall|i: int|
                0 <= i < slots@.len() ==> contents(r.rows()).contains_key(
                    (#[trigger] slots@[i]).group_id@ as u64,
                ),
            forall|key: u64| #[trigger]
                contents(r.rows()).contains_key(key) ==> is_last_slot(
                    slots@,
                    key,
                    contents(r.rows())[key],
                ),
    {
        let mut table: Table<SlotRecord> = Table::new();
        let mut i: usize = 0;
        while i < slots.len()
            invariant
                i <= slots.len(),
                table.wf(),
                forall|j: int| 0 <= j < slots@.len() ==> (#[trigger] slots@[j]).valid(),
                forall|j: int|
                    0 <= j < i ==> table@.contains_key((#[trigger] slots@[j]).group_id@ as u64),
                forall|key: u64| #[trigger]
                    table@.contains_key(key) ==> is_last_slot(
                        slots@.take(i as int),
                        key,
                        table@[key],
                    ),
            decreases slots.len() - i,
        {
            let slot = slots[i];
            let ghost before = table@;
            table.insert(slot.group_id.get() as u64, slot);
            proof {
                let more = slots@.take(i + 1);
                let seen = slots@.take(i as int);
                assert forall|key: u64| #[trigger] table@.contains_key(key) implies is_last_slot(
                    more,
                    key,
                    table@[key],
                ) by {
                    if key == slot.group_id@ {
                        assert(last_slot_at(more, key, slot, i as int));
                    } else {
                        assert(before.contains_key(key));
                        let j = choose|j: int| last_slot_at(seen, key, before[key], j);
                        assert(last_slot_at(seen, key, before[key], j));
                        assert forall|k: int| j < k < more.len() implies (
                        #[trigger] more[k]).group_id@ != key by {
                            if k < i {
                                assert(seen[k] == more[k]);
                            }
                        }
                        assert(more[j] == seen[j]);
                        assert(last_slot_at(more, key, before[key], j));
                    }
                }
            }
            i = i + 1;
        }
        proof {
            assert(slots@.take(i as int) =~= slots@);
            let rows = table.all();
            assert forall|key: u64| #[trigger] contents(rows).contains_key(key) implies is_last_slot(
                slots@,
                key,
                contents(rows)[key],
            ) by {
                assert(table@.contains_key(key));
            }
            assert forall|k: int| 0 <= k < rows.len() implies (#[trigger] rows[k]).value.valid()
                && rows[k].key == rows[k].value.group_id@ by {
                lemma_row(rows, k);
                assert(table@.contains_key(rows[k].key));
                let j = choose|j: int| last_slot_at(slots@, rows[k].key, rows[k].value, j);
                assert(last_slot_at(slots@, rows[k].key, rows[k].value, j));
                assert(slots@[j].valid());
            }
        }
        Self { slots: table }
    }

    /// Encodes the registry as it is published.
    pub fn encode(&self) -> (r: Result<Vec<u8>, RegistryError>)
        requires
            self.wf(),
            self.rows().len() <= u32::MAX,
        ensures
            ({
                let body = framed(HostRecord::Registry, registry_body(self.rows()));
                match r {
                    Ok(bytes) => bytes@ == body + le_bytes_u32(crc32_of(body)) && bytes@.len()
                        <= MAX_REGISTRY_BYTES,
                    Err(error) => body.len() + 4 > MAX_REGISTRY_BYTES && error is TooLarge,
                }
            }),
    {
        let mut bytes = start_record(HostRecord::Registry);
        put_le_u32(&mut bytes, self.slots.len() as u32);
        let ghost start = bytes@;
        let ghost rows = self.slots.all();
        assert(start =~= framed(HostRecord::Registry, le_bytes_u32(rows.len() as u32)));
        let mut i: usize = 0;
        assert(start + slots_bytes(rows.take(0)) =~= start);
        while i < self.slots.len()
            invariant
                i <= rows.len(),
                rows == self.slots.all(),
                self.slots.wf(),
                bytes@ == start + slots_bytes(rows.take(i as int)),
            decreases rows.len() - i,
        {
            let (_, slot) = self.slots.row(i);
            put_le_u32(&mut bytes, slot.group_id.get());
            put_le_u32(&mut bytes, slot.incarnation.get());
            bytes.push(encode_lifecycle(slot.lifecycle));
            put_le_u32(&mut bytes, slot.quota.get());
            proof {
                let more = rows.take(i + 1);
                assert(more.drop_last() =~= rows.take(i as int));
                assert(more.last() == rows[i as int]);
                assert(bytes@ =~= start + slots_bytes(more));
            }
            i = i + 1;
        }
        proof {
            assert(rows.take(i as int) =~= rows);
            assert(bytes@ =~= framed(HostRecord::Registry, registry_body(rows)));
        }
        append_checksum(&mut bytes);
        if bytes.len() > MAX_REGISTRY_BYTES {
            return Err(RegistryError::TooLarge { bytes: bytes.len() });
        }
        Ok(bytes)
    }

    /// Returns the slot of a group.
    pub fn slot(&self, group_id: GroupId) -> (r: Result<SlotRecord, RegistryError>)
        requires
            self.wf(),
        ensures
            r == if contents(self.rows()).contains_key(group_id@ as u64) {
                Ok(contents(self.rows())[group_id@ as u64])
            } else {
                Err(RegistryError::NoSlot { group: group_id })
            },
    {
        match self.slots.get(group_id.get() as u64) {
            Some(slot) => Ok(slot),
            None => Err(RegistryError::NoSlot { group: group_id }),
        }
    }

    /// Stages a new state of a configured slot. The staged registry is to be published and then
    /// adopted.
    pub fn publish(&self, slot: SlotRecord) -> (r: Result<Self, RegistryError>)
        requires
            self.wf(),
            slot.valid(),
        ensures
            ({
                let key = slot.group_id@ as u64;
                if contents(self.rows()).contains_key(key) {
                    &&& r is Ok
                    &&& r->Ok_0.wf()
                    &&& contents(r->Ok_0.rows()) == contents(self.rows()).insert(key, slot)
                } else {
                    r is Err && r->Err_0 == (RegistryError::Unconfigured { group: slot.group_id })
                }
            }),
    {
        let key: u64 = slot.group_id.get() as u64;
        if self.slots.get(key).is_none() {
            return Err(RegistryError::Unconfigured { group: slot.group_id });
        }
        let mut staged = self.slots.duplicate();
        staged.insert(key, slot);
        proof {
            let rows = staged.all();
            let before = self.slots.all();
            assert forall|k: int| 0 <= k < rows.len() implies (#[trigger] rows[k]).value.valid()
                && rows[k].key == rows[k].value.group_id@ by {
                lemma_row(rows, k);
                if rows[k].key != key {
                    assert(contents(before).contains_key(rows[k].key));
                    let j = choose|j: int| holds(before, rows[k].key, j);
                    assert(holds(before, rows[k].key, j));
                    lemma_row(before, j);
                }
            }
        }
        Ok(Self { slots: staged })
    }
}

/// `slot` is the one at `i`, of the group `key`, and no later one is.
pub open(crate) spec fn last_slot_at(slots: Seq<SlotRecord>, key: u64, slot: SlotRecord, i: int) -> bool {
    &&& 0 <= i < slots.len()
    &&& slots[i] == slot
    &&& slot.group_id@ == key
    &&& forall|k: int| i < k < slots.len() ==> (#[trigger] slots[k]).group_id@ != key
}

/// `slot` is the last of the group `key`.
pub open(crate) spec fn is_last_slot(slots: Seq<SlotRecord>, key: u64, slot: SlotRecord) -> bool {
    exists|i: int| last_slot_at(slots, key, slot, i)
}

fn decode_slots(body: &[u8]) -> (r: Result<Table<SlotRecord>, RegistryError>)
    requires
        body@.len() <= MAX_REGISTRY_BYTES,
    ensures
        match registry_of(body@) {
            Ok(rows) => r is Ok && r->Ok_0.all() == rows && slots_by_group(rows) && r->Ok_0.wf(),
            Err(error) => r is Err && r->Err_0 == error,
        },
{
    if body.len() < 4 {
        return Err(RegistryError::TruncatedField);
    }
    let count: u32 = get_le_u32(body, 0);
    let mut table: Table<SlotRecord> = Table::new();
    let mut n: u32 = 0;
    let mut at: usize = 4;
    while n < count
        invariant
            n <= count,
            count == u32_at(body@, 0),
            4 <= body@.len() <= MAX_REGISTRY_BYTES,
            at == 4 + 13 * n,
            at <= body@.len(),
            table.wf(),
            slots_by_group(table.all()),
            slot_rows(body@, n as nat) == Ok::<Seq<Row<SlotRecord>>, RegistryError>(table.all()),
        decreases count - n,
    {
        let ghost before = table.all();
        let outcome = decode_slot(body, at);
        match outcome {
            Err(error) => {
                proof {
                    lemma_slots_stop(body@, (n + 1) as nat, count as nat);
                }
                return Err(error);
            },
            Ok(slot) => {
                let key: u64 = slot.group_id.get() as u64;
                if table.get(key).is_some() {
                    proof {
                        lemma_slots_stop(body@, (n + 1) as nat, count as nat);
                    }
                    return Err(RegistryError::DuplicateGroup { group: slot.group_id });
                }
                table.insert(key, slot);
                proof {
                    lemma_slot_position(before, key);
                    let k = rows_below(before, key) as int;
                    assert forall|j: int| 0 <= j < table.all().len() implies (
                    #[trigger] table.all()[j]).value.valid() && table.all()[j].key
                        == table.all()[j].value.group_id@ by {
                        if j < k {
                            assert(table.all()[j] == before[j]);
                        } else if j > k {
                            assert(table.all()[j] == before[j - 1]);
                        }
                    }
                }
            },
        }
        n = n + 1;
        at = at + 13;
    }
    if body.len() > at {
        return Err(RegistryError::TrailingBytes);
    }
    Ok(table)
}

fn decode_slot(body: &[u8], at: usize) -> (r: Result<SlotRecord, RegistryError>)
    requires
        at <= body@.len() <= MAX_REGISTRY_BYTES,
    ensures
        r == slot_of(body@, at as int),
        r is Ok ==> r->Ok_0.valid() && at + 13 <= body@.len(),
{
    if body.len() < at + 8 {
        return Err(RegistryError::TruncatedField);
    }
    let Some(incarnation) = GroupIncarnation::new(get_le_u32(body, at + 4)) else {
        return Err(RegistryError::ZeroIncarnation);
    };
    if body.len() < at + 9 {
        return Err(RegistryError::TruncatedField);
    }
    let Some(lifecycle) = decode_lifecycle(body[at + 8]) else {
        return Err(RegistryError::UnknownLifecycle { value: body[at + 8] });
    };
    if body.len() < at + 13 {
        return Err(RegistryError::TruncatedField);
    }
    let Some(quota) = WorkQuota::new(get_le_u32(body, at + 9)) else {
        return Err(RegistryError::ZeroQuota);
    };
    Ok(
        SlotRecord {
            group_id: GroupId::new(get_le_u32(body, at)),
            incarnation,
            lifecycle,
            quota,
        },
    )
}

/// A failed slot is never made up for.
proof fn lemma_slots_stop(body: Seq<u8>, n: nat, m: nat)
    requires
        n <= m,
        slot_rows(body, n) is Err,
    ensures
        slot_rows(body, m) == slot_rows(body, n),
    decreases m,
{
    if n < m {
        lemma_slots_stop(body, n, (m - 1) as nat);
    }
}

/// A slot belongs somewhere among the slots.
proof fn lemma_slot_position(rows: Seq<Row<SlotRecord>>, key: u64)
    ensures
        rows_below(rows, key) <= rows.len(),
    decreases rows.len(),
{
    if rows.len() > 0 {
        lemma_slot_position(rows.drop_last(), key);
    }
}

/// A slot written at `at` is read back.
proof fn lemma_slot_written(body: Seq<u8>, at: int, slot: SlotRecord)
    requires
        slot.valid(),
        0 <= at,
        at + 13 <= body.len(),
        body.subrange(at, at + 13) == slot_bytes(slot),
    ensures
        slot_of(body, at) == Ok::<SlotRecord, RegistryError>(slot),
{
    let piece = slot_bytes(slot);
    lemma_part(body, at, piece, 0, 4);
    lemma_part(body, at, piece, 4, 8);
    lemma_part(body, at, piece, 9, 13);
    assert(piece.subrange(0, 4) =~= le_bytes_u32(slot.group_id@));
    assert(piece.subrange(4, 8) =~= le_bytes_u32(slot.incarnation@));
    assert(piece.subrange(9, 13) =~= le_bytes_u32(slot.quota@));
    assert(body[at + 8] == body.subrange(at, at + 13)[8]);
    lemma_u32_written(body, at, slot.group_id@);
    lemma_u32_written(body, at + 4, slot.incarnation@);
    lemma_u32_written(body, at + 9, slot.quota@);
}

/// Slots written one after the other are read back.
proof fn lemma_slots_written(body: Seq<u8>, rows: Seq<Row<SlotRecord>>)
    requires
        slots_by_group(rows),
        slots_bytes(rows).len() + 4 <= body.len(),
        body.subrange(4, 4 + slots_bytes(rows).len() as int) == slots_bytes(rows),
    ensures
        slots_bytes(rows).len() == 13 * rows.len(),
        slot_rows(body, rows.len()) == Ok::<Seq<Row<SlotRecord>>, RegistryError>(rows),
    decreases rows.len(),
{
    if rows.len() == 0 {
        assert(rows =~= Seq::empty());
    } else {
        let rest = rows.drop_last();
        let all = slots_bytes(rows);
        let head = slots_bytes(rest);
        let slot = rows.last().value;
        assert(slots_by_group(rest)) by {
            assert forall|i: int, j: int| 0 <= i < j < rest.len() implies rest[i].key
                < rest[j].key by {
                assert(rows[i].key < rows[j].key);
            }
            assert forall|i: int| 0 <= i < rest.len() implies (#[trigger] rest[i]).value.valid()
                && rest[i].key == rest[i].value.group_id@ by {
                assert(rest[i] == rows[i]);
            }
        }
        lemma_part(body, 4, all, 0, head.len() as int);
        lemma_part(body, 4, all, head.len() as int, all.len() as int);
        assert(all.subrange(0, head.len() as int) =~= head);
        assert(all.subrange(head.len() as int, all.len() as int) =~= slot_bytes(slot));
        lemma_slots_written(body, rest);
        assert(rows[rows.len() - 1] == rows.last());
        lemma_slot_written(body, 4 + head.len() as int, slot);
        let key = rows.last().key;
        if contents(rest).contains_key(key) {
            let i = choose|i: int| holds(rest, key, i);
            assert(holds(rest, key, i));
            assert(rows[i].key < rows[rows.len() - 1].key);
        }
        assert forall|k: int| 0 <= k < rest.len() implies (#[trigger] rest[k]).key < key by {
            assert(rows[k].key < rows[rows.len() - 1].key);
        }
        lemma_rows_below(rest, key, rest.len() as int);
        assert(with_row(rest, key, slot) =~= rows);
    }
}

/// A registry body stands for the slots it was made of.
proof fn lemma_registry_written(rows: Seq<Row<SlotRecord>>)
    requires
        slots_by_group(rows),
        rows.len() <= u32::MAX,
    ensures
        registry_of(registry_body(rows)) == Ok::<Seq<Row<SlotRecord>>, RegistryError>(rows),
{
    let body = registry_body(rows);
    assert(body.subrange(0, 4) =~= le_bytes_u32(rows.len() as u32));
    lemma_u32_written(body, 0, rows.len() as u32);
    assert(body.subrange(4, 4 + slots_bytes(rows).len() as int) =~= slots_bytes(rows));
    lemma_slots_written(body, rows);
}

/// A registry is restored to exactly the slots that were published.
pub proof fn law_registry_round_trips(rows: Seq<Row<SlotRecord>>, checksum: u32)
    requires
        slots_by_group(rows),
        rows.len() <= u32::MAX,
        framed(HostRecord::Registry, registry_body(rows)).len() + 4 <= MAX_REGISTRY_BYTES,
    ensures
        decoded_registry(
            framed(HostRecord::Registry, registry_body(rows)) + le_bytes_u32(checksum),
            checksum,
        ) == Ok::<Seq<Row<SlotRecord>>, RegistryError>(rows),
{
    lemma_registry_written(rows);
    let body = registry_body(rows);
    law_envelopes_round_trip(HostRecord::Registry, body, checksum);
    assert((framed(HostRecord::Registry, body) + le_bytes_u32(checksum)).len() == framed(
        HostRecord::Registry,
        body,
    ).len() + 4);
}

} // verus!
