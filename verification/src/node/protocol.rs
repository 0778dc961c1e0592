//! Consumer-owned bounded line protocol for the counter node.
//!
//! A request is one line of words. The first word names the command, and each command takes an
//! exact number of fields.

use vstd::prelude::*;

use crate::node::render::joined;
use crate::text::{
    is_space, is_word, read_signed, read_unsigned, signed_of, split_words, texts, unsigned_of,
    words_of,
};
use crate::types::{
    ClientId, CounterCommand, Delta, GroupId, GroupIncarnation, Sequence, SessionEpoch,
};

pub mod laws;

verus! {

/// Longest request line, in bytes.
pub const MAX_CLIENT_LINE: usize = 4096;

/// Most client connections that are served at once.
pub const MAX_CLIENT_CONNECTIONS: usize = 64;

/// Class of traffic that a pressure request fills a peer queue with.
#[derive(Clone, Copy, Debug, Eq, PartialEq, Structural)]
pub enum PressureClass {
    /// Snapshot traffic.
    Snapshot,
    /// Bulk traffic.
    Bulk,
}

/// One parsed client request.
#[derive(Clone, Copy, Debug, Eq, PartialEq, Structural)]
pub enum Request {
    /// Reports the state of every group.
    Status,
    /// Reports the evidence of the scheduler.
    Audit,
    /// Opens a client session.
    OpenSession {
        /// The group.
        group_id: GroupId,
        /// Its incarnation.
        incarnation: GroupIncarnation,
        /// The client.
        client_id: ClientId,
        /// Epoch of the session.
        epoch: SessionEpoch,
    },
    /// Runs a counter command.
    Counter {
        /// The group.
        group_id: GroupId,
        /// Its incarnation.
        incarnation: GroupIncarnation,
        /// The client.
        client_id: ClientId,
        /// Epoch of the session.
        epoch: SessionEpoch,
        /// Sequence in the session.
        sequence: Sequence,
        /// The command.
        command: CounterCommand,
    },
    /// Reads the local counter of a group.
    Value {
        /// The group.
        group_id: GroupId,
        /// Its incarnation.
        incarnation: GroupIncarnation,
    },
    /// Proposes a command that every replica refuses to apply.
    Fault {
        /// The group.
        group_id: GroupId,
        /// Its incarnation.
        incarnation: GroupIncarnation,
    },
    /// Proposes a command that reports exhausted capacity.
    CapacityFault {
        /// The group.
        group_id: GroupId,
        /// Its incarnation.
        incarnation: GroupIncarnation,
    },
    /// Stops the reading of peer frames.
    PausePeers,
    /// Resumes the reading of peer frames.
    ResumePeers,
    /// Sends a probe to a peer.
    PeerProbe {
        /// The group.
        group_id: GroupId,
        /// Its incarnation.
        incarnation: GroupIncarnation,
        /// The peer.
        target: u64,
    },
    /// Stops the recovery of accepted work.
    PauseRecovery,
    /// Resumes the recovery of accepted work.
    ResumeRecovery,
    /// Hands the leadership of a group over.
    TransferLeadership {
        /// The group.
        group_id: GroupId,
        /// Its incarnation.
        incarnation: GroupIncarnation,
        /// The next leader.
        target: u64,
    },
    /// Fills the peer queues.
    Pressure {
        /// The group.
        group_id: GroupId,
        /// Its incarnation.
        incarnation: GroupIncarnation,
        /// Class of the traffic.
        class: PressureClass,
        /// Messages to send.
        count: usize,
    },
    /// Builds a snapshot.
    Snapshot {
        /// The group.
        group_id: GroupId,
        /// Its incarnation.
        incarnation: GroupIncarnation,
    },
    /// Delays the turns of a group.
    Slow {
        /// The group.
        group_id: GroupId,
        /// Delay of each turn.
        milliseconds: u64,
    },
    /// Drains a group.
    Drain {
        /// The group.
        group_id: GroupId,
        /// Its incarnation.
        incarnation: GroupIncarnation,
    },
    /// Removes a drained group.
    Remove {
        /// The group.
        group_id: GroupId,
        /// Its incarnation.
        incarnation: GroupIncarnation,
    },
    /// Opens the next incarnation of a removed group.
    Reopen {
        /// The group.
        group_id: GroupId,
        /// Incarnation that opens.
        incarnation: GroupIncarnation,
        /// Its quota.
        quota: u32,
    },
    /// Retires a removed group for good.
    Tombstone {
        /// The group.
        group_id: GroupId,
        /// Its incarnation.
        incarnation: GroupIncarnation,
    },
    /// Stops the node.
    Shutdown,
}

/// Why a line is no request.
#[derive(Clone, Copy, Debug, Eq, PartialEq, Structural)]
pub enum ProtocolError {
    /// Nothing was asked.
    Empty,
    /// No such command with this many fields.
    Unknown,
    /// The group is not a number.
    GroupNumber,
    /// The incarnation is not a number.
    IncarnationNumber,
    /// Zero incarnation.
    ZeroIncarnation,
    /// The client is not a number.
    ClientNumber,
    /// The session epoch is not a number.
    EpochNumber,
    /// Zero session epoch.
    ZeroEpoch,
    /// The sequence is not a number.
    SequenceNumber,
    /// Zero sequence.
    ZeroSequence,
    /// The delta is not a number.
    DeltaNumber,
    /// Zero delta.
    ZeroDelta,
    /// The target node is not a number.
    TargetNumber,
    /// The quota is not a number.
    QuotaNumber,
    /// Unknown pressure class.
    Class,
    /// The pressure count is not a number.
    CountNumber,
    /// The delay is not a number.
    DelayNumber,
}

impl ProtocolError {
    /// Detail that the client is told.
    pub open spec fn detail(self) -> Seq<char> {
        match self {
            ProtocolError::Empty => "empty request"@,
            ProtocolError::Unknown => "unknown command or wrong field count"@,
            ProtocolError::GroupNumber => "group id is not a u32"@,
            ProtocolError::IncarnationNumber => "incarnation is not a u32"@,
            ProtocolError::ZeroIncarnation => "incarnation must be nonzero"@,
            ProtocolError::ClientNumber => "client id is not a u32"@,
            ProtocolError::EpochNumber => "session epoch is not a u64"@,
            ProtocolError::ZeroEpoch => "session epoch must be nonzero"@,
            ProtocolError::SequenceNumber => "sequence is not a u64"@,
            ProtocolError::ZeroSequence => "sequence must be nonzero"@,
            ProtocolError::DeltaNumber => "delta is not an i64"@,
            ProtocolError::ZeroDelta => "delta must be nonzero"@,
            ProtocolError::TargetNumber => "target node id is not a u32"@,
            ProtocolError::QuotaNumber => "quota is not a u32"@,
            ProtocolError::Class => "pressure class must be snapshot or bulk"@,
            ProtocolError::CountNumber => "pressure count is not a usize"@,
            ProtocolError::DelayNumber => "slow delay is not a u64"@,
        }
    }

    /// Returns the detail that the client is told.
    pub fn message(self) -> (r: &'static str)
        ensures
            r@ == self.detail(),
    {
        match self {
            ProtocolError::Empty => "empty request",
            ProtocolError::Unknown => "unknown command or wrong field count",
            ProtocolError::GroupNumber => "group id is not a u32",
            ProtocolError::IncarnationNumber => "incarnation is not a u32",
            ProtocolError::ZeroIncarnation => "incarnation must be nonzero",
            ProtocolError::ClientNumber => "client id is not a u32",
            ProtocolError::EpochNumber => "session epoch is not a u64",
            ProtocolError::ZeroEpoch => "session epoch must be nonzero",
            ProtocolError::SequenceNumber => "sequence is not a u64",
            ProtocolError::ZeroSequence => "sequence must be nonzero",
            ProtocolError::DeltaNumber => "delta is not an i64",
            ProtocolError::ZeroDelta => "delta must be nonzero",
            ProtocolError::TargetNumber => "target node id is not a u32",
            ProtocolError::QuotaNumber => "quota is not a u32",
            ProtocolError::Class => "pressure class must be snapshot or bulk",
            ProtocolError::CountNumber => "pressure count is not a usize",
            ProtocolError::DelayNumber => "slow delay is not a u64",
        }
    }
}

// ------------------------------------------------------------------- fields

/// Group that a word names.
pub open(crate) spec fn group_field(word: Seq<char>) -> Result<GroupId, ProtocolError> {
    match unsigned_of(word, u32::MAX as nat) {
        None => Err(ProtocolError::GroupNumber),
        Some(n) => Ok(GroupId(n as u32)),
    }
}

fn read_group(word: &Vec<char>) -> (r: Result<GroupId, ProtocolError>)
    ensures
        r == group_field(word@),
{
    match read_unsigned(word, u32::MAX as u64) {
        None => Err(ProtocolError::GroupNumber),
        Some(n) => Ok(GroupId::new(n as u32)),
    }
}

/// Incarnation that a word names.
pub open(crate) spec fn incarnation_field(word: Seq<char>) -> Result<GroupIncarnation, ProtocolError> {
    match unsigned_of(word, u32::MAX as nat) {
        None => Err(ProtocolError::IncarnationNumber),
        Some(n) => if n == 0 {
            Err(ProtocolError::ZeroIncarnation)
        } else {
            Ok(GroupIncarnation(n as u32))
        },
    }
}

fn read_incarnation(word: &Vec<char>) -> (r: Result<GroupIncarnation, ProtocolError>)
    ensures
        r == incarnation_field(word@),
{
    match read_unsigned(word, u32::MAX as u64) {
        None => Err(ProtocolError::IncarnationNumber),
        Some(n) => match GroupIncarnation::new(n as u32) {
            Some(value) => Ok(value),
            None => Err(ProtocolError::ZeroIncarnation),
        },
    }
}

/// Client that a word names.
pub open(crate) spec fn client_field(word: Seq<char>) -> Result<ClientId, ProtocolError> {
    match unsigned_of(word, u32::MAX as nat) {
        None => Err(ProtocolError::ClientNumber),
        Some(n) => Ok(ClientId(n as u32)),
    }
}

fn read_client(word: &Vec<char>) -> (r: Result<ClientId, ProtocolError>)
    ensures
        r == client_field(word@),
{
    match read_unsigned(word, u32::MAX as u64) {
        None => Err(ProtocolError::ClientNumber),
        Some(n) => Ok(ClientId::new(n as u32)),
    }
}

/// Session epoch that a word names.
pub open(crate) spec fn epoch_field(word: Seq<char>) -> Result<SessionEpoch, ProtocolError> {
    match unsigned_of(word, u64::MAX as nat) {
        None => Err(ProtocolError::EpochNumber),
        Some(n) => if n == 0 {
            Err(ProtocolError::ZeroEpoch)
        } else {
            Ok(SessionEpoch(n as u64))
        },
    }
}

fn read_epoch(word: &Vec<char>) -> (r: Result<SessionEpoch, ProtocolError>)
    ensures
        r == epoch_field(word@),
{
    match read_unsigned(word, u64::MAX as u64) {
        None => Err(ProtocolError::EpochNumber),
        Some(n) => match SessionEpoch::new(n) {
            Some(value) => Ok(value),
            None => Err(ProtocolError::ZeroEpoch),
        },
    }
}

/// Sequence that a word names.
pub open(crate) spec fn sequence_field(word: Seq<char>) -> Result<Sequence, ProtocolError> {
    match unsigned_of(word, u64::MAX as nat) {
        None => Err(ProtocolError::SequenceNumber),
        Some(n) => if n == 0 {
            Err(ProtocolError::ZeroSequence)
        } else {
            Ok(Sequence(n as u64))
        },
    }
}

fn read_sequence(word: &Vec<char>) -> (r: Result<Sequence, ProtocolError>)
    ensures
        r == sequence_field(word@),
{
    match read_unsigned(word, u64::MAX as u64) {
        None => Err(ProtocolError::SequenceNumber),
        Some(n) => match Sequence::new(n) {
            Some(value) => Ok(value),
            None => Err(ProtocolError::ZeroSequence),
        },
    }
}

/// Node that a word names.
pub open(crate) spec fn target_field(word: Seq<char>) -> Result<u32, ProtocolError> {
    match unsigned_of(word, u32::MAX as nat) {
        None => Err(ProtocolError::TargetNumber),
        Some(n) => Ok(n as u32),
    }
}

fn read_target(word: &Vec<char>) -> (r: Result<u32, ProtocolError>)
    ensures
        r == target_field(word@),
{
    match read_unsigned(word, u32::MAX as u64) {
        None => Err(ProtocolError::TargetNumber),
        Some(n) => Ok(n as u32),
    }
}

/// Quota that a word names.
pub open(crate) spec fn quota_field(word: Seq<char>) -> Result<u32, ProtocolError> {
    match unsigned_of(word, u32::MAX as nat) {
        None => Err(ProtocolError::QuotaNumber),
        Some(n) => Ok(n as u32),
    }
}

fn read_quota(word: &Vec<char>) -> (r: Result<u32, ProtocolError>)
    ensures
        r == quota_field(word@),
{
    match read_unsigned(word, u32::MAX as u64) {
        None => Err(ProtocolError::QuotaNumber),
        Some(n) => Ok(n as u32),
    }
}

/// Delay that a word names.
pub open(crate) spec fn delay_field(word: Seq<char>) -> Result<u64, ProtocolError> {
    match unsigned_of(word, u64::MAX as nat) {
        None => Err(ProtocolError::DelayNumber),
        Some(n) => Ok(n as u64),
    }
}

fn read_delay(word: &Vec<char>) -> (r: Result<u64, ProtocolError>)
    ensures
        r == delay_field(word@),
{
    match read_unsigned(word, u64::MAX as u64) {
        None => Err(ProtocolError::DelayNumber),
        Some(n) => Ok(n),
    }
}

/// Delta that a word names.
pub open(crate) spec fn delta_field(word: Seq<char>) -> Result<Delta, ProtocolError> {
    match signed_of(word) {
        None => Err(ProtocolError::DeltaNumber),
        Some(n) => if n == 0 {
            Err(ProtocolError::ZeroDelta)
        } else {
            Ok(Delta(n as i64))
        },
    }
}

fn read_delta(word: &Vec<char>) -> (r: Result<Delta, ProtocolError>)
    ensures
        r == delta_field(word@),
{
    match read_signed(word) {
        None => Err(ProtocolError::DeltaNumber),
        Some(n) => match Delta::new(n) {
            Some(delta) => Ok(delta),
            None => Err(ProtocolError::ZeroDelta),
        },
    }
}

/// Class that a word names.
pub open(crate) spec fn class_field(word: Seq<char>) -> Result<PressureClass, ProtocolError> {
    if word == "snapshot"@ {
        Ok(PressureClass::Snapshot)
    } else if word == "bulk"@ {
        Ok(PressureClass::Bulk)
    } else {
        Err(ProtocolError::Class)
    }
}

fn read_class(word: &Vec<char>) -> (r: Result<PressureClass, ProtocolError>)
    ensures
        r == class_field(word@),
{
    if is_word(word, "snapshot") {
        Ok(PressureClass::Snapshot)
    } else if is_word(word, "bulk") {
        Ok(PressureClass::Bulk)
    } else {
        Err(ProtocolError::Class)
    }
}

/// Count that a word names.
pub open(crate) spec fn count_field(word: Seq<char>) -> Result<usize, ProtocolError> {
    match unsigned_of(word, usize::MAX as nat) {
        None => Err(ProtocolError::CountNumber),
        Some(n) => Ok(n as usize),
    }
}

fn read_count(word: &Vec<char>) -> (r: Result<usize, ProtocolError>)
    ensures
        r == count_field(word@),
{
    match read_unsigned(word, usize::MAX as u64) {
        None => Err(ProtocolError::CountNumber),
        Some(n) => Ok(n as usize),
    }
}

/// Group and incarnation that two words name.
pub open(crate) spec fn address_fields(group: Seq<char>, incarnation: Seq<char>) -> Result<
    (GroupId, GroupIncarnation),
    ProtocolError,
> {
    match group_field(group) {
        Err(error) => Err(error),
        Ok(group_id) => match incarnation_field(incarnation) {
            Err(error) => Err(error),
            Ok(incarnation) => Ok((group_id, incarnation)),
        },
    }
}

fn read_address(group: &Vec<char>, incarnation: &Vec<char>) -> (r: Result<
    (GroupId, GroupIncarnation),
    ProtocolError,
>)
    ensures
        r == address_fields(group@, incarnation@),
{
    match read_group(group) {
        Err(error) => Err(error),
        Ok(group_id) => match read_incarnation(incarnation) {
            Err(error) => Err(error),
            Ok(incarnation) => Ok((group_id, incarnation)),
        },
    }
}

/// Client and session epoch that two words name.
pub open(crate) spec fn session_fields(client: Seq<char>, epoch: Seq<char>) -> Result<
    (ClientId, SessionEpoch),
    ProtocolError,
> {
    match client_field(client) {
        Err(error) => Err(error),
        Ok(client_id) => match epoch_field(epoch) {
            Err(error) => Err(error),
            Ok(epoch) => Ok((client_id, epoch)),
        },
    }
}

fn read_session(client: &Vec<char>, epoch: &Vec<char>) -> (r: Result<
    (ClientId, SessionEpoch),
    ProtocolError,
>)
    ensures
        r == session_fields(client@, epoch@),
{
    match read_client(client) {
        Err(error) => Err(error),
        Ok(client_id) => match read_epoch(epoch) {
            Err(error) => Err(error),
            Ok(epoch) => Ok((client_id, epoch)),
        },
    }
}

// ----------------------------------------------------------------- commands

/// What `OPEN group incarnation client epoch` asks.
pub open(crate) spec fn open_request(words: Seq<Seq<char>>) -> Result<Request, ProtocolError> {
    match address_fields(words[1], words[2]) {
        Err(error) => Err(error),
        Ok((group_id, incarnation)) => match session_fields(words[3], words[4]) {
                Err(error) => Err(error),
                Ok((client_id, epoch)) => Ok(Request::OpenSession { group_id, incarnation, client_id, epoch }),
            },
    }
}

fn read_open_request(words: &Vec<Vec<char>>) -> (r: Result<Request, ProtocolError>)
    requires
        words@.len() >= 5,
    ensures
        r == open_request(texts(words@)),
{
    match read_address(&words[1], &words[2]) {
        Err(error) => Err(error),
        Ok((group_id, incarnation)) => match read_session(&words[3], &words[4]) {
                Err(error) => Err(error),
                Ok((client_id, epoch)) => Ok(Request::OpenSession { group_id, incarnation, client_id, epoch }),
            },
    }
}

/// What `ADD group incarnation client epoch sequence delta` asks.
pub open(crate) spec fn add_request(words: Seq<Seq<char>>) -> Result<Request, ProtocolError> {
    match delta_field(words[6]) {
        Err(error) => Err(error),
        Ok(delta) => match address_fields(words[1], words[2]) {
                Err(error) => Err(error),
                Ok((group_id, incarnation)) => match session_fields(words[3], words[4]) {
                        Err(error) => Err(error),
                        Ok((client_id, epoch)) => match sequence_field(words[5]) {
                                Err(error) => Err(error),
                                Ok(sequence) => Ok(
                                    Request::Counter {
                                        group_id,
                                        incarnation,
                                        client_id,
                                        epoch,
                                        sequence,
                                        command: CounterCommand::Add { delta },
                                    },
                                ),
                            },
                    },
            },
    }
}

fn read_add_request(words: &Vec<Vec<char>>) -> (r: Result<Request, ProtocolError>)
    requires
        words@.len() >= 7,
    ensures
        r == add_request(texts(words@)),
{
    match read_delta(&words[6]) {
        Err(error) => Err(error),
        Ok(delta) => match read_address(&words[1], &words[2]) {
                Err(error) => Err(error),
                Ok((group_id, incarnation)) => match read_session(&words[3], &words[4]) {
                        Err(error) => Err(error),
                        Ok((client_id, epoch)) => match read_sequence(&words[5]) {
                                Err(error) => Err(error),
                                Ok(sequence) => Ok(
                                    Request::Counter {
                                        group_id,
                                        incarnation,
                                        client_id,
                                        epoch,
                                        sequence,
                                        command: CounterCommand::Add { delta },
                                    },
                                ),
                            },
                    },
            },
    }
}

/// What `READ group incarnation client epoch sequence` asks.
pub open(crate) spec fn read_request(words: Seq<Seq<char>>) -> Result<Request, ProtocolError> {
    match address_fields(words[1], words[2]) {
        Err(error) => Err(error),
        Ok((group_id, incarnation)) => match session_fields(words[3], words[4]) {
                Err(error) => Err(error),
                Ok((client_id, epoch)) => match sequence_field(words[5]) {
                        Err(error) => Err(error),
                        Ok(sequence) => Ok(
                            Request::Counter {
                                group_id,
                                incarnation,
                                client_id,
                                epoch,
                                sequence,
                                command: CounterCommand::Read,
                            },
                        ),
                    },
            },
    }
}

fn read_read_request(words: &Vec<Vec<char>>) -> (r: Result<Request, ProtocolError>)
    requires
        words@.len() >= 6,
    ensures
        r == read_request(texts(words@)),
{
    match read_address(&words[1], &words[2]) {
        Err(error) => Err(error),
        Ok((group_id, incarnation)) => match read_session(&words[3], &words[4]) {
                Err(error) => Err(error),
                Ok((client_id, epoch)) => match read_sequence(&words[5]) {
                        Err(error) => Err(error),
                        Ok(sequence) => Ok(
                            Request::Counter {
                                group_id,
                                incarnation,
                                client_id,
                                epoch,
                                sequence,
                                command: CounterCommand::Read,
                            },
                        ),
                    },
            },
    }
}

/// What `PEER_PROBE target group incarnation` asks.
pub open(crate) spec fn probe_request(words: Seq<Seq<char>>) -> Result<Request, ProtocolError> {
    match target_field(words[1]) {
        Err(error) => Err(error),
        Ok(target) => match address_fields(words[2], words[3]) {
                Err(error) => Err(error),
                Ok((group_id, incarnation)) => Ok(Request::PeerProbe { group_id, incarnation, target: target as u64 }),
            },
    }
}

fn read_probe_request(words: &Vec<Vec<char>>) -> (r: Result<Request, ProtocolError>)
    requires
        words@.len() >= 4,
    ensures
        r == probe_request(texts(words@)),
{
    match read_target(&words[1]) {
        Err(error) => Err(error),
        Ok(target) => match read_address(&words[2], &words[3]) {
                Err(error) => Err(error),
                Ok((group_id, incarnation)) => Ok(Request::PeerProbe { group_id, incarnation, target: target as u64 }),
            },
    }
}

/// What `TRANSFER group incarnation target` asks.
pub open(crate) spec fn transfer_request(words: Seq<Seq<char>>) -> Result<Request, ProtocolError> {
    match address_fields(words[1], words[2]) {
        Err(error) => Err(error),
        Ok((group_id, incarnation)) => match target_field(words[3]) {
                Err(error) => Err(error),
                Ok(target) => Ok(Request::TransferLeadership { group_id, incarnation, target: target as u64 }),
            },
    }
}

fn read_transfer_request(words: &Vec<Vec<char>>) -> (r: Result<Request, ProtocolError>)
    requires
        words@.len() >= 4,
    ensures
        r == transfer_request(texts(words@)),
{
    match read_address(&words[1], &words[2]) {
        Err(error) => Err(error),
        Ok((group_id, incarnation)) => match read_target(&words[3]) {
                Err(error) => Err(error),
                Ok(target) => Ok(Request::TransferLeadership { group_id, incarnation, target: target as u64 }),
            },
    }
}

/// What `PRESSURE group incarnation class count` asks.
pub open(crate) spec fn pressure_request(words: Seq<Seq<char>>) -> Result<Request, ProtocolError> {
    match address_fields(words[1], words[2]) {
        Err(error) => Err(error),
        Ok((group_id, incarnation)) => match class_field(words[3]) {
                Err(error) => Err(error),
                Ok(class) => match count_field(words[4]) {
                        Err(error) => Err(error),
                        Ok(count) => Ok(Request::Pressure { group_id, incarnation, class, count }),
                    },
            },
    }
}

fn read_pressure_request(words: &Vec<Vec<char>>) -> (r: Result<Request, ProtocolError>)
    requires
        words@.len() >= 5,
    ensures
        r == pressure_request(texts(words@)),
{
    match read_address(&words[1], &words[2]) {
        Err(error) => Err(error),
        Ok((group_id, incarnation)) => match read_class(&words[3]) {
                Err(error) => Err(error),
                Ok(class) => match read_count(&words[4]) {
                        Err(error) => Err(error),
                        Ok(count) => Ok(Request::Pressure { group_id, incarnation, class, count }),
                    },
            },
    }
}

/// What `SLOW group milliseconds` asks.
pub open(crate) spec fn slow_request(words: Seq<Seq<char>>) -> Result<Request, ProtocolError> {
    match group_field(words[1]) {
        Err(error) => Err(error),
        Ok(group_id) => match delay_field(words[2]) {
                Err(error) => Err(error),
                Ok(milliseconds) => Ok(Request::Slow { group_id, milliseconds }),
            },
    }
}

fn read_slow_request(words: &Vec<Vec<char>>) -> (r: Result<Request, ProtocolError>)
    requires
        words@.len() >= 3,
    ensures
        r == slow_request(texts(words@)),
{
    match read_group(&words[1]) {
        Err(error) => Err(error),
        Ok(group_id) => match read_delay(&words[2]) {
                Err(error) => Err(error),
                Ok(milliseconds) => Ok(Request::Slow { group_id, milliseconds }),
            },
    }
}

/// What `REOPEN group incarnation quota` asks.
pub open(crate) spec fn reopen_request(words: Seq<Seq<char>>) -> Result<Request, ProtocolError> {
    match address_fields(words[1], words[2]) {
        Err(error) => Err(error),
        Ok((group_id, incarnation)) => match quota_field(words[3]) {
                Err(error) => Err(error),
                Ok(quota) => Ok(Request::Reopen { group_id, incarnation, quota }),
            },
    }
}

fn read_reopen_request(words: &Vec<Vec<char>>) -> (r: Result<Request, ProtocolError>)
    requires
        words@.len() >= 4,
    ensures
        r == reopen_request(texts(words@)),
{
    match read_address(&words[1], &words[2]) {
        Err(error) => Err(error),
        Ok((group_id, incarnation)) => match read_quota(&words[3]) {
                Err(error) => Err(error),
                Ok(quota) => Ok(Request::Reopen { group_id, incarnation, quota }),
            },
    }
}

/// Request of a command without fields.
pub open(crate) spec fn bare_request(name: Seq<char>) -> Result<Request, ProtocolError> {
    if name == "STATUS"@ {
        Ok(Request::Status)
    } else if name == "AUDIT"@ {
        Ok(Request::Audit)
    } else if name == "PAUSE_PEERS"@ {
        Ok(Request::PausePeers)
    } else if name == "RESUME_PEERS"@ {
        Ok(Request::ResumePeers)
    } else if name == "PAUSE_RECOVERY"@ {
        Ok(Request::PauseRecovery)
    } else if name == "RESUME_RECOVERY"@ {
        Ok(Request::ResumeRecovery)
    } else if name == "SHUTDOWN"@ {
        Ok(Request::Shutdown)
    } else {
        Err(ProtocolError::Unknown)
    }
}

fn read_bare_request(name: &Vec<char>) -> (r: Result<Request, ProtocolError>)
    ensures
        r == bare_request(name@),
{
    if is_word(name, "STATUS") {
        Ok(Request::Status)
    } else if is_word(name, "AUDIT") {
        Ok(Request::Audit)
    } else if is_word(name, "PAUSE_PEERS") {
        Ok(Request::PausePeers)
    } else if is_word(name, "RESUME_PEERS") {
        Ok(Request::ResumePeers)
    } else if is_word(name, "PAUSE_RECOVERY") {
        Ok(Request::PauseRecovery)
    } else if is_word(name, "RESUME_RECOVERY") {
        Ok(Request::ResumeRecovery)
    } else if is_word(name, "SHUTDOWN") {
        Ok(Request::Shutdown)
    } else {
        Err(ProtocolError::Unknown)
    }
}

/// Request of a command that takes a group and its incarnation, or a group and a delay.
pub open(crate) spec fn group_request(words: Seq<Seq<char>>) -> Result<Request, ProtocolError> {
    if words[0] == "SLOW"@ {
        slow_request(words)
    } else {
        match group_command(words[0]) {
            None => Err(ProtocolError::Unknown),
            Some(command) => match address_fields(words[1], words[2]) {
                Err(error) => Err(error),
                Ok((group_id, incarnation)) => Ok(command.request(group_id, incarnation)),
            },
        }
    }
}

/// Command that takes a group and its incarnation.
#[derive(Clone, Copy, Debug, Eq, PartialEq, Structural)]
pub enum GroupCommand {
    /// `VALUE`.
    Value,
    /// `FAULT`.
    Fault,
    /// `FAULT_CAPACITY`.
    CapacityFault,
    /// `SNAPSHOT`.
    Snapshot,
    /// `DRAIN`.
    Drain,
    /// `REMOVE`.
    Remove,
    /// `TOMBSTONE`.
    Tombstone,
}

impl GroupCommand {
    /// The command on this group.
    pub open(crate) spec fn request(self, group_id: GroupId, incarnation: GroupIncarnation) -> Request {
        match self {
            GroupCommand::Value => Request::Value { group_id, incarnation },
            GroupCommand::Fault => Request::Fault { group_id, incarnation },
            GroupCommand::CapacityFault => Request::CapacityFault { group_id, incarnation },
            GroupCommand::Snapshot => Request::Snapshot { group_id, incarnation },
            GroupCommand::Drain => Request::Drain { group_id, incarnation },
            GroupCommand::Remove => Request::Remove { group_id, incarnation },
            GroupCommand::Tombstone => Request::Tombstone { group_id, incarnation },
        }
    }

    fn on(self, group_id: GroupId, incarnation: GroupIncarnation) -> (r: Request)
        ensures
            r == self.request(group_id, incarnation),
    {
        match self {
            GroupCommand::Value => Request::Value { group_id, incarnation },
            GroupCommand::Fault => Request::Fault { group_id, incarnation },
            GroupCommand::CapacityFault => Request::CapacityFault { group_id, incarnation },
            GroupCommand::Snapshot => Request::Snapshot { group_id, incarnation },
            GroupCommand::Drain => Request::Drain { group_id, incarnation },
            GroupCommand::Remove => Request::Remove { group_id, incarnation },
            GroupCommand::Tombstone => Request::Tombstone { group_id, incarnation },
        }
    }
}

/// Command of this name.
pub open(crate) spec fn group_command(name: Seq<char>) -> Option<GroupCommand> {
    if name == "VALUE"@ {
        Some(GroupCommand::Value)
    } else if name == "FAULT"@ {
        Some(GroupCommand::Fault)
    } else if name == "FAULT_CAPACITY"@ {
        Some(GroupCommand::CapacityFault)
    } else if name == "SNAPSHOT"@ {
        Some(GroupCommand::Snapshot)
    } else if name == "DRAIN"@ {
        Some(GroupCommand::Drain)
    } else if name == "REMOVE"@ {
        Some(GroupCommand::Remove)
    } else if name == "TOMBSTONE"@ {
        Some(GroupCommand::Tombstone)
    } else {
        None
    }
}

fn read_group_command(name: &Vec<char>) -> (r: Option<GroupCommand>)
    ensures
        r == group_command(name@),
{
    if is_word(name, "VALUE") {
        Some(GroupCommand::Value)
    } else if is_word(name, "FAULT") {
        Some(GroupCommand::Fault)
    } else if is_word(name, "FAULT_CAPACITY") {
        Some(GroupCommand::CapacityFault)
    } else if is_word(name, "SNAPSHOT") {
        Some(GroupCommand::Snapshot)
    } else if is_word(name, "DRAIN") {
        Some(GroupCommand::Drain)
    } else if is_word(name, "REMOVE") {
        Some(GroupCommand::Remove)
    } else if is_word(name, "TOMBSTONE") {
        Some(GroupCommand::Tombstone)
    } else {
        None
    }
}

fn read_group_request(words: &Vec<Vec<char>>) -> (r: Result<Request, ProtocolError>)
    requires
        words@.len() == 3,
    ensures
        r == group_request(texts(words@)),
{
    if is_word(&words[0], "SLOW") {
        read_slow_request(words)
    } else {
        match read_group_command(&words[0]) {
            None => Err(ProtocolError::Unknown),
            Some(command) => match read_address(&words[1], &words[2]) {
                Err(error) => Err(error),
                Ok((group_id, incarnation)) => Ok(command.on(group_id, incarnation)),
            },
        }
    }
}

/// What the words of a line ask.
pub open(crate) spec fn request_of(words: Seq<Seq<char>>) -> Result<Request, ProtocolError> {
    if words.len() == 0 {
        Err(ProtocolError::Empty)
    } else if words.len() == 1 {
        bare_request(words[0])
    } else if words.len() == 3 {
        group_request(words)
    } else if words.len() == 5 && words[0] == "OPEN"@ {
        open_request(words)
    } else if words.len() == 7 && words[0] == "ADD"@ {
        add_request(words)
    } else if words.len() == 6 && words[0] == "READ"@ {
        read_request(words)
    } else if words.len() == 4 && words[0] == "PEER_PROBE"@ {
        probe_request(words)
    } else if words.len() == 4 && words[0] == "TRANSFER"@ {
        transfer_request(words)
    } else if words.len() == 5 && words[0] == "PRESSURE"@ {
        pressure_request(words)
    } else if words.len() == 4 && words[0] == "REOPEN"@ {
        reopen_request(words)
    } else {
        Err(ProtocolError::Unknown)
    }
}

/// What a line asks.
pub open(crate) spec fn parsed(line: Seq<char>) -> Result<Request, ProtocolError> {
    request_of(words_of(line))
}

fn read_words(words: &Vec<Vec<char>>) -> (r: Result<Request, ProtocolError>)
    ensures
        r == request_of(texts(words@)),
{
    if words.len() == 0 {
        Err(ProtocolError::Empty)
    } else if words.len() == 1 {
        read_bare_request(&words[0])
    } else if words.len() == 3 {
        read_group_request(words)
    } else if words.len() == 5 && is_word(&words[0], "OPEN") {
        read_open_request(words)
    } else if words.len() == 7 && is_word(&words[0], "ADD") {
        read_add_request(words)
    } else if words.len() == 6 && is_word(&words[0], "READ") {
        read_read_request(words)
    } else if words.len() == 4 && is_word(&words[0], "PEER_PROBE") {
        read_probe_request(words)
    } else if words.len() == 4 && is_word(&words[0], "TRANSFER") {
        read_transfer_request(words)
    } else if words.len() == 5 && is_word(&words[0], "PRESSURE") {
        read_pressure_request(words)
    } else if words.len() == 4 && is_word(&words[0], "REOPEN") {
        read_reopen_request(words)
    } else {
        Err(ProtocolError::Unknown)
    }
}

/// Reads one line.
pub fn parse(line: &str) -> (r: Result<Request, ProtocolError>)
    ensures
        r == parsed(line@),
{
    let words = split_words(line);
    read_words(&words)
}

// -------------------------------------------------------------- connections

/// Answer that a connection gives without the engine.
#[derive(Clone, Copy, Debug, Eq, PartialEq, Structural)]
pub enum LineAnswer {
    /// The line is too long.
    TooLong,
    /// The line is no request.
    Protocol {
        /// Why.
        error: ProtocolError,
    },
    /// The engine takes no more requests now.
    QueueFull,
    /// Too many clients are served.
    ClientLimit,
}

impl LineAnswer {
    /// Text of the answer.
    pub open spec fn text(self) -> Seq<char> {
        match self {
            LineAnswer::TooLong => "ERR LINE_TOO_LONG 4096"@,
            LineAnswer::Protocol { error } => "ERR PROTOCOL "@ + error.detail(),
            LineAnswer::QueueFull => "ERR CLIENT_QUEUE_FULL"@,
            LineAnswer::ClientLimit => "ERR CLIENT_LIMIT 64"@,
        }
    }

    /// Renders the answer.
    pub fn render(self) -> (r: String)
        ensures
            r@ == self.text(),
    {
        match self {
            LineAnswer::TooLong => "ERR LINE_TOO_LONG 4096".to_owned(),
            LineAnswer::Protocol { error } => joined("ERR PROTOCOL ", error.message()),
            LineAnswer::QueueFull => "ERR CLIENT_QUEUE_FULL".to_owned(),
            LineAnswer::ClientLimit => "ERR CLIENT_LIMIT 64".to_owned(),
        }
    }
}

/// Returns whether one more client is served beside the active ones.
pub fn admits_client(active: usize) -> (r: Option<LineAnswer>)
    ensures
        r == if active >= MAX_CLIENT_CONNECTIONS {
            Some(LineAnswer::ClientLimit)
        } else {
            None
        },
{
    if active >= MAX_CLIENT_CONNECTIONS {
        Some(LineAnswer::ClientLimit)
    } else {
        None
    }
}

/// What reading a line gave.
#[derive(Debug)]
pub enum LineRead {
    /// The connection failed.
    Failed,
    /// The client closed it.
    Closed,
    /// A line, and how many bytes it takes.
    Line {
        /// The line.
        line: String,
        /// Its bytes.
        bytes: usize,
    },
}

/// What became of a request that was handed to the engine.
#[derive(Clone, Copy, Debug, Eq, PartialEq, Structural)]
pub enum Handed {
    /// The engine has it.
    Accepted,
    /// The engine takes no more now.
    Full,
    /// The engine is gone.
    Disconnected,
}

/// What a connection does next.
#[derive(Clone, Copy, Debug, Eq, PartialEq, Structural)]
pub enum ConnectionStep {
    /// It closes.
    Close,
    /// It answers, then closes.
    AnswerAndClose {
        /// The answer.
        answer: LineAnswer,
    },
    /// It answers, then reads the next line.
    Answer {
        /// The answer.
        answer: LineAnswer,
    },
    /// It hands the request to the engine.
    Submit {
        /// The request.
        request: Request,
    },
    /// It waits for the engine's answer.
    Await,
}

/// Decides what follows a line.
pub fn serve_line(read: &LineRead) -> (r: ConnectionStep)
    ensures
        r == match read {
            LineRead::Failed | LineRead::Closed => ConnectionStep::Close,
            LineRead::Line { line, bytes } => if *bytes > MAX_CLIENT_LINE {
                ConnectionStep::AnswerAndClose { answer: LineAnswer::TooLong }
            } else {
                match parsed(line@) {
                    Ok(request) => ConnectionStep::Submit { request },
                    Err(error) => ConnectionStep::Answer { answer: LineAnswer::Protocol { error } },
                }
            },
        },
{
    match read {
        LineRead::Failed | LineRead::Closed => ConnectionStep::Close,
        LineRead::Line { line, bytes } => if *bytes > MAX_CLIENT_LINE {
            ConnectionStep::AnswerAndClose { answer: LineAnswer::TooLong }
        } else {
            match parse(line.as_str()) {
                Ok(request) => ConnectionStep::Submit { request },
                Err(error) => ConnectionStep::Answer { answer: LineAnswer::Protocol { error } },
            }
        },
    }
}

/// Decides what follows a request that was handed to the engine.
pub fn serve_handed(handed: Handed) -> (r: ConnectionStep)
    ensures
        r == match handed {
            Handed::Accepted => ConnectionStep::Await,
            Handed::Full => ConnectionStep::Answer { answer: LineAnswer::QueueFull },
            Handed::Disconnected => ConnectionStep::Close,
        },
{
    match handed {
        Handed::Accepted => ConnectionStep::Await,
        Handed::Full => ConnectionStep::Answer { answer: LineAnswer::QueueFull },
        Handed::Disconnected => ConnectionStep::Close,
    }
}

/// Separators after a line change nothing: a request is read the same with its line end and
/// without.
pub proof fn law_line_ends_do_not_matter(line: Seq<char>, end: char)
    requires
        is_space(end),
    ensures
        parsed(line.push(end)) == parsed(line),
{
    assert(line.push(end).drop_last() =~= line);
}

} // verus!
