//! What each line asks, and what a line that asks nothing is told.

use vstd::prelude::*;

use crate::node::protocol::{
    admits_client, parse, serve_handed, serve_line, ConnectionStep, Handed, LineAnswer, LineRead,
    PressureClass, ProtocolError, Request,
};
use crate::text::{
    decimal, is_space, law_signed_round_trips, law_unsigned_round_trips, signed_decimal, signed_of,
    unsigned_of, words_of,
};
use crate::types::CounterCommand;

verus! {

/// What is wrong with a word that should be a number up to `max`.
pub open spec fn number_fault(word: Seq<char>, max: nat, error: ProtocolError) -> Option<
    ProtocolError,
> {
    if unsigned_of(word, max) is None {
        Some(error)
    } else {
        None
    }
}

/// What is wrong with a word that should be a number from one to `max`.
pub open spec fn positive_fault(
    word: Seq<char>,
    max: nat,
    error: ProtocolError,
    zero: ProtocolError,
) -> Option<ProtocolError> {
    if unsigned_of(word, max) is None {
        Some(error)
    } else if unsigned_of(word, max) == Some(0nat) {
        Some(zero)
    } else {
        None
    }
}

/// The first of the faults, if there is one.
pub open spec fn first_fault(faults: Seq<Option<ProtocolError>>) -> Option<ProtocolError>
    decreases faults.len(),
{
    if faults.len() == 0 {
        None
    } else if faults[0] is Some {
        faults[0]
    } else {
        first_fault(faults.skip(1))
    }
}

/// The line is a command of this name with this many fields.
pub open spec fn is_command(words: Seq<Seq<char>>, name: Seq<char>, fields: int) -> bool {
    words.len() == fields + 1 && words[0] == name
}

/// The line is a command that takes a group and its incarnation alone.
pub open spec fn is_group_command(words: Seq<Seq<char>>) -> bool {
    ||| is_command(words, "VALUE"@, 2)
    ||| is_command(words, "FAULT"@, 2)
    ||| is_command(words, "FAULT_CAPACITY"@, 2)
    ||| is_command(words, "SNAPSHOT"@, 2)
    ||| is_command(words, "DRAIN"@, 2)
    ||| is_command(words, "REMOVE"@, 2)
    ||| is_command(words, "TOMBSTONE"@, 2)
}

/// The line is a command without fields.
pub open spec fn is_bare_command(words: Seq<Seq<char>>) -> bool {
    ||| is_command(words, "STATUS"@, 0)
    ||| is_command(words, "AUDIT"@, 0)
    ||| is_command(words, "PAUSE_PEERS"@, 0)
    ||| is_command(words, "RESUME_PEERS"@, 0)
    ||| is_command(words, "PAUSE_RECOVERY"@, 0)
    ||| is_command(words, "RESUME_RECOVERY"@, 0)
    ||| is_command(words, "SHUTDOWN"@, 0)
}

/// The line is a command of another kind.
pub open spec fn is_field_command(words: Seq<Seq<char>>) -> bool {
    ||| is_command(words, "OPEN"@, 4)
    ||| is_command(words, "ADD"@, 6)
    ||| is_command(words, "READ"@, 5)
    ||| is_command(words, "PEER_PROBE"@, 3)
    ||| is_command(words, "TRANSFER"@, 3)
    ||| is_command(words, "PRESSURE"@, 4)
    ||| is_command(words, "SLOW"@, 2)
    ||| is_command(words, "REOPEN"@, 3)
}

proof fn lemma_names()
    ensures
        "VALUE"@ != "FAULT"@,
        "VALUE"@ != "DRAIN"@,
        "FAULT"@ != "DRAIN"@,
        "SNAPSHOT"@ != "SHUTDOWN"@,
        "OPEN"@ != "PRESSURE"@,
        "SLOW"@ != "VALUE"@ && "SLOW"@ != "FAULT"@ && "SLOW"@ != "FAULT_CAPACITY"@ && "SLOW"@
            != "SNAPSHOT"@ && "SLOW"@ != "DRAIN"@ && "SLOW"@ != "REMOVE"@ && "SLOW"@ != "TOMBSTONE"@,
        "VALUE"@ != "FAULT_CAPACITY"@ && "VALUE"@ != "SNAPSHOT"@ && "VALUE"@ != "REMOVE"@
            && "VALUE"@ != "TOMBSTONE"@,
        "FAULT"@ != "FAULT_CAPACITY"@ && "FAULT"@ != "SNAPSHOT"@ && "FAULT"@ != "REMOVE"@
            && "FAULT"@ != "TOMBSTONE"@,
        "FAULT_CAPACITY"@ != "SNAPSHOT"@ && "FAULT_CAPACITY"@ != "REMOVE"@ && "FAULT_CAPACITY"@
            != "TOMBSTONE"@ && "FAULT_CAPACITY"@ != "DRAIN"@,
        "SNAPSHOT"@ != "DRAIN"@ && "SNAPSHOT"@ != "REMOVE"@ && "SNAPSHOT"@ != "TOMBSTONE"@,
        "DRAIN"@ != "REMOVE"@ && "DRAIN"@ != "TOMBSTONE"@ && "REMOVE"@ != "TOMBSTONE"@,
        "PEER_PROBE"@ != "TRANSFER"@ && "PEER_PROBE"@ != "REOPEN"@ && "TRANSFER"@ != "REOPEN"@,
        "STATUS"@ != "AUDIT"@ && "STATUS"@ != "PAUSE_PEERS"@ && "STATUS"@ != "RESUME_PEERS"@
            && "STATUS"@ != "PAUSE_RECOVERY"@ && "STATUS"@ != "RESUME_RECOVERY"@ && "STATUS"@
            != "SHUTDOWN"@,
        "AUDIT"@ != "PAUSE_PEERS"@ && "AUDIT"@ != "RESUME_PEERS"@ && "AUDIT"@ != "PAUSE_RECOVERY"@
            && "AUDIT"@ != "RESUME_RECOVERY"@ && "AUDIT"@ != "SHUTDOWN"@,
        "PAUSE_PEERS"@ != "RESUME_PEERS"@ && "PAUSE_PEERS"@ != "PAUSE_RECOVERY"@ && "PAUSE_PEERS"@
            != "RESUME_RECOVERY"@ && "PAUSE_PEERS"@ != "SHUTDOWN"@,
        "RESUME_PEERS"@ != "PAUSE_RECOVERY"@ && "RESUME_PEERS"@ != "RESUME_RECOVERY"@
            && "RESUME_PEERS"@ != "SHUTDOWN"@,
        "PAUSE_RECOVERY"@ != "RESUME_RECOVERY"@ && "PAUSE_RECOVERY"@ != "SHUTDOWN"@
            && "RESUME_RECOVERY"@ != "SHUTDOWN"@,
        "snapshot"@ != "bulk"@,
{
    reveal_strlit("STATUS");
    reveal_strlit("AUDIT");
    reveal_strlit("PAUSE_PEERS");
    reveal_strlit("RESUME_PEERS");
    reveal_strlit("PAUSE_RECOVERY");
    reveal_strlit("RESUME_RECOVERY");
    reveal_strlit("SHUTDOWN");
    reveal_strlit("VALUE");
    reveal_strlit("FAULT");
    reveal_strlit("FAULT_CAPACITY");
    reveal_strlit("SNAPSHOT");
    reveal_strlit("DRAIN");
    reveal_strlit("REMOVE");
    reveal_strlit("TOMBSTONE");
    reveal_strlit("SLOW");
    reveal_strlit("OPEN");
    reveal_strlit("PRESSURE");
    reveal_strlit("PEER_PROBE");
    reveal_strlit("TRANSFER");
    reveal_strlit("REOPEN");
    reveal_strlit("snapshot");
    reveal_strlit("bulk");
    assert("STATUS"@.len() != "AUDIT"@.len());
    assert("STATUS"@.len() != "PAUSE_PEERS"@.len());
    assert("STATUS"@.len() != "RESUME_PEERS"@.len());
    assert("STATUS"@.len() != "PAUSE_RECOVERY"@.len());
    assert("STATUS"@.len() != "RESUME_RECOVERY"@.len());
    assert("STATUS"@.len() != "SHUTDOWN"@.len());
    assert("AUDIT"@.len() != "PAUSE_PEERS"@.len());
    assert("AUDIT"@.len() != "RESUME_PEERS"@.len());
    assert("AUDIT"@.len() != "PAUSE_RECOVERY"@.len());
    assert("AUDIT"@.len() != "RESUME_RECOVERY"@.len());
    assert("AUDIT"@.len() != "SHUTDOWN"@.len());
    assert("PAUSE_PEERS"@.len() != "RESUME_PEERS"@.len());
    assert("PAUSE_PEERS"@.len() != "PAUSE_RECOVERY"@.len());
    assert("PAUSE_PEERS"@.len() != "RESUME_RECOVERY"@.len());
    assert("PAUSE_PEERS"@.len() != "SHUTDOWN"@.len());
    assert("RESUME_PEERS"@.len() != "PAUSE_RECOVERY"@.len());
    assert("RESUME_PEERS"@.len() != "RESUME_RECOVERY"@.len());
    assert("RESUME_PEERS"@.len() != "SHUTDOWN"@.len());
    assert("PAUSE_RECOVERY"@.len() != "RESUME_RECOVERY"@.len());
    assert("PAUSE_RECOVERY"@.len() != "SHUTDOWN"@.len());
    assert("RESUME_RECOVERY"@.len() != "SHUTDOWN"@.len());
    assert("SHUTDOWN"@[1] != "SNAPSHOT"@[1]);
    assert("VALUE"@[0] != "FAULT"@[0]);
    assert("VALUE"@.len() != "FAULT_CAPACITY"@.len());
    assert("VALUE"@.len() != "SNAPSHOT"@.len());
    assert("VALUE"@[0] != "DRAIN"@[0]);
    assert("VALUE"@.len() != "REMOVE"@.len());
    assert("VALUE"@.len() != "TOMBSTONE"@.len());
    assert("VALUE"@.len() != "SLOW"@.len());
    assert("FAULT"@.len() != "FAULT_CAPACITY"@.len());
    assert("FAULT"@.len() != "SNAPSHOT"@.len());
    assert("FAULT"@[0] != "DRAIN"@[0]);
    assert("FAULT"@.len() != "REMOVE"@.len());
    assert("FAULT"@.len() != "TOMBSTONE"@.len());
    assert("FAULT"@.len() != "SLOW"@.len());
    assert("FAULT_CAPACITY"@.len() != "SNAPSHOT"@.len());
    assert("FAULT_CAPACITY"@.len() != "DRAIN"@.len());
    assert("FAULT_CAPACITY"@.len() != "REMOVE"@.len());
    assert("FAULT_CAPACITY"@.len() != "TOMBSTONE"@.len());
    assert("FAULT_CAPACITY"@.len() != "SLOW"@.len());
    assert("SNAPSHOT"@.len() != "DRAIN"@.len());
    assert("SNAPSHOT"@.len() != "REMOVE"@.len());
    assert("SNAPSHOT"@.len() != "TOMBSTONE"@.len());
    assert("SNAPSHOT"@.len() != "SLOW"@.len());
    assert("DRAIN"@.len() != "REMOVE"@.len());
    assert("DRAIN"@.len() != "TOMBSTONE"@.len());
    assert("DRAIN"@.len() != "SLOW"@.len());
    assert("REMOVE"@.len() != "TOMBSTONE"@.len());
    assert("REMOVE"@.len() != "SLOW"@.len());
    assert("TOMBSTONE"@.len() != "SLOW"@.len());
    assert("OPEN"@.len() != "PRESSURE"@.len());
    assert("PEER_PROBE"@.len() != "TRANSFER"@.len());
    assert("PEER_PROBE"@.len() != "REOPEN"@.len());
    assert("TRANSFER"@.len() != "REOPEN"@.len());
    assert("snapshot"@.len() != "bulk"@.len());
}

/// A line without words is empty, and one that is no command with its number of fields is unknown;
/// nothing else is answered with these.
pub proof fn law_only_commands_are_read(line: &str, r: Result<Request, ProtocolError>)
    requires
        call_ensures(parse, (line,), r),
    ensures
        r == Err::<Request, ProtocolError>(ProtocolError::Empty) <==> words_of(line@).len() == 0,
        r == Err::<Request, ProtocolError>(ProtocolError::Unknown) <==> words_of(line@).len() > 0
            && !is_bare_command(words_of(line@)) && !is_group_command(words_of(line@))
            && !is_field_command(words_of(line@)),
{
    lemma_names();
}

/// Each command without fields is its request.
pub proof fn law_bare_commands(line: &str, r: Result<Request, ProtocolError>)
    requires
        call_ensures(parse, (line,), r),
    ensures
        is_command(words_of(line@), "STATUS"@, 0) <==> r == Ok::<Request, ProtocolError>(
            Request::Status,
        ),
        is_command(words_of(line@), "AUDIT"@, 0) <==> r == Ok::<Request, ProtocolError>(
            Request::Audit,
        ),
        is_command(words_of(line@), "PAUSE_PEERS"@, 0) <==> r == Ok::<Request, ProtocolError>(
            Request::PausePeers,
        ),
        is_command(words_of(line@), "RESUME_PEERS"@, 0) <==> r == Ok::<Request, ProtocolError>(
            Request::ResumePeers,
        ),
        is_command(words_of(line@), "PAUSE_RECOVERY"@, 0) <==> r == Ok::<Request, ProtocolError>(
            Request::PauseRecovery,
        ),
        is_command(words_of(line@), "RESUME_RECOVERY"@, 0) <==> r == Ok::<Request, ProtocolError>(
            Request::ResumeRecovery,
        ),
        is_command(words_of(line@), "SHUTDOWN"@, 0) <==> r == Ok::<Request, ProtocolError>(
            Request::Shutdown,
        ),
{
    lemma_names();
}

/// `OPEN group incarnation client epoch` asks for a session.
pub proof fn law_open_is_read(line: &str, r: Result<Request, ProtocolError>)
    requires
        call_ensures(parse, (line,), r),
        is_command(words_of(line@), "OPEN"@, 4),
    ensures
        ({
            let w = words_of(line@);
            let faults = seq![
                number_fault(w[1], 0xffff_ffff, ProtocolError::GroupNumber),
                positive_fault(
                    w[2],
                    0xffff_ffff,
                    ProtocolError::IncarnationNumber,
                    ProtocolError::ZeroIncarnation,
                ),
                number_fault(w[3], 0xffff_ffff, ProtocolError::ClientNumber),
                positive_fault(
                    w[4],
                    0xffff_ffff_ffff_ffff,
                    ProtocolError::EpochNumber,
                    ProtocolError::ZeroEpoch,
                ),
            ];
            match first_fault(faults) {
                Some(error) => r == Err::<Request, ProtocolError>(error),
                None => r matches Ok(Request::OpenSession { group_id, incarnation, client_id, epoch }) && {
                    &&& group_id@ as nat == unsigned_of(w[1], 0xffff_ffff)->0
                    &&& incarnation@ as nat == unsigned_of(w[2], 0xffff_ffff)->0
                    &&& client_id@ as nat == unsigned_of(w[3], 0xffff_ffff)->0
                    &&& epoch@ as nat == unsigned_of(w[4], 0xffff_ffff_ffff_ffff)->0
                },
            }
        }),
{
    lemma_names();
    reveal_with_fuel(first_fault, 5);
}

/// `ADD group incarnation client epoch sequence delta` adds the delta that is written; the delta is
/// looked at first.
pub proof fn law_add_is_read(line: &str, r: Result<Request, ProtocolError>)
    requires
        call_ensures(parse, (line,), r),
        is_command(words_of(line@), "ADD"@, 6),
    ensures
        ({
            let w = words_of(line@);
            let faults = seq![
                if signed_of(w[6]) is None {
                    Some(ProtocolError::DeltaNumber)
                } else if signed_of(w[6]) == Some(0int) {
                    Some(ProtocolError::ZeroDelta)
                } else {
                    None
                },
                number_fault(w[1], 0xffff_ffff, ProtocolError::GroupNumber),
                positive_fault(
                    w[2],
                    0xffff_ffff,
                    ProtocolError::IncarnationNumber,
                    ProtocolError::ZeroIncarnation,
                ),
                number_fault(w[3], 0xffff_ffff, ProtocolError::ClientNumber),
                positive_fault(
                    w[4],
                    0xffff_ffff_ffff_ffff,
                    ProtocolError::EpochNumber,
                    ProtocolError::ZeroEpoch,
                ),
                positive_fault(
                    w[5],
                    0xffff_ffff_ffff_ffff,
                    ProtocolError::SequenceNumber,
                    ProtocolError::ZeroSequence,
                ),
            ];
            match first_fault(faults) {
                Some(error) => r == Err::<Request, ProtocolError>(error),
                None => r matches Ok(Request::Counter { command, group_id, incarnation, client_id, epoch, sequence }) && {
                    &&& (command matches CounterCommand::Add { delta } && delta@ as int == signed_of(w[6])->0)
                    &&& group_id@ as nat == unsigned_of(w[1], 0xffff_ffff)->0
                    &&& incarnation@ as nat == unsigned_of(w[2], 0xffff_ffff)->0
                    &&& client_id@ as nat == unsigned_of(w[3], 0xffff_ffff)->0
                    &&& epoch@ as nat == unsigned_of(w[4], 0xffff_ffff_ffff_ffff)->0
                    &&& sequence@ as nat == unsigned_of(w[5], 0xffff_ffff_ffff_ffff)->0
                },
            }
        }),
{
    lemma_names();
    reveal_with_fuel(first_fault, 7);
}

/// `READ group incarnation client epoch sequence` reads the counter.
pub proof fn law_read_is_read(line: &str, r: Result<Request, ProtocolError>)
    requires
        call_ensures(parse, (line,), r),
        is_command(words_of(line@), "READ"@, 5),
    ensures
        ({
            let w = words_of(line@);
            let faults = seq![
                number_fault(w[1], 0xffff_ffff, ProtocolError::GroupNumber),
                positive_fault(
                    w[2],
                    0xffff_ffff,
                    ProtocolError::IncarnationNumber,
                    ProtocolError::ZeroIncarnation,
                ),
                number_fault(w[3], 0xffff_ffff, ProtocolError::ClientNumber),
                positive_fault(
                    w[4],
                    0xffff_ffff_ffff_ffff,
                    ProtocolError::EpochNumber,
                    ProtocolError::ZeroEpoch,
                ),
                positive_fault(
                    w[5],
                    0xffff_ffff_ffff_ffff,
                    ProtocolError::SequenceNumber,
                    ProtocolError::ZeroSequence,
                ),
            ];
            match first_fault(faults) {
                Some(error) => r == Err::<Request, ProtocolError>(error),
                None => r matches Ok(Request::Counter { group_id, incarnation, client_id, epoch, sequence, command }) && {
                    &&& group_id@ as nat == unsigned_of(w[1], 0xffff_ffff)->0
                    &&& incarnation@ as nat == unsigned_of(w[2], 0xffff_ffff)->0
                    &&& client_id@ as nat == unsigned_of(w[3], 0xffff_ffff)->0
                    &&& epoch@ as nat == unsigned_of(w[4], 0xffff_ffff_ffff_ffff)->0
                    &&& sequence@ as nat == unsigned_of(w[5], 0xffff_ffff_ffff_ffff)->0
                    &&& command == CounterCommand::Read
                },
            }
        }),
{
    lemma_names();
    reveal_with_fuel(first_fault, 6);
}

/// `PEER_PROBE target group incarnation` probes a peer; the target is looked at first.
pub proof fn law_peer_probe_is_read(line: &str, r: Result<Request, ProtocolError>)
    requires
        call_ensures(parse, (line,), r),
        is_command(words_of(line@), "PEER_PROBE"@, 3),
    ensures
        ({
            let w = words_of(line@);
            let faults = seq![
                number_fault(w[1], 0xffff_ffff, ProtocolError::TargetNumber),
                number_fault(w[2], 0xffff_ffff, ProtocolError::GroupNumber),
                positive_fault(
                    w[3],
                    0xffff_ffff,
                    ProtocolError::IncarnationNumber,
                    ProtocolError::ZeroIncarnation,
                ),
            ];
            match first_fault(faults) {
                Some(error) => r == Err::<Request, ProtocolError>(error),
                None => r matches Ok(Request::PeerProbe { target, group_id, incarnation }) && {
                    &&& target as nat == unsigned_of(w[1], 0xffff_ffff)->0
                    &&& group_id@ as nat == unsigned_of(w[2], 0xffff_ffff)->0
                    &&& incarnation@ as nat == unsigned_of(w[3], 0xffff_ffff)->0
                },
            }
        }),
{
    lemma_names();
    reveal_with_fuel(first_fault, 4);
}

/// `TRANSFER group incarnation target` hands the leadership over.
pub proof fn law_transfer_is_read(line: &str, r: Result<Request, ProtocolError>)
    requires
        call_ensures(parse, (line,), r),
        is_command(words_of(line@), "TRANSFER"@, 3),
    ensures
        ({
            let w = words_of(line@);
            let faults = seq![
                number_fault(w[1], 0xffff_ffff, ProtocolError::GroupNumber),
                positive_fault(
                    w[2],
                    0xffff_ffff,
                    ProtocolError::IncarnationNumber,
                    ProtocolError::ZeroIncarnation,
                ),
                number_fault(w[3], 0xffff_ffff, ProtocolError::TargetNumber),
            ];
            match first_fault(faults) {
                Some(error) => r == Err::<Request, ProtocolError>(error),
                None => r matches Ok(Request::TransferLeadership { group_id, incarnation, target }) && {
                    &&& group_id@ as nat == unsigned_of(w[1], 0xffff_ffff)->0
                    &&& incarnation@ as nat == unsigned_of(w[2], 0xffff_ffff)->0
                    &&& target as nat == unsigned_of(w[3], 0xffff_ffff)->0
                },
            }
        }),
{
    lemma_names();
    reveal_with_fuel(first_fault, 4);
}

/// `PRESSURE group incarnation class count` fills the peer queues.
pub proof fn law_pressure_is_read(line: &str, r: Result<Request, ProtocolError>)
    requires
        call_ensures(parse, (line,), r),
        is_command(words_of(line@), "PRESSURE"@, 4),
    ensures
        ({
            let w = words_of(line@);
            let faults = seq![
                number_fault(w[1], 0xffff_ffff, ProtocolError::GroupNumber),
                positive_fault(
                    w[2],
                    0xffff_ffff,
                    ProtocolError::IncarnationNumber,
                    ProtocolError::ZeroIncarnation,
                ),
                if w[3] == "snapshot"@ || w[3] == "bulk"@ {
                    None
                } else {
                    Some(ProtocolError::Class)
                },
                number_fault(w[4], usize::MAX as nat, ProtocolError::CountNumber),
            ];
            match first_fault(faults) {
                Some(error) => r == Err::<Request, ProtocolError>(error),
                None => r matches Ok(Request::Pressure { group_id, incarnation, class, count }) && {
                    &&& group_id@ as nat == unsigned_of(w[1], 0xffff_ffff)->0
                    &&& incarnation@ as nat == unsigned_of(w[2], 0xffff_ffff)->0
                    &&& (class == PressureClass::Snapshot <==> w[3] == "snapshot"@)
                    &&& count as nat == unsigned_of(w[4], usize::MAX as nat)->0
                },
            }
        }),
{
    lemma_names();
    reveal_with_fuel(first_fault, 5);
}

/// `SLOW group milliseconds` delays the turns of a group.
pub proof fn law_slow_is_read(line: &str, r: Result<Request, ProtocolError>)
    requires
        call_ensures(parse, (line,), r),
        is_command(words_of(line@), "SLOW"@, 2),
    ensures
        ({
            let w = words_of(line@);
            let faults = seq![
                number_fault(w[1], 0xffff_ffff, ProtocolError::GroupNumber),
                number_fault(w[2], 0xffff_ffff_ffff_ffff, ProtocolError::DelayNumber),
            ];
            match first_fault(faults) {
                Some(error) => r == Err::<Request, ProtocolError>(error),
                None => r matches Ok(Request::Slow { group_id, milliseconds }) && {
                    &&& group_id@ as nat == unsigned_of(w[1], 0xffff_ffff)->0
                    &&& milliseconds as nat == unsigned_of(w[2], 0xffff_ffff_ffff_ffff)->0
                },
            }
        }),
{
    lemma_names();
    reveal_with_fuel(first_fault, 3);
}

/// `REOPEN group incarnation quota` opens the next incarnation.
pub proof fn law_reopen_is_read(line: &str, r: Result<Request, ProtocolError>)
    requires
        call_ensures(parse, (line,), r),
        is_command(words_of(line@), "REOPEN"@, 3),
    ensures
        ({
            let w = words_of(line@);
            let faults = seq![
                number_fault(w[1], 0xffff_ffff, ProtocolError::GroupNumber),
                positive_fault(
                    w[2],
                    0xffff_ffff,
                    ProtocolError::IncarnationNumber,
                    ProtocolError::ZeroIncarnation,
                ),
                number_fault(w[3], 0xffff_ffff, ProtocolError::QuotaNumber),
            ];
            match first_fault(faults) {
                Some(error) => r == Err::<Request, ProtocolError>(error),
                None => r matches Ok(Request::Reopen { group_id, incarnation, quota }) && {
                    &&& group_id@ as nat == unsigned_of(w[1], 0xffff_ffff)->0
                    &&& incarnation@ as nat == unsigned_of(w[2], 0xffff_ffff)->0
                    &&& quota as nat == unsigned_of(w[3], 0xffff_ffff)->0
                },
            }
        }),
{
    lemma_names();
    reveal_with_fuel(first_fault, 4);
}

/// `VALUE group incarnation` names a group and its incarnation.
pub proof fn law_value_is_read(line: &str, r: Result<Request, ProtocolError>)
    requires
        call_ensures(parse, (line,), r),
        is_command(words_of(line@), "VALUE"@, 2),
    ensures
        ({
            let w = words_of(line@);
            let faults = seq![
                number_fault(w[1], 0xffff_ffff, ProtocolError::GroupNumber),
                positive_fault(
                    w[2],
                    0xffff_ffff,
                    ProtocolError::IncarnationNumber,
                    ProtocolError::ZeroIncarnation,
                ),
            ];
            match first_fault(faults) {
                Some(error) => r == Err::<Request, ProtocolError>(error),
                None => r matches Ok(Request::Value { group_id, incarnation }) && {
                    &&& group_id@ as nat == unsigned_of(w[1], 0xffff_ffff)->0
                    &&& incarnation@ as nat == unsigned_of(w[2], 0xffff_ffff)->0
                },
            }
        }),
{
    lemma_names();
    reveal_with_fuel(first_fault, 3);
}

/// `FAULT group incarnation` names a group and its incarnation.
pub proof fn law_fault_is_read(line: &str, r: Result<Request, ProtocolError>)
    requires
        call_ensures(parse, (line,), r),
        is_command(words_of(line@), "FAULT"@, 2),
    ensures
        ({
            let w = words_of(line@);
            let faults = seq![
                number_fault(w[1], 0xffff_ffff, ProtocolError::GroupNumber),
                positive_fault(
                    w[2],
                    0xffff_ffff,
                    ProtocolError::IncarnationNumber,
                    ProtocolError::ZeroIncarnation,
                ),
            ];
            match first_fault(faults) {
                Some(error) => r == Err::<Request, ProtocolError>(error),
                None => r matches Ok(Request::Fault { group_id, incarnation }) && {
                    &&& group_id@ as nat == unsigned_of(w[1], 0xffff_ffff)->0
                    &&& incarnation@ as nat == unsigned_of(w[2], 0xffff_ffff)->0
                },
            }
        }),
{
    lemma_names();
    reveal_with_fuel(first_fault, 3);
}

/// `FAULT_CAPACITY group incarnation` names a group and its incarnation.
pub proof fn law_fault_capacity_is_read(line: &str, r: Result<Request, ProtocolError>)
    requires
        call_ensures(parse, (line,), r),
        is_command(words_of(line@), "FAULT_CAPACITY"@, 2),
    ensures
        ({
            let w = words_of(line@);
            let faults = seq![
                number_fault(w[1], 0xffff_ffff, ProtocolError::GroupNumber),
                positive_fault(
                    w[2],
                    0xffff_ffff,
                    ProtocolError::IncarnationNumber,
                    ProtocolError::ZeroIncarnation,
                ),
            ];
            match first_fault(faults) {
                Some(error) => r == Err::<Request, ProtocolError>(error),
                None => r matches Ok(Request::CapacityFault { group_id, incarnation }) && {
                    &&& group_id@ as nat == unsigned_of(w[1], 0xffff_ffff)->0
                    &&& incarnation@ as nat == unsigned_of(w[2], 0xffff_ffff)->0
                },
            }
        }),
{
    lemma_names();
    reveal_with_fuel(first_fault, 3);
}

/// `SNAPSHOT group incarnation` names a group and its incarnation.
pub proof fn law_snapshot_is_read(line: &str, r: Result<Request, ProtocolError>)
    requires
        call_ensures(parse, (line,), r),
        is_command(words_of(line@), "SNAPSHOT"@, 2),
    ensures
        ({
            let w = words_of(line@);
            let faults = seq![
                number_fault(w[1], 0xffff_ffff, ProtocolError::GroupNumber),
                positive_fault(
                    w[2],
                    0xffff_ffff,
                    ProtocolError::IncarnationNumber,
                    ProtocolError::ZeroIncarnation,
                ),
            ];
            match first_fault(faults) {
                Some(error) => r == Err::<Request, ProtocolError>(error),
                None => r matches Ok(Request::Snapshot { group_id, incarnation }) && {
                    &&& group_id@ as nat == unsigned_of(w[1], 0xffff_ffff)->0
                    &&& incarnation@ as nat == unsigned_of(w[2], 0xffff_ffff)->0
                },
            }
        }),
{
    lemma_names();
    reveal_with_fuel(first_fault, 3);
}

/// `DRAIN group incarnation` names a group and its incarnation.
pub proof fn law_drain_is_read(line: &str, r: Result<Request, ProtocolError>)
    requires
        call_ensures(parse, (line,), r),
        is_command(words_of(line@), "DRAIN"@, 2),
    ensures
        ({
            let w = words_of(line@);
            let faults = seq![
                number_fault(w[1], 0xffff_ffff, ProtocolError::GroupNumber),
                positive_fault(
                    w[2],
                    0xffff_ffff,
                    ProtocolError::IncarnationNumber,
                    ProtocolError::ZeroIncarnation,
                ),
            ];
            match first_fault(faults) {
                Some(error) => r == Err::<Request, ProtocolError>(error),
                None => r matches Ok(Request::Drain { group_id, incarnation }) && {
                    &&& group_id@ as nat == unsigned_of(w[1], 0xffff_ffff)->0
                    &&& incarnation@ as nat == unsigned_of(w[2], 0xffff_ffff)->0
                },
            }
        }),
{
    lemma_names();
    reveal_with_fuel(first_fault, 3);
}

/// `REMOVE group incarnation` names a group and its incarnation.
pub proof fn law_remove_is_read(line: &str, r: Result<Request, ProtocolError>)
    requires
        call_ensures(parse, (line,), r),
        is_command(words_of(line@), "REMOVE"@, 2),
    ensures
        ({
            let w = words_of(line@);
            let faults = seq![
                number_fault(w[1], 0xffff_ffff, ProtocolError::GroupNumber),
                positive_fault(
                    w[2],
                    0xffff_ffff,
                    ProtocolError::IncarnationNumber,
                    ProtocolError::ZeroIncarnation,
                ),
            ];
            match first_fault(faults) {
                Some(error) => r == Err::<Request, ProtocolError>(error),
                None => r matches Ok(Request::Remove { group_id, incarnation }) && {
                    &&& group_id@ as nat == unsigned_of(w[1], 0xffff_ffff)->0
                    &&& incarnation@ as nat == unsigned_of(w[2], 0xffff_ffff)->0
                },
            }
        }),
{
    lemma_names();
    reveal_with_fuel(first_fault, 3);
}

/// `TOMBSTONE group incarnation` names a group and its incarnation.
pub proof fn law_tombstone_is_read(line: &str, r: Result<Request, ProtocolError>)
    requires
        call_ensures(parse, (line,), r),
        is_command(words_of(line@), "TOMBSTONE"@, 2),
    ensures
        ({
            let w = words_of(line@);
            let faults = seq![
                number_fault(w[1], 0xffff_ffff, ProtocolError::GroupNumber),
                positive_fault(
                    w[2],
                    0xffff_ffff,
                    ProtocolError::IncarnationNumber,
                    ProtocolError::ZeroIncarnation,
                ),
            ];
            match first_fault(faults) {
                Some(error) => r == Err::<Request, ProtocolError>(error),
                None => r matches Ok(Request::Tombstone { group_id, incarnation }) && {
                    &&& group_id@ as nat == unsigned_of(w[1], 0xffff_ffff)->0
                    &&& incarnation@ as nat == unsigned_of(w[2], 0xffff_ffff)->0
                },
            }
        }),
{
    lemma_names();
    reveal_with_fuel(first_fault, 3);
}

// ------------------------------------------------------------- written lines

/// Words after each other, with one space between two.
pub open spec fn spaced(words: Seq<Seq<char>>) -> Seq<char>
    decreases words.len(),
{
    if words.len() == 0 {
        Seq::empty()
    } else if words.len() == 1 {
        words[0]
    } else {
        spaced(words.drop_last()).push(' ') + words.last()
    }
}

/// A word: letters, and no separator among them.
pub open spec fn is_one_word(word: Seq<char>) -> bool {
    &&& word.len() > 0
    &&& forall|i: int| 0 <= i < word.len() ==> !is_space(#[trigger] word[i])
}

/// Visible ASCII characters are part of words; a space, a tab and a line end are not.
pub proof fn law_visible_characters_are_letters(c: char)
    ensures
        '!' <= c && c <= '~' ==> !is_space(c),
        c == ' ' || c == '\t' || c == '\n' || c == '\r' ==> is_space(c),
{
}

proof fn lemma_word_is_added(line: Seq<char>, word: Seq<char>)
    requires
        is_one_word(word),
        line.len() == 0 || is_space(line.last()),
    ensures
        words_of(line + word) == words_of(line).push(word),
        (line + word).len() > 0,
        !is_space((line + word).last()),
    decreases word.len(),
{
    let all = line + word;
    let rest = word.drop_last();
    assert(all.drop_last() =~= line + rest);
    assert(all.last() == word[word.len() - 1]);
    if rest.len() == 0 {
        assert(line + rest =~= line);
        assert(word =~= seq![word[0]]);
    } else {
        assert forall|i: int| 0 <= i < rest.len() implies !is_space(#[trigger] rest[i]) by {
            assert(rest[i] == word[i]);
        }
        lemma_word_is_added(line, rest);
        let before = words_of(line).push(rest);
        assert(before.drop_last() =~= words_of(line));
        assert(rest.push(word.last()) =~= word);
    }
}

/// Words that are written one after the other are read as they were written.
pub proof fn law_spaced_words_are_read_back(words: Seq<Seq<char>>)
    requires
        forall|i: int| 0 <= i < words.len() ==> is_one_word(#[trigger] words[i]),
    ensures
        words_of(spaced(words)) == words,
    decreases words.len(),
{
    if words.len() == 0 {
    } else if words.len() == 1 {
        lemma_word_is_added(Seq::empty(), words[0]);
        assert(Seq::<char>::empty() + words[0] =~= words[0]);
        assert(words =~= seq![words[0]]);
        assert(words_of(Seq::<char>::empty()).push(words[0]) =~= words);
    } else {
        let rest = words.drop_last();
        assert forall|i: int| 0 <= i < rest.len() implies is_one_word(#[trigger] rest[i]) by {
            assert(rest[i] == words[i]);
        }
        law_spaced_words_are_read_back(rest);
        let line = spaced(rest).push(' ');
        assert(line.drop_last() =~= spaced(rest));
        assert(is_one_word(words[words.len() - 1]));
        lemma_word_is_added(line, words.last());
        assert(rest.push(words.last()) =~= words);
    }
}

proof fn lemma_decimal_is_a_word(n: nat)
    ensures
        is_one_word(decimal(n)),
    decreases n,
{
    if n >= 10 {
        lemma_decimal_is_a_word(n / 10);
        let rest = decimal(n / 10);
        assert forall|i: int| 0 <= i < decimal(n).len() implies !is_space(
            #[trigger] decimal(n)[i],
        ) by {
            if i < rest.len() {
                assert(decimal(n)[i] == rest[i]);
            }
        }
    }
}

proof fn lemma_signed_is_a_word(n: int)
    ensures
        is_one_word(signed_decimal(n)),
{
    if n < 0 {
        lemma_decimal_is_a_word((-n) as nat);
        let rest = decimal((-n) as nat);
        assert forall|i: int| 0 <= i < signed_decimal(n).len() implies !is_space(
            #[trigger] signed_decimal(n)[i],
        ) by {
            if i > 0 {
                assert(signed_decimal(n)[i] == rest[i - 1]);
            }
        }
    } else {
        lemma_decimal_is_a_word(n as nat);
    }
}

/// A line that adds, as it is written.
pub open spec fn add_line(
    group: u32,
    incarnation: u32,
    client: u32,
    epoch: u64,
    sequence: u64,
    delta: i64,
) -> Seq<char> {
    spaced(
        seq![
            "ADD"@,
            decimal(group as nat),
            decimal(incarnation as nat),
            decimal(client as nat),
            decimal(epoch as nat),
            decimal(sequence as nat),
            signed_decimal(delta as int),
        ],
    )
}

/// Whatever nonzero delta a line writes is the delta that is added, with its sign, on the group and in
/// the session that the line names.
pub proof fn law_written_delta_is_added(
    line: &str,
    r: Result<Request, ProtocolError>,
    group: u32,
    incarnation: u32,
    client: u32,
    epoch: u64,
    sequence: u64,
    n: i64,
)
    requires
        call_ensures(parse, (line,), r),
        line@ == add_line(group, incarnation, client, epoch, sequence, n),
        incarnation != 0,
        epoch != 0,
        sequence != 0,
        n != 0,
    ensures
        r matches Ok(
            Request::Counter {
                group_id,
                incarnation: named,
                client_id,
                epoch: opened,
                sequence: numbered,
                command: CounterCommand::Add { delta },
            },
        ) && delta@ == n && group_id@ == group && named@ == incarnation && client_id@ == client
            && opened@ == epoch && numbered@ == sequence,
{
    let words = seq![
        "ADD"@,
        decimal(group as nat),
        decimal(incarnation as nat),
        decimal(client as nat),
        decimal(epoch as nat),
        decimal(sequence as nat),
        signed_decimal(n as int),
    ];
    reveal_strlit("ADD");
    lemma_decimal_is_a_word(group as nat);
    lemma_decimal_is_a_word(incarnation as nat);
    lemma_decimal_is_a_word(client as nat);
    lemma_decimal_is_a_word(epoch as nat);
    lemma_decimal_is_a_word(sequence as nat);
    lemma_signed_is_a_word(n as int);
    assert(is_one_word("ADD"@));
    law_spaced_words_are_read_back(words);
    law_unsigned_round_trips(group as nat, 0xffff_ffff);
    law_unsigned_round_trips(incarnation as nat, 0xffff_ffff);
    law_unsigned_round_trips(client as nat, 0xffff_ffff);
    law_unsigned_round_trips(epoch as nat, 0xffff_ffff_ffff_ffff);
    law_unsigned_round_trips(sequence as nat, 0xffff_ffff_ffff_ffff);
    law_signed_round_trips(n as int);
    assert(is_command(words_of(line@), "ADD"@, 6));
    law_add_is_read(line, r);
    reveal_with_fuel(first_fault, 7);
}

/// On any line that adds, the last word alone decides the delta: written as the decimal text of a
/// nonzero number, it is that number, and no fault is found in it.
pub proof fn law_last_word_is_the_delta(line: &str, r: Result<Request, ProtocolError>, n: i64)
    requires
        call_ensures(parse, (line,), r),
        is_command(words_of(line@), "ADD"@, 6),
        words_of(line@)[6] == signed_decimal(n as int),
        n != 0,
    ensures
        r is Ok ==> (r->Ok_0 matches Request::Counter {
            command: CounterCommand::Add { delta },
            ..
        } && delta@ == n),
        r != Err::<Request, ProtocolError>(ProtocolError::DeltaNumber),
        r != Err::<Request, ProtocolError>(ProtocolError::ZeroDelta),
{
    law_signed_round_trips(n as int);
    law_add_is_read(line, r);
    reveal_with_fuel(first_fault, 7);
}

// --------------------------------------------------------------- connections

/// A line of up to 4096 bytes is submitted as the request that it is, or answered with what is wrong
/// with it; a longer one ends the connection, as does the end of the input.
pub proof fn law_lines_are_served(
    line: String,
    bytes: usize,
    text: &str,
    parsed: Result<Request, ProtocolError>,
    r: ConnectionStep,
    failed: ConnectionStep,
    closed: ConnectionStep,
)
    requires
        text@ == line@,
        call_ensures(parse, (text,), parsed),
        call_ensures(serve_line, (&LineRead::Line { line, bytes },), r),
        call_ensures(serve_line, (&LineRead::Failed,), failed),
        call_ensures(serve_line, (&LineRead::Closed,), closed),
    ensures
        bytes > 4096 <==> r == (ConnectionStep::AnswerAndClose { answer: LineAnswer::TooLong }),
        bytes <= 4096 && parsed is Ok ==> r == (ConnectionStep::Submit { request: parsed->Ok_0 }),
        bytes <= 4096 && parsed is Err ==> r == (ConnectionStep::Answer {
            answer: LineAnswer::Protocol { error: parsed->Err_0 },
        }),
        failed == ConnectionStep::Close,
        closed == ConnectionStep::Close,
{
}

/// An accepted request is waited for; a full queue is told to the client, who may go on; without an
/// engine the connection closes. At most 64 clients are served at once.
pub proof fn law_requests_are_handed_over(
    handed: Handed,
    r: ConnectionStep,
    active: usize,
    admitted: Option<LineAnswer>,
)
    requires
        call_ensures(serve_handed, (handed,), r),
        call_ensures(admits_client, (active,), admitted),
    ensures
        handed == Handed::Accepted <==> r == ConnectionStep::Await,
        handed == Handed::Full <==> r == (ConnectionStep::Answer { answer: LineAnswer::QueueFull }),
        handed == Handed::Disconnected <==> r == ConnectionStep::Close,
        admitted is None <==> active < 64,
        admitted is Some ==> admitted == Some(LineAnswer::ClientLimit),
{
}

} // verus!
