//! The lines a node writes of itself, and the words it has for what went wrong.

use vstd::prelude::*;

use crate::node::host_registry::{HostRecord, RegistryError};
use crate::node::peer_link::{FrameError, LinkCounters, LinkError, PeerGroupCodecError};
use crate::node::protocol::{LineAnswer, ProtocolError};
use crate::node::record::StoreError;
use crate::node::render::{
    flag_text, group_list_text, hex_text, host_record_name, render_audit, render_registry_error,
    render_session_status, render_status, render_store_error, AuditReport, StatusReport,
};
use crate::text::decimal;
use crate::types::GroupId;

verus! {

/// The status line states every field of the report behind its own name, in this order.
pub proof fn law_status_line_names_its_fields(report: StatusReport, r: String)
    requires
        call_ensures(render_status, (&report,), r),
    ensures
        r@ == "OK STATUS ready="@ + flag_text(report.ready)
            + " groups="@ + decimal(report.groups as nat)
            + " leaders="@ + decimal(report.leaders as nat)
            + " leader_groups="@ + group_list_text(report.leader_groups@)
            + " poisoned="@ + decimal(report.poisoned as nat)
            + " queued="@ + decimal(report.queued as nat)
            + " in_flight="@ + decimal(report.in_flight as nat)
            + " workers="@ + decimal(report.workers as nat)
            + " admitted="@ + decimal(report.admitted as nat)
            + " client_admitted="@ + decimal(report.client_admitted as nat)
            + " serviced="@ + decimal(report.serviced as nat)
            + " failed="@ + decimal(report.failed as nat)
            + " passes="@ + decimal(report.passes as nat)
            + " pending_proposals="@ + decimal(report.pending_proposals as nat)
            + " admission_reads="@ + decimal(report.admission_reads as nat)
            + " admission_candidates="@ + decimal(report.admission_candidates as nat)
            + " admission_successors="@ + decimal(report.admission_successors as nat)
            + " admission_barriers="@ + decimal(report.admission_barriers as nat)
            + " durable_outstanding="@ + decimal(report.durable_outstanding as nat)
            + " recovery_deferred="@ + decimal(report.recovery_deferred as nat)
            + " recovery_refused="@ + decimal(report.recovery_refused as nat)
            + " refused_peer="@ + decimal(report.refused_peer as nat)
            + " link_outbound_full="@ + decimal(report.link.outbound_full as nat)
            + " link_inbound_full="@ + decimal(report.link.inbound_full as nat)
            + " link_malformed="@ + decimal(report.link.malformed as nat)
            + " link_identity_refused="@ + decimal(report.link.identity_refused as nat)
            + " link_inbound_connection_full="@ + decimal(report.link.inbound_connection_full as nat),
{
}

/// What a status line adds where links are encrypted.
pub proof fn law_session_status_names_its_fields(link: LinkCounters, r: String)
    requires
        call_ensures(render_session_status, (link,), r),
    ensures
        r@ == " link_tls_handshakes="@ + decimal(link.tls_handshakes as nat)
            + " link_tls_failures="@ + decimal(link.tls_failures as nat)
            + " link_stale_sessions="@ + decimal(link.stale_sessions as nat)
            + " link_active_outbound="@ + decimal(link.active_outbound_connections as nat)
            + " link_active_inbound="@ + decimal(link.active_inbound_connections as nat),
{
}

/// The audit line states every field of the report behind its own name, the digests in sixteen
/// hexadecimal digits, and whether the books balance.
pub proof fn law_audit_line_names_its_fields(report: AuditReport, r: String)
    requires
        call_ensures(render_audit, (report,), r),
    ensures
        r@ == "OK AUDIT plans="@ + decimal(report.plans as nat)
            + " passes_completed="@ + decimal(report.passes_completed as nat)
            + " certified_passes="@ + decimal(report.certified_passes as nat)
            + " opportunities="@ + decimal(report.opportunities as nat)
            + " coverage="@ + decimal(report.coverage as nat)
            + " widest_gap="@ + decimal(report.widest_gap as nat)
            + " invalid_plans="@ + decimal(report.invalid_plans as nat)
            + " invalid_turns="@ + decimal(report.invalid_turns as nat)
            + " plan_digest="@ + hex_text(report.plan_digest, 16)
            + " turn_digest="@ + hex_text(report.turn_digest, 16)
            + " admitted="@ + decimal(report.admitted as nat)
            + " serviced="@ + decimal(report.serviced as nat)
            + " failed="@ + decimal(report.failed as nat)
            + " queued="@ + decimal(report.queued as nat)
            + " in_flight="@ + decimal(report.in_flight as nat)
            + " conserved="@ + flag_text(
            report.admitted == report.serviced + report.failed + report.queued + report.in_flight,
        ),
{
}

/// A list of groups is their numbers in order, with a comma before every one but the first; without any
/// it is a dash.
pub proof fn law_group_lists_are_numbers(groups: Seq<GroupId>, last: GroupId)
    ensures
        groups.len() == 0 ==> group_list_text(groups) == "-"@ && group_list_text(groups.push(last))
            == decimal(last@ as nat),
        groups.len() > 0 ==> group_list_text(groups.push(last)) == group_list_text(groups) + ","@
            + decimal(last@ as nat),
{
    assert(groups.push(last).drop_last() =~= groups);
}

/// A flag is written as a word.
pub proof fn law_flags_are_words()
    ensures
        flag_text(true) == "true"@,
        flag_text(false) == "false"@,
{
}

/// Every fault of a host record has its words, with the record's name or the numbers it is about.
pub proof fn law_registry_faults_have_words(
    error: RegistryError,
    kind: HostRecord,
    r: String,
    name: &str,
)
    requires
        call_ensures(render_registry_error, (error, kind), r),
        call_ensures(host_record_name, (kind,), name),
    ensures
        kind == HostRecord::Registry ==> name@ == "host registry"@,
        kind == HostRecord::Retirement ==> name@ == "retirement intent"@,
        kind == HostRecord::Activation ==> name@ == "activation intent"@,
        kind == HostRecord::Bootstrap ==> name@ == "bootstrap intent"@,
        error == RegistryError::Truncated ==> r@ == name@ + " is truncated"@,
        error matches RegistryError::Checksum { expected, actual } ==> r@ == name@
            + " checksum mismatch: expected 0x"@ + hex_text(expected as u64, 8) + ", got 0x"@
            + hex_text(actual as u64, 8),
        error == RegistryError::WrongMagic ==> r@ == name@ + " has the wrong magic"@,
        error == RegistryError::UnsupportedVersion ==> r@ == name@ + " has an unsupported version"@,
        error == RegistryError::TruncatedField ==> r@ == "durable host record is truncated"@,
        error == RegistryError::ZeroIncarnation ==> r@ == name@ + " contains a zero incarnation"@,
        error == RegistryError::ZeroPreviousIncarnation ==> r@ == name@
            + " contains a zero previous incarnation"@,
        error == RegistryError::ZeroNextIncarnation ==> r@ == name@
            + " contains a zero next incarnation"@,
        error matches RegistryError::UnknownLifecycle { value } ==> r@
            == "host registry has unknown lifecycle "@
            + decimal(value as nat),
        error == RegistryError::ZeroQuota ==> r@ == name@ + " contains a zero quota"@,
        error == RegistryError::ZeroGroupCount ==> r@ == name@ + " contains a zero group count"@,
        error == RegistryError::NotConsecutive ==> r@ == name@
            + " incarnations are not consecutive"@,
        error matches RegistryError::DuplicateGroup { group } ==> r@
            == "host registry contains duplicate group "@
            + decimal(group@ as nat),
        error == RegistryError::TrailingBytes ==> r@ == name@ + " contains trailing bytes"@,
        error matches RegistryError::TooLarge { bytes } ==> r@ == "host registry is "@
            + decimal(bytes as nat) + " bytes, above 131072"@,
        error matches RegistryError::SlotCount { found, expected } ==> r@ == "host registry has "@
            + decimal(found as nat) + " slots, expected "@ + decimal(expected as nat),
        error matches RegistryError::MissingGroup { group } ==> r@
            == "host registry is missing configured group "@
            + decimal(group@ as nat),
        error matches RegistryError::NoSlot { group } ==> r@
            == "host registry has no slot for group "@
            + decimal(group@ as nat),
        error matches RegistryError::Unconfigured { group } ==> r@
            == "host registry cannot add unconfigured group "@
            + decimal(group@ as nat),
{
}

/// Every fault of a stored record has its words, with the numbers it is about.
pub proof fn law_store_faults_have_words(error: StoreError, r: String)
    requires
        call_ensures(render_store_error, (error,), r),
    ensures
        error matches StoreError::Checksum { expected, actual } ==> r@
            == "counter application record checksum mismatch: expected 0x"@
            + hex_text(expected as u64, 8) + ", got 0x"@ + hex_text(actual as u64, 8),
        error matches StoreError::TooLarge { bytes } ==> r@ == "counter application record is "@
            + decimal(bytes as nat) + " bytes, above 131072"@,
        error matches StoreError::OutstandingCapacity { bound } ==> r@
            == "outstanding request capacity "@
            + decimal(bound as nat) + " is exhausted"@,
        error matches StoreError::ConflictingOutstanding { client_id } ==> r@ == "client "@
            + decimal(client_id@ as nat) + " already has a different request outstanding"@,
        error matches StoreError::OutstandingRemain { count } ==> r@ == decimal(count as nat)
            + " durable requests remain outstanding"@,
{
}

/// Every fault of a request line has its words, and is answered in them.
pub proof fn law_protocol_faults_have_words(
    error: ProtocolError,
    r: &str,
    answer: LineAnswer,
    line: String,
)
    requires
        call_ensures(ProtocolError::message, (error,), r),
        call_ensures(LineAnswer::render, (answer,), line),
    ensures
        error == ProtocolError::Empty ==> r@ == "empty request"@,
        error == ProtocolError::Unknown ==> r@ == "unknown command or wrong field count"@,
        error == ProtocolError::GroupNumber ==> r@ == "group id is not a u32"@,
        error == ProtocolError::IncarnationNumber ==> r@ == "incarnation is not a u32"@,
        error == ProtocolError::ZeroIncarnation ==> r@ == "incarnation must be nonzero"@,
        error == ProtocolError::ClientNumber ==> r@ == "client id is not a u32"@,
        error == ProtocolError::EpochNumber ==> r@ == "session epoch is not a u64"@,
        error == ProtocolError::ZeroEpoch ==> r@ == "session epoch must be nonzero"@,
        error == ProtocolError::SequenceNumber ==> r@ == "sequence is not a u64"@,
        error == ProtocolError::ZeroSequence ==> r@ == "sequence must be nonzero"@,
        error == ProtocolError::DeltaNumber ==> r@ == "delta is not an i64"@,
        error == ProtocolError::ZeroDelta ==> r@ == "delta must be nonzero"@,
        error == ProtocolError::TargetNumber ==> r@ == "target node id is not a u32"@,
        error == ProtocolError::QuotaNumber ==> r@ == "quota is not a u32"@,
        error == ProtocolError::Class ==> r@ == "pressure class must be snapshot or bulk"@,
        error == ProtocolError::CountNumber ==> r@ == "pressure count is not a usize"@,
        error == ProtocolError::DelayNumber ==> r@ == "slow delay is not a u64"@,
        answer == (LineAnswer::Protocol { error }) ==> line@ == "ERR PROTOCOL "@ + r@,
        answer == LineAnswer::TooLong ==> line@ == "ERR LINE_TOO_LONG 4096"@,
        answer == LineAnswer::QueueFull ==> line@ == "ERR CLIENT_QUEUE_FULL"@,
        answer == LineAnswer::ClientLimit ==> line@ == "ERR CLIENT_LIMIT 64"@,
{
}

/// Every fault of a peer frame, of a link and of a group identity on the wire has its words.
pub proof fn law_link_faults_have_words(
    error: FrameError,
    r: &str,
    link: LinkError,
    told: String,
    identity: PeerGroupCodecError,
    named: String,
)
    requires
        call_ensures(FrameError::message, (error,), r),
        call_ensures(LinkError::render, (link,), told),
        call_ensures(PeerGroupCodecError::render, (identity,), named),
    ensures
        error == FrameError::TooLong ==> r@ == "peer frame exceeds its bound"@,
        error == FrameError::Short ==> r@ == "short peer frame"@,
        error == FrameError::Checksum ==> r@ == "peer frame checksum mismatch"@,
        error == FrameError::WrongMagic ==> r@ == "wrong peer magic"@,
        error == FrameError::UnsupportedVersion ==> r@ == "unsupported peer version"@,
        error == FrameError::ZeroIncarnation ==> r@ == "zero incarnation"@,
        error == FrameError::LengthOverflow ==> r@ == "message length overflow"@,
        error == FrameError::LengthMismatch ==> r@ == "peer message length mismatch"@,
        error == FrameError::Message ==> r@ == "malformed peer message"@,
        link matches LinkError::UnknownPeer { peer } ==> told@ == "peer "@ + decimal(peer as nat)
            + " has no route"@,
        link matches LinkError::QueueFull { peer, bound } ==> told@ == "peer "@ + decimal(peer as nat)
            + " outbound queue reached its bound "@ + decimal(bound as nat),
        link == LinkError::Unencodable ==> told@ == "peer envelope does not fit the wire format"@,
        identity matches PeerGroupCodecError::InvalidLength { actual } ==> named@
            == "counter transport group identity must contain exactly eight bytes; got "@ + decimal(
            actual as nat,
        ),
        identity == PeerGroupCodecError::ZeroIncarnation ==> named@
            == "counter transport group incarnation must be nonzero"@,
{
}

} // verus!
