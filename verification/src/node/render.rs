//! Text of every line that the node answers with.

use vstd::prelude::*;
use vstd::string::StringExecFns;

use crate::adapter::state_machine::{CounterApplyRejection, CounterApplyResult, SessionApplyResult};
use crate::node::host_registry::{HostRecord, RegistryError};
use crate::node::peer_link::LinkCounters;
use crate::node::record::{StoreError, TerminalFailure};
use crate::text::{append_number, append_signed, decimal, signed_decimal};
use crate::types::{CounterRejection, CounterResult, GroupId, GroupIncarnation, GroupLifecycle};

pub mod laws;
pub mod lines;

verus! {

/// A text followed by a number.
pub(crate) fn numbered(label: &str, n: u64) -> (r: String)
    ensures
        r@ == label@ + decimal(n as nat),
{
    let mut text = label.to_owned();
    append_number(&mut text, n);
    text
}

/// A text followed by another.
pub(crate) fn joined(label: &str, rest: &str) -> (r: String)
    ensures
        r@ == label@ + rest@,
{
    let mut text = label.to_owned();
    text.append(rest);
    text
}

/// Name of a lifecycle.
pub open spec fn lifecycle_text(lifecycle: GroupLifecycle) -> Seq<char> {
    match lifecycle {
        GroupLifecycle::Creating => "Creating"@,
        GroupLifecycle::Recovering => "Recovering"@,
        GroupLifecycle::Serving => "Serving"@,
        GroupLifecycle::Draining => "Draining"@,
        GroupLifecycle::Removed => "Removed"@,
        GroupLifecycle::Tombstoned => "Tombstoned"@,
    }
}

/// Returns the name of a lifecycle.
pub fn lifecycle_name(lifecycle: GroupLifecycle) -> (r: &'static str)
    ensures
        r@ == lifecycle_text(lifecycle),
{
    match lifecycle {
        GroupLifecycle::Creating => "Creating",
        GroupLifecycle::Recovering => "Recovering",
        GroupLifecycle::Serving => "Serving",
        GroupLifecycle::Draining => "Draining",
        GroupLifecycle::Removed => "Removed",
        GroupLifecycle::Tombstoned => "Tombstoned",
    }
}

/// Text of a truth value.
pub open spec fn flag_text(flag: bool) -> Seq<char> {
    if flag {
        "true"@
    } else {
        "false"@
    }
}

fn append_flag(text: &mut String, flag: bool)
    ensures
        final(text)@ == old(text)@ + flag_text(flag),
{
    if flag {
        text.append("true");
    } else {
        text.append("false");
    }
}

// ------------------------------------------------------------------- results

/// Answer of a terminal failure.
pub open spec fn terminal_failure_text(failure: TerminalFailure) -> Seq<char> {
    match failure {
        TerminalFailure::GroupPoisoned => "ERR NOT_COMMITTED GROUP_POISONED"@,
        TerminalFailure::GroupPoisonedUnknown => "ERR UNKNOWN GROUP_POISONED"@,
        TerminalFailure::ProcessRestarted => "ERR NOT_COMMITTED PROCESS_RESTARTED"@,
    }
}

/// Renders a terminal failure.
pub fn render_terminal_failure(failure: TerminalFailure) -> (r: &'static str)
    ensures
        r@ == terminal_failure_text(failure),
{
    match failure {
        TerminalFailure::GroupPoisoned => "ERR NOT_COMMITTED GROUP_POISONED",
        TerminalFailure::GroupPoisonedUnknown => "ERR UNKNOWN GROUP_POISONED",
        TerminalFailure::ProcessRestarted => "ERR NOT_COMMITTED PROCESS_RESTARTED",
    }
}

/// Text of a counter result.
pub open spec fn counter_result_text(result: CounterResult) -> Seq<char> {
    match result {
        CounterResult::Added { value } => "ADDED value="@ + signed_decimal(value as int),
        CounterResult::Value { value } => "VALUE value="@ + signed_decimal(value as int),
        CounterResult::Rejected(CounterRejection::CounterOverflow { current }) => {
            "REJECTED overflow current="@ + signed_decimal(current as int)
        },
    }
}

/// Renders a counter result.
pub fn render_counter_result(result: CounterResult) -> (r: String)
    ensures
        r@ == counter_result_text(result),
{
    match result {
        CounterResult::Added { value } => {
            let mut text = "ADDED value=".to_owned();
            append_signed(&mut text, value);
            text
        },
        CounterResult::Value { value } => {
            let mut text = "VALUE value=".to_owned();
            append_signed(&mut text, value);
            text
        },
        CounterResult::Rejected(CounterRejection::CounterOverflow { current }) => {
            let mut text = "REJECTED overflow current=".to_owned();
            append_signed(&mut text, current);
            text
        },
    }
}

/// Answer of a refused command.
pub open(crate) spec fn apply_rejection_text(rejection: CounterApplyRejection) -> Seq<char> {
    match rejection {
        CounterApplyRejection::ClientOutOfRange => "ERR CLIENT_OUT_OF_RANGE"@,
        CounterApplyRejection::SessionNotOpen => "ERR SESSION_NOT_OPEN"@,
        CounterApplyRejection::StaleSession { current } => "ERR STALE_SESSION current="@ + decimal(
            current@ as nat,
        ),
        CounterApplyRejection::FutureSession { current } => "ERR FUTURE_SESSION current="@
            + decimal(current@ as nat),
        CounterApplyRejection::FingerprintMismatch => "ERR FINGERPRINT_MISMATCH"@,
        CounterApplyRejection::StaleSequence { highest } => "ERR STALE_SEQUENCE highest="@
            + decimal(highest@ as nat),
        CounterApplyRejection::SequenceGap { expected } => "ERR SEQUENCE_GAP expected="@ + decimal(
            expected@ as nat,
        ),
        CounterApplyRejection::ConflictingRetry => "ERR CONFLICTING_RETRY"@,
    }
}

/// Renders the answer of a refused command.
pub fn render_apply_rejection(rejection: CounterApplyRejection) -> (r: String)
    ensures
        r@ == apply_rejection_text(rejection),
{
    match rejection {
        CounterApplyRejection::ClientOutOfRange => "ERR CLIENT_OUT_OF_RANGE".to_owned(),
        CounterApplyRejection::SessionNotOpen => "ERR SESSION_NOT_OPEN".to_owned(),
        CounterApplyRejection::StaleSession { current } => numbered(
            "ERR STALE_SESSION current=",
            current.get(),
        ),
        CounterApplyRejection::FutureSession { current } => numbered(
            "ERR FUTURE_SESSION current=",
            current.get(),
        ),
        CounterApplyRejection::FingerprintMismatch => "ERR FINGERPRINT_MISMATCH".to_owned(),
        CounterApplyRejection::StaleSequence { highest } => numbered(
            "ERR STALE_SEQUENCE highest=",
            highest.get(),
        ),
        CounterApplyRejection::SequenceGap { expected } => numbered(
            "ERR SEQUENCE_GAP expected=",
            expected.get(),
        ),
        CounterApplyRejection::ConflictingRetry => "ERR CONFLICTING_RETRY".to_owned(),
    }
}

/// Answer of an applied command.
pub open(crate) spec fn apply_result_text(result: CounterApplyResult) -> Seq<char> {
    match result {
        CounterApplyResult::Session(session) => match session {
            SessionApplyResult::Opened => "OK SESSION opened"@,
            SessionApplyResult::AlreadyOpen => "OK SESSION already_open"@,
            SessionApplyResult::Replaced => "OK SESSION replaced"@,
        },
        CounterApplyResult::Counter(result) => "OK "@ + counter_result_text(result),
        CounterApplyResult::Rejected(rejection) => apply_rejection_text(rejection),
    }
}

/// Renders the answer of an applied command.
pub fn render_apply_result(result: CounterApplyResult) -> (r: String)
    ensures
        r@ == apply_result_text(result),
{
    match result {
        CounterApplyResult::Session(session) => match session {
            SessionApplyResult::Opened => "OK SESSION opened".to_owned(),
            SessionApplyResult::AlreadyOpen => "OK SESSION already_open".to_owned(),
            SessionApplyResult::Replaced => "OK SESSION replaced".to_owned(),
        },
        CounterApplyResult::Counter(result) => {
            let text = render_counter_result(result);
            joined("OK ", text.as_str())
        },
        CounterApplyResult::Rejected(rejection) => render_apply_rejection(rejection),
    }
}

// ------------------------------------------------------------------ refusals

/// Why a request to a group is refused before it touches the group.
#[derive(Clone, Copy, Debug, Eq, PartialEq, Structural)]
pub enum Refusal {
    /// No such group.
    GroupUnknown,
    /// The request names a retired incarnation.
    StaleIncarnation {
        /// Incarnation of the group.
        current: GroupIncarnation,
    },
    /// The request names an incarnation that does not exist yet.
    FutureIncarnation {
        /// Incarnation of the group.
        current: GroupIncarnation,
    },
    /// An administrative request names another incarnation.
    Incarnation {
        /// Incarnation of the group.
        current: GroupIncarnation,
    },
    /// The group is gone for good.
    Tombstoned,
    /// The group's lifecycle does not allow it.
    Lifecycle {
        /// The lifecycle.
        state: GroupLifecycle,
    },
    /// The group is poisoned.
    GroupPoisoned,
    /// The group has no driver.
    GroupRemoved,
    /// The group has not recovered yet.
    NotReady,
    /// The quota is zero.
    ZeroQuota,
    /// Accepted requests are still recorded.
    Outstanding {
        /// How many.
        count: usize,
    },
    /// The managed host does not hold the group.
    GroupNotOpen,
}

impl Refusal {
    /// Answer of the refusal.
    pub open(crate) spec fn text(self) -> Seq<char> {
        match self {
            Refusal::GroupUnknown => "ERR GROUP_UNKNOWN"@,
            Refusal::StaleIncarnation { current } => "ERR STALE_INCARNATION current="@ + decimal(
                current@ as nat,
            ),
            Refusal::FutureIncarnation { current } => "ERR FUTURE_INCARNATION current="@ + decimal(
                current@ as nat,
            ),
            Refusal::Incarnation { current } => "ERR INCARNATION current="@ + decimal(
                current@ as nat,
            ),
            Refusal::Tombstoned => "ERR TOMBSTONED"@,
            Refusal::Lifecycle { state } => "ERR LIFECYCLE "@ + lifecycle_text(state),
            Refusal::GroupPoisoned => "ERR GROUP_POISONED"@,
            Refusal::GroupRemoved => "ERR GROUP_REMOVED"@,
            Refusal::NotReady => "ERR NOT_READY"@,
            Refusal::ZeroQuota => "ERR ZERO_QUOTA"@,
            Refusal::Outstanding { count } => "ERR BUSY DURABLE_OUTSTANDING count="@ + decimal(
                count as nat,
            ),
            Refusal::GroupNotOpen => "ERR GROUP_NOT_OPEN"@,
        }
    }

    /// Renders the refusal.
    pub fn render(self) -> (r: String)
        ensures
            r@ == self.text(),
    {
        match self {
            Refusal::GroupUnknown => "ERR GROUP_UNKNOWN".to_owned(),
            Refusal::StaleIncarnation { current } => numbered(
                "ERR STALE_INCARNATION current=",
                current.get() as u64,
            ),
            Refusal::FutureIncarnation { current } => numbered(
                "ERR FUTURE_INCARNATION current=",
                current.get() as u64,
            ),
            Refusal::Incarnation { current } => numbered(
                "ERR INCARNATION current=",
                current.get() as u64,
            ),
            Refusal::Tombstoned => "ERR TOMBSTONED".to_owned(),
            Refusal::Lifecycle { state } => joined("ERR LIFECYCLE ", lifecycle_name(state)),
            Refusal::GroupPoisoned => "ERR GROUP_POISONED".to_owned(),
            Refusal::GroupRemoved => "ERR GROUP_REMOVED".to_owned(),
            Refusal::NotReady => "ERR NOT_READY".to_owned(),
            Refusal::ZeroQuota => "ERR ZERO_QUOTA".to_owned(),
            Refusal::Outstanding { count } => numbered(
                "ERR BUSY DURABLE_OUTSTANDING count=",
                count as u64,
            ),
            Refusal::GroupNotOpen => "ERR GROUP_NOT_OPEN".to_owned(),
        }
    }
}

// -------------------------------------------------------------------- status

/// Groups, in order and separated by commas; a dash when there is none.
pub open(crate) spec fn group_list_text(groups: Seq<GroupId>) -> Seq<char>
    decreases groups.len(),
{
    if groups.len() == 0 {
        "-"@
    } else if groups.len() == 1 {
        decimal(groups[0]@ as nat)
    } else {
        group_list_text(groups.drop_last()) + ","@ + decimal(groups.last()@ as nat)
    }
}

fn render_group_list(groups: &Vec<GroupId>) -> (r: String)
    ensures
        r@ == group_list_text(groups@),
{
    if groups.len() == 0 {
        return "-".to_owned();
    }
    let mut text = numbered("", groups[0].get() as u64);
    proof {
        reveal_strlit("");
        assert(text@ =~= decimal(groups@[0]@ as nat));
        assert(groups@.take(1) =~= seq![groups@[0]]);
    }
    let mut i: usize = 1;
    while i < groups.len()
        invariant
            1 <= i <= groups@.len(),
            text@ == group_list_text(groups@.take(i as int)),
        decreases groups@.len() - i,
    {
        let ghost more = groups@.take(i + 1);
        assert(more.drop_last() =~= groups@.take(i as int));
        text.append(",");
        append_number(&mut text, groups[i].get() as u64);
        i = i + 1;
    }
    assert(groups@.take(i as int) =~= groups@);
    text
}

/// What the status line reports.
#[derive(Clone, Debug)]
pub struct StatusReport {
    /// Every active group is ready.
    pub ready: bool,
    /// Active groups.
    pub groups: usize,
    /// Groups this node leads.
    pub leaders: usize,
    /// The groups it leads.
    pub leader_groups: Vec<GroupId>,
    /// Poisoned groups.
    pub poisoned: usize,
    /// Queued work.
    pub queued: usize,
    /// Work in flight.
    pub in_flight: usize,
    /// Workers that are occupied.
    pub workers: usize,
    /// Admitted work.
    pub admitted: u64,
    /// Admitted client operations.
    pub client_admitted: u64,
    /// Serviced work.
    pub serviced: u64,
    /// Failed work.
    pub failed: u64,
    /// Passes that ended.
    pub passes: u64,
    /// Client operations in progress.
    pub pending_proposals: usize,
    /// Admission barriers in progress.
    pub admission_reads: usize,
    /// Operations that wait for a barrier.
    pub admission_candidates: usize,
    /// Operations that joined a barrier which was already in progress.
    pub admission_successors: usize,
    /// Admission barriers started.
    pub admission_barriers: u64,
    /// Operations recorded as outstanding.
    pub durable_outstanding: usize,
    /// Recoveries that wait for a retry.
    pub recovery_deferred: usize,
    /// Recoveries that the host refused.
    pub recovery_refused: u64,
    /// Refused peer frames.
    pub refused_peer: u64,
    /// Counters of the peer link.
    pub link: LinkCounters,
}

/// The status line.
pub open(crate) spec fn status_text(report: StatusReport) -> Seq<char> {
    "OK STATUS ready="@ + flag_text(report.ready)
        + " groups="@ + decimal(report.groups as nat)
        + " leaders="@ + decimal(report.leaders as nat)
        + " leader_groups="@ + group_list_text(report.leader_groups@)
        + " poisoned="@ + decimal(report.poisoned as nat)
        + " queued="@ + decimal(report.queued as nat)
        + " in_flight="@ + decimal(report.in_flight as nat)
        + " workers="@ + decimal(report.workers as nat)
        + " admitted="@ + decimal(report.admitted as nat)
        + " client_admitted="@ + decimal(report.client_admitted as nat)
        + " serviced="@ + decimal(report.serviced as nat)
        + " failed="@ + decimal(report.failed as nat)
        + " passes="@ + decimal(report.passes as nat)
        + " pending_proposals="@ + decimal(report.pending_proposals as nat)
        + " admission_reads="@ + decimal(report.admission_reads as nat)
        + " admission_candidates="@ + decimal(report.admission_candidates as nat)
        + " admission_successors="@ + decimal(report.admission_successors as nat)
        + " admission_barriers="@ + decimal(report.admission_barriers as nat)
        + " durable_outstanding="@ + decimal(report.durable_outstanding as nat)
        + " recovery_deferred="@ + decimal(report.recovery_deferred as nat)
        + " recovery_refused="@ + decimal(report.recovery_refused as nat)
        + " refused_peer="@ + decimal(report.refused_peer as nat)
        + " link_outbound_full="@ + decimal(report.link.outbound_full as nat)
        + " link_inbound_full="@ + decimal(report.link.inbound_full as nat)
        + " link_malformed="@ + decimal(report.link.malformed as nat)
        + " link_identity_refused="@ + decimal(report.link.identity_refused as nat)
        + " link_inbound_connection_full="@ + decimal(report.link.inbound_connection_full as nat)
}

/// Renders the status line.
pub fn render_status(report: &StatusReport) -> (r: String)
    ensures
        r@ == status_text(*report),
{
    let mut text = "OK STATUS ready=".to_owned();
    append_flag(&mut text, report.ready);
    text.append(" groups=");
    append_number(&mut text, report.groups as u64);
    text.append(" leaders=");
    append_number(&mut text, report.leaders as u64);
    text.append(" leader_groups=");
    let leading = render_group_list(&report.leader_groups);
    text.append(leading.as_str());
    text.append(" poisoned=");
    append_number(&mut text, report.poisoned as u64);
    text.append(" queued=");
    append_number(&mut text, report.queued as u64);
    text.append(" in_flight=");
    append_number(&mut text, report.in_flight as u64);
    text.append(" workers=");
    append_number(&mut text, report.workers as u64);
    text.append(" admitted=");
    append_number(&mut text, report.admitted);
    text.append(" client_admitted=");
    append_number(&mut text, report.client_admitted);
    text.append(" serviced=");
    append_number(&mut text, report.serviced);
    text.append(" failed=");
    append_number(&mut text, report.failed);
    text.append(" passes=");
    append_number(&mut text, report.passes);
    text.append(" pending_proposals=");
    append_number(&mut text, report.pending_proposals as u64);
    text.append(" admission_reads=");
    append_number(&mut text, report.admission_reads as u64);
    text.append(" admission_candidates=");
    append_number(&mut text, report.admission_candidates as u64);
    text.append(" admission_successors=");
    append_number(&mut text, report.admission_successors as u64);
    text.append(" admission_barriers=");
    append_number(&mut text, report.admission_barriers);
    text.append(" durable_outstanding=");
    append_number(&mut text, report.durable_outstanding as u64);
    text.append(" recovery_deferred=");
    append_number(&mut text, report.recovery_deferred as u64);
    text.append(" recovery_refused=");
    append_number(&mut text, report.recovery_refused);
    text.append(" refused_peer=");
    append_number(&mut text, report.refused_peer);
    text.append(" link_outbound_full=");
    append_number(&mut text, report.link.outbound_full);
    text.append(" link_inbound_full=");
    append_number(&mut text, report.link.inbound_full);
    text.append(" link_malformed=");
    append_number(&mut text, report.link.malformed);
    text.append(" link_identity_refused=");
    append_number(&mut text, report.link.identity_refused);
    text.append(" link_inbound_connection_full=");
    append_number(&mut text, report.link.inbound_connection_full);
    text
}

/// What the status line says of an authenticated link, after the rest.
pub open spec fn session_status_text(link: LinkCounters) -> Seq<char> {
    " link_tls_handshakes="@ + decimal(link.tls_handshakes as nat)
        + " link_tls_failures="@ + decimal(link.tls_failures as nat)
        + " link_stale_sessions="@ + decimal(link.stale_sessions as nat)
        + " link_active_outbound="@ + decimal(link.active_outbound_connections as nat)
        + " link_active_inbound="@ + decimal(link.active_inbound_connections as nat)
}

/// Renders what the status line says of an authenticated link, after the rest.
pub fn render_session_status(link: LinkCounters) -> (r: String)
    ensures
        r@ == session_status_text(link),
{
    let mut text = numbered(" link_tls_handshakes=", link.tls_handshakes);
    text.append(" link_tls_failures=");
    append_number(&mut text, link.tls_failures);
    text.append(" link_stale_sessions=");
    append_number(&mut text, link.stale_sessions);
    text.append(" link_active_outbound=");
    append_number(&mut text, link.active_outbound_connections as u64);
    text.append(" link_active_inbound=");
    append_number(&mut text, link.active_inbound_connections as u64);
    text
}

// --------------------------------------------------------------------- audit

/// A hexadecimal digit.
pub open spec fn hex_digit(n: u64) -> Seq<char> {
    match n {
        0 => "0"@,
        1 => "1"@,
        2 => "2"@,
        3 => "3"@,
        4 => "4"@,
        5 => "5"@,
        6 => "6"@,
        7 => "7"@,
        8 => "8"@,
        9 => "9"@,
        10 => "a"@,
        11 => "b"@,
        12 => "c"@,
        13 => "d"@,
        14 => "e"@,
        _ => "f"@,
    }
}

/// The last `n` hexadecimal digits of a number.
pub open spec fn hex_text(value: u64, n: nat) -> Seq<char>
    decreases n,
{
    if n == 0 {
        Seq::empty()
    } else {
        hex_text(value / 16, (n - 1) as nat) + hex_digit(value % 16)
    }
}

fn hex_name(n: u64) -> (r: &'static str)
    ensures
        r@ == hex_digit(n),
{
    match n {
        0 => "0",
        1 => "1",
        2 => "2",
        3 => "3",
        4 => "4",
        5 => "5",
        6 => "6",
        7 => "7",
        8 => "8",
        9 => "9",
        10 => "a",
        11 => "b",
        12 => "c",
        13 => "d",
        14 => "e",
        _ => "f",
    }
}

fn append_hex(text: &mut String, value: u64, n: u64)
    ensures
        final(text)@ == old(text)@ + hex_text(value, n as nat),
    decreases n,
{
    if n > 0 {
        append_hex(text, value / 16, n - 1);
        text.append(hex_name(value % 16));
    }
    assert(text@ =~= old(text)@ + hex_text(value, n as nat));
}

/// Text of a failure of the record.
pub open(crate) spec fn store_error_text(error: StoreError) -> Seq<char> {
    match error {
        StoreError::Corrupt(corruption) => "counter application record is corrupt: "@
            + corruption.detail(),
        StoreError::Checksum { expected, actual } =>
            "counter application record checksum mismatch: expected 0x"@ + hex_text(
            expected as u64,
            8,
        ) + ", got 0x"@ + hex_text(actual as u64, 8),
        StoreError::TooLarge { bytes } => "counter application record is "@ + decimal(bytes as nat)
            + " bytes, above 131072"@,
        StoreError::OutstandingCapacity { bound } => "outstanding request capacity "@ + decimal(
            bound as nat,
        ) + " is exhausted"@,
        StoreError::ConflictingOutstanding { client_id } => "client "@ + decimal(
            client_id@ as nat,
        ) + " already has a different request outstanding"@,
        StoreError::OutstandingRemain { count } => decimal(count as nat)
            + " durable requests remain outstanding"@,
        StoreError::Counter(error) => "counter state machine failed: "@ + error.detail(),
    }
}

/// Renders a failure of the record.
pub fn render_store_error(error: StoreError) -> (r: String)
    ensures
        r@ == store_error_text(error),
{
    match error {
        StoreError::Corrupt(corruption) => joined(
            "counter application record is corrupt: ",
            corruption.message(),
        ),
        StoreError::Checksum { expected, actual } => {
            let mut text =
                "counter application record checksum mismatch: expected 0x".to_owned();
            append_hex(&mut text, expected as u64, 8);
            text.append(", got 0x");
            append_hex(&mut text, actual as u64, 8);
            text
        },
        StoreError::TooLarge { bytes } => {
            let mut text = numbered("counter application record is ", bytes as u64);
            text.append(" bytes, above 131072");
            text
        },
        StoreError::OutstandingCapacity { bound } => {
            let mut text = numbered("outstanding request capacity ", bound as u64);
            text.append(" is exhausted");
            text
        },
        StoreError::ConflictingOutstanding { client_id } => {
            let mut text = numbered("client ", client_id.get() as u64);
            text.append(" already has a different request outstanding");
            text
        },
        StoreError::OutstandingRemain { count } => {
            let mut text = numbered("", count as u64);
            proof {
                reveal_strlit("");
                assert(""@ + decimal(count as nat) =~= decimal(count as nat));
            }
            text.append(" durable requests remain outstanding");
            text
        },
        StoreError::Counter(error) => joined("counter state machine failed: ", error.message()),
    }
}

/// What a host record is called.
pub open spec fn host_record_text(kind: HostRecord) -> Seq<char> {
    match kind {
        HostRecord::Registry => "host registry"@,
        HostRecord::Retirement => "retirement intent"@,
        HostRecord::Activation => "activation intent"@,
        HostRecord::Bootstrap => "bootstrap intent"@,
    }
}

/// Returns what a host record is called.
pub fn host_record_name(kind: HostRecord) -> (r: &'static str)
    ensures
        r@ == host_record_text(kind),
{
    match kind {
        HostRecord::Registry => "host registry",
        HostRecord::Retirement => "retirement intent",
        HostRecord::Activation => "activation intent",
        HostRecord::Bootstrap => "bootstrap intent",
    }
}

/// Text of what is wrong with a host record of this kind.
pub open(crate) spec fn registry_error_text(error: RegistryError, kind: HostRecord) -> Seq<char> {
    let label = host_record_text(kind);
    match error {
        RegistryError::Truncated => label + " is truncated"@,
        RegistryError::Checksum { expected, actual } => label + " checksum mismatch: expected 0x"@
            + hex_text(expected as u64, 8) + ", got 0x"@ + hex_text(actual as u64, 8),
        RegistryError::WrongMagic => label + " has the wrong magic"@,
        RegistryError::UnsupportedVersion => label + " has an unsupported version"@,
        RegistryError::TruncatedField => "durable host record is truncated"@,
        RegistryError::ZeroIncarnation => label + " contains a zero incarnation"@,
        RegistryError::ZeroPreviousIncarnation => label + " contains a zero previous incarnation"@,
        RegistryError::ZeroNextIncarnation => label + " contains a zero next incarnation"@,
        RegistryError::UnknownLifecycle { value } => "host registry has unknown lifecycle "@
            + decimal(value as nat),
        RegistryError::ZeroQuota => label + " contains a zero quota"@,
        RegistryError::ZeroGroupCount => label + " contains a zero group count"@,
        RegistryError::NotConsecutive => label + " incarnations are not consecutive"@,
        RegistryError::DuplicateGroup { group } => "host registry contains duplicate group "@
            + decimal(group@ as nat),
        RegistryError::TrailingBytes => label + " contains trailing bytes"@,
        RegistryError::TooLarge { bytes } => "host registry is "@ + decimal(bytes as nat)
            + " bytes, above 131072"@,
        RegistryError::SlotCount { found, expected } => "host registry has "@ + decimal(
            found as nat,
        ) + " slots, expected "@ + decimal(expected as nat),
        RegistryError::MissingGroup { group } => "host registry is missing configured group "@
            + decimal(group@ as nat),
        RegistryError::NoSlot { group } => "host registry has no slot for group "@ + decimal(
            group@ as nat,
        ),
        RegistryError::Unconfigured { group } => "host registry cannot add unconfigured group "@
            + decimal(group@ as nat),
    }
}

/// Renders what is wrong with a host record of this kind.
pub fn render_registry_error(error: RegistryError, kind: HostRecord) -> (r: String)
    ensures
        r@ == registry_error_text(error, kind),
{
    let label = host_record_name(kind);
    match error {
        RegistryError::Truncated => joined(label, " is truncated"),
        RegistryError::Checksum { expected, actual } => {
            let mut text = joined(label, " checksum mismatch: expected 0x");
            append_hex(&mut text, expected as u64, 8);
            text.append(", got 0x");
            append_hex(&mut text, actual as u64, 8);
            text
        },
        RegistryError::WrongMagic => joined(label, " has the wrong magic"),
        RegistryError::UnsupportedVersion => joined(label, " has an unsupported version"),
        RegistryError::TruncatedField => "durable host record is truncated".to_owned(),
        RegistryError::ZeroIncarnation => joined(label, " contains a zero incarnation"),
        RegistryError::ZeroPreviousIncarnation => joined(
            label,
            " contains a zero previous incarnation",
        ),
        RegistryError::ZeroNextIncarnation => joined(label, " contains a zero next incarnation"),
        RegistryError::UnknownLifecycle { value } => numbered(
            "host registry has unknown lifecycle ",
            value as u64,
        ),
        RegistryError::ZeroQuota => joined(label, " contains a zero quota"),
        RegistryError::ZeroGroupCount => joined(label, " contains a zero group count"),
        RegistryError::NotConsecutive => joined(label, " incarnations are not consecutive"),
        RegistryError::DuplicateGroup { group } => numbered(
            "host registry contains duplicate group ",
            group.get() as u64,
        ),
        RegistryError::TrailingBytes => joined(label, " contains trailing bytes"),
        RegistryError::TooLarge { bytes } => {
            let mut text = numbered("host registry is ", bytes as u64);
            text.append(" bytes, above 131072");
            text
        },
        RegistryError::SlotCount { found, expected } => {
            let mut text = numbered("host registry has ", found as u64);
            text.append(" slots, expected ");
            append_number(&mut text, expected as u64);
            text
        },
        RegistryError::MissingGroup { group } => numbered(
            "host registry is missing configured group ",
            group.get() as u64,
        ),
        RegistryError::NoSlot { group } => numbered(
            "host registry has no slot for group ",
            group.get() as u64,
        ),
        RegistryError::Unconfigured { group } => numbered(
            "host registry cannot add unconfigured group ",
            group.get() as u64,
        ),
    }
}

/// What the audit line reports.
#[derive(Clone, Copy, Debug)]
pub struct AuditReport {
    /// Plans observed.
    pub plans: u64,
    /// Passes that ended.
    pub passes_completed: u64,
    /// Passes that ended as they should.
    pub certified_passes: u64,
    /// Opportunities observed.
    pub opportunities: u64,
    /// Groups that had a turn.
    pub coverage: usize,
    /// Widest difference between the turns of two of them.
    pub widest_gap: u64,
    /// Plans that the shadow contradicts.
    pub invalid_plans: u64,
    /// Events that the shadow contradicts.
    pub invalid_turns: u64,
    /// Digest of the plans.
    pub plan_digest: u64,
    /// Digest of the turns.
    pub turn_digest: u64,
    /// Admitted work.
    pub admitted: u64,
    /// Serviced work.
    pub serviced: u64,
    /// Failed work.
    pub failed: u64,
    /// Queued work.
    pub queued: usize,
    /// Work in flight.
    pub in_flight: usize,
}

impl AuditReport {
    /// Every admitted item is serviced, failed, queued or in flight.
    pub open spec fn conserved(self) -> bool {
        self.admitted == self.serviced + self.failed + self.queued + self.in_flight
    }
}

/// The audit line.
pub open spec fn audit_text(report: AuditReport) -> Seq<char> {
    "OK AUDIT plans="@ + decimal(report.plans as nat)
        + " passes_completed="@ + decimal(report.passes_completed as nat)
        + " certified_passes="@ + decimal(report.certified_passes as nat)
        + " opportunities="@ + decimal(report.opportunities as nat)
        + " coverage="@ + decimal(report.coverage as nat)
        + " widest_gap="@ + decimal(report.widest_gap as nat)
        + " invalid_plans="@ + decimal(report.invalid_plans as nat)
        + " invalid_turns="@ + decimal(report.invalid_turns as nat)
        + " plan_digest="@ + hex_text(report.plan_digest, 16)
        + " turn_digest="@ + hex_text(report.turn_digest, 16)
        + " admitted="@ + decimal(report.admitted as nat)
        + " serviced="@ + decimal(report.serviced as nat)
        + " failed="@ + decimal(report.failed as nat)
        + " queued="@ + decimal(report.queued as nat)
        + " in_flight="@ + decimal(report.in_flight as nat)
        + " conserved="@ + flag_text(report.conserved())
}

/// Renders the audit line.
pub fn render_audit(report: AuditReport) -> (r: String)
    ensures
        r@ == audit_text(report),
{
    let mut text = numbered("OK AUDIT plans=", report.plans);
    text.append(" passes_completed=");
    append_number(&mut text, report.passes_completed);
    text.append(" certified_passes=");
    append_number(&mut text, report.certified_passes);
    text.append(" opportunities=");
    append_number(&mut text, report.opportunities);
    text.append(" coverage=");
    append_number(&mut text, report.coverage as u64);
    text.append(" widest_gap=");
    append_number(&mut text, report.widest_gap);
    text.append(" invalid_plans=");
    append_number(&mut text, report.invalid_plans);
    text.append(" invalid_turns=");
    append_number(&mut text, report.invalid_turns);
    text.append(" plan_digest=");
    append_hex(&mut text, report.plan_digest, 16);
    text.append(" turn_digest=");
    append_hex(&mut text, report.turn_digest, 16);
    text.append(" admitted=");
    append_number(&mut text, report.admitted);
    text.append(" serviced=");
    append_number(&mut text, report.serviced);
    text.append(" failed=");
    append_number(&mut text, report.failed);
    text.append(" queued=");
    append_number(&mut text, report.queued as u64);
    text.append(" in_flight=");
    append_number(&mut text, report.in_flight as u64);
    let total: u128 = report.serviced as u128 + report.failed as u128 + report.queued as u128
        + report.in_flight as u128;
    text.append(" conserved=");
    append_flag(&mut text, report.admitted as u128 == total);
    text
}

} // verus!
