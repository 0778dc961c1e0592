//! What clients are told.

use vstd::prelude::*;

use crate::adapter::state_machine::{CounterApplyRejection, CounterApplyResult, SessionApplyResult};
use crate::node::engine::{DetailedFailure, JobAnswer};
use crate::node::record::TerminalFailure;
use crate::node::render::{
    hex_text, lifecycle_name, render_apply_rejection, render_apply_result, render_counter_result,
    render_terminal_failure, Refusal,
};
use crate::text::{decimal, signed_decimal};
use crate::types::{CounterRejection, CounterResult, GroupLifecycle};

verus! {

/// The text is the label, and behind it the number.
pub open spec fn labelled(text: Seq<char>, label: Seq<char>, n: int) -> bool {
    &&& text.len() >= label.len()
    &&& text.take(label.len() as int) == label
    &&& text.skip(label.len() as int) == signed_decimal(n)
}

proof fn lemma_labelled(text: Seq<char>, label: Seq<char>, n: int)
    requires
        text == label + signed_decimal(n),
    ensures
        labelled(text, label, n),
{
    assert(text.take(label.len() as int) =~= label);
    assert(text.skip(label.len() as int) =~= signed_decimal(n));
}

/// A counter result tells the value that it carries, with its sign.
pub proof fn law_results_tell_their_value(result: CounterResult, r: String)
    requires
        call_ensures(render_counter_result, (result,), r),
    ensures
        result matches CounterResult::Added { value } ==> labelled(
            r@,
            "ADDED value="@,
            value as int,
        ),
        result matches CounterResult::Value { value } ==> labelled(
            r@,
            "VALUE value="@,
            value as int,
        ),
        result matches CounterResult::Rejected(CounterRejection::CounterOverflow { current })
            ==> labelled(r@, "REJECTED overflow current="@, current as int),
{
    match result {
        CounterResult::Added { value } => lemma_labelled(r@, "ADDED value="@, value as int),
        CounterResult::Value { value } => lemma_labelled(r@, "VALUE value="@, value as int),
        CounterResult::Rejected(CounterRejection::CounterOverflow { current }) => lemma_labelled(
            r@,
            "REJECTED overflow current="@,
            current as int,
        ),
    }
}

/// A refused request tells what stands in its way, and the number that the client needs to go on.
pub proof fn law_rejections_tell_what_is_needed(rejection: CounterApplyRejection, r: String)
    requires
        call_ensures(render_apply_rejection, (rejection,), r),
    ensures
        rejection == CounterApplyRejection::ClientOutOfRange ==> r@ == "ERR CLIENT_OUT_OF_RANGE"@,
        rejection == CounterApplyRejection::SessionNotOpen ==> r@ == "ERR SESSION_NOT_OPEN"@,
        rejection == CounterApplyRejection::FingerprintMismatch ==> r@
            == "ERR FINGERPRINT_MISMATCH"@,
        rejection == CounterApplyRejection::ConflictingRetry ==> r@ == "ERR CONFLICTING_RETRY"@,
        rejection matches CounterApplyRejection::StaleSession { current } ==> labelled(
            r@,
            "ERR STALE_SESSION current="@,
            current@ as int,
        ),
        rejection matches CounterApplyRejection::FutureSession { current } ==> labelled(
            r@,
            "ERR FUTURE_SESSION current="@,
            current@ as int,
        ),
        rejection matches CounterApplyRejection::StaleSequence { highest } ==> labelled(
            r@,
            "ERR STALE_SEQUENCE highest="@,
            highest@ as int,
        ),
        rejection matches CounterApplyRejection::SequenceGap { expected } ==> labelled(
            r@,
            "ERR SEQUENCE_GAP expected="@,
            expected@ as int,
        ),
{
    match rejection {
        CounterApplyRejection::StaleSession { current } => lemma_labelled(
            r@,
            "ERR STALE_SESSION current="@,
            current@ as int,
        ),
        CounterApplyRejection::FutureSession { current } => lemma_labelled(
            r@,
            "ERR FUTURE_SESSION current="@,
            current@ as int,
        ),
        CounterApplyRejection::StaleSequence { highest } => lemma_labelled(
            r@,
            "ERR STALE_SEQUENCE highest="@,
            highest@ as int,
        ),
        CounterApplyRejection::SequenceGap { expected } => lemma_labelled(
            r@,
            "ERR SEQUENCE_GAP expected="@,
            expected@ as int,
        ),
        _ => {},
    }
}

/// What was applied is told as what it did: a session as opened, open already or replaced, a counter
/// result behind its confirmation, and a refusal as a refusal.
pub proof fn law_applied_entries_tell_what_they_did(
    result: CounterApplyResult,
    r: String,
    inner: CounterResult,
    told: String,
    rejection: CounterApplyRejection,
    refused: String,
)
    requires
        call_ensures(render_apply_result, (result,), r),
        call_ensures(render_counter_result, (inner,), told),
        call_ensures(render_apply_rejection, (rejection,), refused),
    ensures
        result == CounterApplyResult::Session(SessionApplyResult::Opened) ==> r@
            == "OK SESSION opened"@,
        result == CounterApplyResult::Session(SessionApplyResult::AlreadyOpen) ==> r@
            == "OK SESSION already_open"@,
        result == CounterApplyResult::Session(SessionApplyResult::Replaced) ==> r@
            == "OK SESSION replaced"@,
        result == CounterApplyResult::Counter(inner) ==> r@ == "OK "@ + told@,
        result == CounterApplyResult::Rejected(rejection) ==> r@ == refused@,
{
}

/// A refusal that depends on a number tells it.
pub proof fn law_refusals_tell_why(refusal: Refusal, r: String, name: &str)
    requires
        call_ensures(Refusal::render, (refusal,), r),
        refusal matches Refusal::Lifecycle { state } ==> call_ensures(lifecycle_name, (state,), name),
    ensures
        refusal == Refusal::GroupUnknown ==> r@ == "ERR GROUP_UNKNOWN"@,
        refusal == Refusal::Tombstoned ==> r@ == "ERR TOMBSTONED"@,
        refusal == Refusal::GroupPoisoned ==> r@ == "ERR GROUP_POISONED"@,
        refusal == Refusal::GroupRemoved ==> r@ == "ERR GROUP_REMOVED"@,
        refusal == Refusal::NotReady ==> r@ == "ERR NOT_READY"@,
        refusal == Refusal::ZeroQuota ==> r@ == "ERR ZERO_QUOTA"@,
        refusal == Refusal::GroupNotOpen ==> r@ == "ERR GROUP_NOT_OPEN"@,
        refusal is Lifecycle ==> r@ == "ERR LIFECYCLE "@ + name@,
        refusal matches Refusal::StaleIncarnation { current } ==> labelled(
            r@,
            "ERR STALE_INCARNATION current="@,
            current@ as int,
        ),
        refusal matches Refusal::FutureIncarnation { current } ==> labelled(
            r@,
            "ERR FUTURE_INCARNATION current="@,
            current@ as int,
        ),
        refusal matches Refusal::Incarnation { current } ==> labelled(
            r@,
            "ERR INCARNATION current="@,
            current@ as int,
        ),
        refusal matches Refusal::Outstanding { count } ==> labelled(
            r@,
            "ERR BUSY DURABLE_OUTSTANDING count="@,
            count as int,
        ),
{
    match refusal {
        Refusal::StaleIncarnation { current } => lemma_labelled(
            r@,
            "ERR STALE_INCARNATION current="@,
            current@ as int,
        ),
        Refusal::FutureIncarnation { current } => lemma_labelled(
            r@,
            "ERR FUTURE_INCARNATION current="@,
            current@ as int,
        ),
        Refusal::Incarnation { current } => lemma_labelled(
            r@,
            "ERR INCARNATION current="@,
            current@ as int,
        ),
        Refusal::Outstanding { count } => lemma_labelled(
            r@,
            "ERR BUSY DURABLE_OUTSTANDING count="@,
            count as int,
        ),
        _ => {},
    }
}

/// Each state has its own name, and each terminal failure says whether the operation was committed.
pub proof fn law_states_and_failures_have_names(
    state: GroupLifecycle,
    name: &str,
    failure: TerminalFailure,
    told: &str,
)
    requires
        call_ensures(lifecycle_name, (state,), name),
        call_ensures(render_terminal_failure, (failure,), told),
    ensures
        state == GroupLifecycle::Creating ==> name@ == "Creating"@,
        state == GroupLifecycle::Recovering ==> name@ == "Recovering"@,
        state == GroupLifecycle::Serving ==> name@ == "Serving"@,
        state == GroupLifecycle::Draining ==> name@ == "Draining"@,
        state == GroupLifecycle::Removed ==> name@ == "Removed"@,
        state == GroupLifecycle::Tombstoned ==> name@ == "Tombstoned"@,
        failure == TerminalFailure::GroupPoisoned ==> told@ == "ERR NOT_COMMITTED GROUP_POISONED"@,
        failure == TerminalFailure::GroupPoisonedUnknown ==> told@ == "ERR UNKNOWN GROUP_POISONED"@,
        failure == TerminalFailure::ProcessRestarted ==> told@
            == "ERR NOT_COMMITTED PROCESS_RESTARTED"@,
{
}

/// An administrative answer confirms what was done, on what it was done.
pub proof fn law_answers_confirm_what_was_done(answer: JobAnswer, r: String)
    requires
        call_ensures(JobAnswer::render, (answer,), r),
    ensures
        answer == JobAnswer::PeersPaused ==> r@ == "OK PEERS paused"@,
        answer == JobAnswer::PeersResumed ==> r@ == "OK PEERS resumed"@,
        answer == JobAnswer::RecoveryPaused ==> r@ == "OK RECOVERY paused"@,
        answer == JobAnswer::RecoveryResumed ==> r@ == "OK RECOVERY resumed"@,
        answer matches JobAnswer::PressureLimit { limit } ==> labelled(
            r@,
            "ERR PRESSURE_LIMIT "@,
            limit as int,
        ),
        answer == JobAnswer::SlowLimit ==> labelled(r@, "ERR SLOW_LIMIT "@, 30_000),
        answer matches JobAnswer::Shutdown { node_id } ==> labelled(
            r@,
            "OK SHUTDOWN "@,
            node_id as int,
        ),
        answer matches JobAnswer::Transferred { target } ==> labelled(
            r@,
            "OK TRANSFER target="@,
            target as int,
        ),
        answer matches JobAnswer::Drained { group_id } ==> labelled(
            r@,
            "OK DRAIN group="@,
            group_id@ as int,
        ),
        answer matches JobAnswer::Removed { group_id } ==> labelled(
            r@,
            "OK REMOVE group="@,
            group_id@ as int,
        ),
        answer matches JobAnswer::Tombstoned { group_id } ==> labelled(
            r@,
            "OK TOMBSTONE group="@,
            group_id@ as int,
        ),
        answer matches JobAnswer::Snapshotted { applied } ==> labelled(
            r@,
            "OK SNAPSHOT applied="@,
            applied as int,
        ),
        answer matches JobAnswer::Value { group_id, incarnation, value, applied } ==> labelled(
            r@,
            "OK VALUE group="@ + decimal(group_id@ as nat) + " incarnation="@ + decimal(
                incarnation@ as nat,
            ) + " value="@ + signed_decimal(value as int) + " applied="@,
            applied as int,
        ),
        answer matches JobAnswer::Reopened { group_id, incarnation } ==> labelled(
            r@,
            "OK REOPEN group="@ + decimal(group_id@ as nat) + " incarnation="@,
            incarnation@ as int,
        ),
        answer matches JobAnswer::Pressured { accepted, refused } ==> labelled(
            r@,
            "OK PRESSURE accepted="@ + decimal(accepted as nat) + " refused="@,
            refused as int,
        ),
        answer matches JobAnswer::Slow { group_id, milliseconds } ==> labelled(
            r@,
            "OK SLOW group="@ + decimal(group_id@ as nat) + " milliseconds="@,
            milliseconds as int,
        ),
{
    match answer {
        JobAnswer::PressureLimit { limit } => lemma_labelled(
            r@,
            "ERR PRESSURE_LIMIT "@,
            limit as int,
        ),
        JobAnswer::SlowLimit => lemma_labelled(r@, "ERR SLOW_LIMIT "@, 30_000),
        JobAnswer::Shutdown { node_id } => lemma_labelled(r@, "OK SHUTDOWN "@, node_id as int),
        JobAnswer::Transferred { target } => lemma_labelled(
            r@,
            "OK TRANSFER target="@,
            target as int,
        ),
        JobAnswer::Drained { group_id } => lemma_labelled(
            r@,
            "OK DRAIN group="@,
            group_id@ as int,
        ),
        JobAnswer::Removed { group_id } => lemma_labelled(
            r@,
            "OK REMOVE group="@,
            group_id@ as int,
        ),
        JobAnswer::Tombstoned { group_id } => lemma_labelled(
            r@,
            "OK TOMBSTONE group="@,
            group_id@ as int,
        ),
        JobAnswer::Snapshotted { applied } => lemma_labelled(
            r@,
            "OK SNAPSHOT applied="@,
            applied as int,
        ),
        JobAnswer::Value { group_id, incarnation, value, applied } => lemma_labelled(
            r@,
            "OK VALUE group="@ + decimal(group_id@ as nat) + " incarnation="@ + decimal(
                incarnation@ as nat,
            ) + " value="@ + signed_decimal(value as int) + " applied="@,
            applied as int,
        ),
        JobAnswer::Reopened { group_id, incarnation } => lemma_labelled(
            r@,
            "OK REOPEN group="@ + decimal(group_id@ as nat) + " incarnation="@,
            incarnation@ as int,
        ),
        JobAnswer::Pressured { accepted, refused } => lemma_labelled(
            r@,
            "OK PRESSURE accepted="@ + decimal(accepted as nat) + " refused="@,
            refused as int,
        ),
        JobAnswer::Slow { group_id, milliseconds } => lemma_labelled(
            r@,
            "OK SLOW group="@ + decimal(group_id@ as nat) + " milliseconds="@,
            milliseconds as int,
        ),
        _ => {},
    }
}

/// A failure with a detail tells it behind its own label.
pub proof fn law_failures_tell_their_detail(failure: DetailedFailure, detail: &str, r: String)
    requires
        call_ensures(DetailedFailure::render, (failure, detail), r),
    ensures
        failure == DetailedFailure::Transfer ==> r@ == "ERR TRANSFER "@ + detail@,
        failure == DetailedFailure::Backpressure ==> r@ == "ERR BACKPRESSURE "@ + detail@,
        failure == DetailedFailure::Snapshot ==> r@ == "ERR SNAPSHOT "@ + detail@,
        failure == DetailedFailure::Busy ==> r@ == "ERR BUSY "@ + detail@,
        failure == DetailedFailure::Reservation ==> r@ == "ERR ADMISSION "@ + detail@,
{
}

/// A number in sixteens is written digit by digit, the last for its remainder, with as many digits as
/// are asked for.
pub proof fn law_hex_is_positional(value: u64, n: nat)
    ensures
        hex_text(value, n).len() == n,
        n > 0 ==> hex_text(value, n).drop_last() == hex_text(value / 16, (n - 1) as nat),
        n > 0 && value % 16 < 10 ==> hex_text(value, n).last() as int == 48 + value % 16,
        n > 0 && value % 16 >= 10 ==> hex_text(value, n).last() as int == 87 + value % 16,
    decreases n,
{
    reveal_strlit("0");
    reveal_strlit("1");
    reveal_strlit("2");
    reveal_strlit("3");
    reveal_strlit("4");
    reveal_strlit("5");
    reveal_strlit("6");
    reveal_strlit("7");
    reveal_strlit("8");
    reveal_strlit("9");
    reveal_strlit("a");
    reveal_strlit("b");
    reveal_strlit("c");
    reveal_strlit("d");
    reveal_strlit("e");
    reveal_strlit("f");
    if n > 0 {
        law_hex_is_positional(value / 16, (n - 1) as nat);
        let digit = crate::node::render::hex_digit(value % 16);
        assert(digit.len() == 1);
        assert(hex_text(value, n).drop_last() =~= hex_text(value / 16, (n - 1) as nat));
        assert(hex_text(value, n).last() == digit[0]);
    }
}

} // verus!
