//! Laws of the consumer policy.

use vstd::prelude::*;

use crate::adapter::cluster::state::{
    due_dispatches, lemma_session_keys, ordered_insert, ClusterState,
};
use crate::adapter::cluster::{
    DelayedDispatch, DriverErrorKind, PendingProposal, PhysicalOutcome, PolicyAnswer,
    ProposalReceipt, ReleaseOutcome,
};
use crate::adapter::state_machine::CounterApplyResult;
use crate::types::{
    AdmissionRejection, ClientId, CounterCommand, CounterResult, GroupId, GroupIncarnation,
    LifecycleRequest, RequestIdentity, WorkClass, WorkQuota,
};

verus! {

/// An exact retry of an accepted request names the work already queued, and takes no second slot.
pub proof fn law_accepted_request_is_named(
    s: ClusterState,
    group: GroupId,
    incarnation: GroupIncarnation,
    request: RequestIdentity,
    command: CounterCommand,
    receipt: ProposalReceipt,
)
    requires
        s.counter_gate(group, incarnation, request, command) is New,
    ensures
        s.counter_accepted(group, incarnation, request, command, receipt).counter_gate(
            group,
            incarnation,
            request,
            command,
        ) == PolicyAnswer::AlreadyQueued(receipt),
{
}

/// Once an accepted request of the current incarnation has been applied, an exact retry is answered
/// from the cache.
pub proof fn law_applied_request_is_replayed(
    s: ClusterState,
    group: GroupId,
    incarnation: GroupIncarnation,
    request: RequestIdentity,
    command: CounterCommand,
    receipt: ProposalReceipt,
    result: CounterResult,
)
    requires
        s.counter_gate(group, incarnation, request, command) is New,
    ensures
        s.counter_accepted(group, incarnation, request, command, receipt).proposal_completed(
            receipt.proposal_id,
            CounterApplyResult::Counter(result),
        ).counter_gate(group, incarnation, request, command) == PolicyAnswer::Replayed(result),
{
    let t = s.counter_accepted(group, incarnation, request, command, receipt);
    let u = t.proposal_completed(receipt.proposal_id, CounterApplyResult::Counter(result));
    assert(t.pending.contains_key(receipt.proposal_id));
    assert(t.slot(group) == s.slot(group));
    assert(u.slot(group) == s.slot(group));
}

/// The failure of an accepted request's work is on record and frees its session, so the same
/// request is new work again.
pub proof fn law_failed_request_is_new_again(
    s: ClusterState,
    group: GroupId,
    incarnation: GroupIncarnation,
    request: RequestIdentity,
    command: CounterCommand,
    receipt: ProposalReceipt,
    kind: DriverErrorKind,
)
    requires
        s.counter_gate(group, incarnation, request, command) is New,
    ensures
        ({
            let t = s.counter_accepted(group, incarnation, request, command, receipt).work_failed(
                receipt.admission.work_id,
                group,
                kind,
            );
            &&& t.counter_gate(group, incarnation, request, command) is New
            &&& t.failures.contains_key(receipt.proposal_id)
            &&& t.failures[receipt.proposal_id].kind == kind
            &&& t.failures[receipt.proposal_id].incarnation == incarnation
            &&& !t.pending.contains_key(receipt.proposal_id)
        }),
{
    let a = s.counter_accepted(group, incarnation, request, command, receipt);
    assert(a.work.contains_key(receipt.admission.work_id));
    assert(a.work[receipt.admission.work_id] == receipt.proposal_id);
    assert(a.pending.contains_key(receipt.proposal_id));
    assert(a.slot(group) == s.slot(group));
}

/// A result that belongs to another incarnation changes no slot and no session.
pub proof fn law_late_result_changes_no_session(
    s: ClusterState,
    id: u64,
    result: CounterApplyResult,
)
    requires
        s.pending.contains_key(id),
        s.slot(s.pending[id].group()) is Some,
        s.slot(s.pending[id].group())->0.incarnation != s.pending[id].generation(),
    ensures
        s.proposal_completed(id, result).slots == s.slots,
        s.proposal_completed(id, result).sessions == s.sessions,
        !s.proposal_completed(id, result).pending.contains_key(id),
{
}

/// An observed result is on record and settles its proposal.
pub proof fn law_observed_result_settles_the_proposal(
    s: ClusterState,
    id: u64,
    result: CounterApplyResult,
)
    ensures
        s.observed(id, result).completed.contains_key(id),
        s.observed(id, result).completed[id] == result,
        !s.observed(id, result).pending.contains_key(id),
{
}

/// A result touches only the group its proposal was accepted for.
pub proof fn law_groups_are_isolated(
    s: ClusterState,
    id: u64,
    result: CounterApplyResult,
    other: GroupId,
    client: ClientId,
)
    requires
        s.pending.contains_key(id),
        s.pending[id].group() != other,
    ensures
        s.proposal_completed(id, result).slot(other) == s.slot(other),
        s.proposal_completed(id, result).session(other, client) == s.session(other, client),
{
    let proposal = s.pending[id];
    let named = match proposal {
        PendingProposal::OpenSession { client_id, .. } => client_id,
        PendingProposal::Counter { request, .. } => request.client_id,
        PendingProposal::Fault { .. } => client,
    };
    lemma_session_keys(proposal.group(), named, other, client);
    assert(proposal.group()@ != other@);
}

/// A slot that was removed and created again refuses traffic of the incarnation before, and takes
/// traffic of the new one.
pub proof fn law_reopened_slot_refuses_late_traffic(
    s: ClusterState,
    group: GroupId,
    quota: WorkQuota,
    class: WorkClass,
)
    requires
        s.slot(group) is Some,
        s.slot(group)->0.lifecycle is Draining,
        s.slot(group)->0.incarnation@ < u32::MAX,
    ensures
        ({
            let removed = s.lifecycle(
                group,
                LifecycleRequest::Remove,
                PhysicalOutcome::Release(ReleaseOutcome::Released),
            );
            let reopened = removed.lifecycle(
                group,
                LifecycleRequest::Create { quota },
                PhysicalOutcome::Opened,
            );
            let before = s.slot(group)->0.incarnation;
            let after = reopened.slot(group)->0.incarnation;
            &&& after@ == before@ + 1
            &&& reopened.admit_group(group, before, class) == Some(
                AdmissionRejection::StaleIncarnation { current: after },
            )
            &&& reopened.admit_group(group, after, class) is None
        }),
{
    let removed = s.lifecycle(
        group,
        LifecycleRequest::Remove,
        PhysicalOutcome::Release(ReleaseOutcome::Released),
    );
    assert(removed.slot(group)->0.lifecycle is Removed);
    assert(removed.slot(group)->0.incarnation == s.slot(group)->0.incarnation);
}

/// Removal leaves no session of the group behind, and every other group's sessions alone.
pub proof fn law_removal_clears_sessions(
    s: ClusterState,
    group: GroupId,
    client: ClientId,
    other: GroupId,
)
    requires
        s.slot(group) is Some,
        s.slot(group)->0.lifecycle is Draining,
        other != group,
    ensures
        ({
            let removed = s.lifecycle(
                group,
                LifecycleRequest::Remove,
                PhysicalOutcome::Release(ReleaseOutcome::Released),
            );
            &&& removed.session(group, client) is None
            &&& removed.session(other, client) == s.session(other, client)
            &&& removed.slot(other) == s.slot(other)
        }),
{
    lemma_session_keys(group, client, other, client);
    assert(group@ != other@);
}

/// A tombstone is permanent: no request changes the slot, whatever the host would do.
pub proof fn law_tombstone_is_permanent(
    s: ClusterState,
    group: GroupId,
    request: LifecycleRequest,
    physical: PhysicalOutcome,
)
    requires
        s.slot(group) is Some,
        s.slot(group)->0.lifecycle is Tombstoned,
    ensures
        s.lifecycle(group, request, physical) == s,
        s.lifecycle_step(group, request) is Answer,
{
}

/// A draining group takes protocol traffic exactly while it owes accepted work its outcome.
pub proof fn law_draining_group_continues_while_owing(
    s: ClusterState,
    group: GroupId,
    incarnation: GroupIncarnation,
)
    requires
        s.slot(group) is Some,
        s.slot(group)->0.lifecycle is Draining,
        s.slot(group)->0.incarnation == incarnation,
        !s.slot(group)->0.poisoned,
    ensures
        s.gate_protocol_continuation(group, incarnation) is None <==> s.work_remains(group),
{
}

/// Proposal identities are never reused until they are used up.
pub proof fn law_identities_rise(s: ClusterState)
    requires
        0 < s.next_proposal < u64::MAX,
    ensures
        s.identity_taken().next_proposal == s.next_proposal + 1,
{
}

/// Dispatches whose delay ended come out in ascending identity order.
pub proof fn law_due_dispatches_are_ordered(delayed: Seq<DelayedDispatch>)
    ensures
        forall|i: int, j: int|
            0 <= i < j < due_dispatches(delayed).len() ==> due_dispatches(delayed)[i]
                <= due_dispatches(delayed)[j],
    decreases delayed.len(),
{
    if delayed.len() > 0 {
        law_due_dispatches_are_ordered(delayed.drop_last());
        lemma_ordered_insert(due_dispatches(delayed.drop_last()), delayed.last().dispatch_id);
    }
}

/// Inserting in order keeps the order.
proof fn lemma_ordered_insert(ids: Seq<u64>, id: u64)
    requires
        forall|i: int, j: int| 0 <= i < j < ids.len() ==> ids[i] <= ids[j],
    ensures
        forall|i: int, j: int|
            0 <= i < j < ordered_insert(ids, id).len() ==> ordered_insert(ids, id)[i]
                <= ordered_insert(ids, id)[j],
        forall|i: int|
            0 <= i < ordered_insert(ids, id).len() ==> #[trigger] ordered_insert(ids, id)[i] == id
                || ids.contains(ordered_insert(ids, id)[i]),
    decreases ids.len(),
{
    let after = ordered_insert(ids, id);
    if ids.len() == 0 || ids.last() <= id {
        assert forall|i: int| 0 <= i < after.len() implies #[trigger] after[i] == id
            || ids.contains(after[i]) by {
            if i < ids.len() {
                assert(ids[i] == after[i]);
            }
        }
    } else {
        let rest = ids.drop_last();
        lemma_ordered_insert(rest, id);
        let inner = ordered_insert(rest, id);
        assert forall|i: int| 0 <= i < after.len() implies #[trigger] after[i] == id
            || ids.contains(after[i]) by {
            if i < inner.len() {
                assert(after[i] == inner[i]);
                if inner[i] != id {
                    let k = rest.index_of(inner[i]);
                    assert(ids[k] == inner[i]);
                }
            } else {
                assert(ids[ids.len() - 1] == after[i]);
            }
        }
        assert forall|i: int, j: int| 0 <= i < j < after.len() implies after[i] <= after[j] by {
            if j < inner.len() {
                assert(inner[i] <= inner[j]);
            } else {
                assert(after[i] == inner[i]);
                if inner[i] != id {
                    let k = rest.index_of(inner[i]);
                    assert(ids[k] <= ids[ids.len() - 1]);
                }
            }
        }
    }
}

} // verus!
