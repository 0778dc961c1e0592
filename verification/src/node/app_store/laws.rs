//! What the record keeps of each request, and for how long.

use vstd::prelude::*;

use crate::adapter::state_machine::{ApplicationSnapshot, ApplyEntry, ReplicatedCounterCommand};
use crate::node::app_store::{
    next_chunk, recorded_work, released, same_application, ApplicationRecord,
    DurableCounterStateMachine, PolicyView, ReserveOutcome, StagedBatch,
};
use crate::node::engine::desk::state::{AcceptedOperation, DurableOperationState, OutstandingWork};
use crate::node::record::{
    Corruption, OutstandingPhase, OutstandingRequest, StoreError, StoredRecord, TerminalFailure,
    TerminalRequest,
};
use crate::types::{CounterCommand, GroupId, GroupLifecycle, RequestIdentity, WorkQuota};

verus! {

/// The group itself is the same: only what is recorded of its requests may differ.
pub open spec fn same_group(a: PolicyView, b: PolicyView) -> bool {
    &&& a.incarnation == b.incarnation
    &&& a.lifecycle == b.lifecycle
    &&& a.poisoned == b.poisoned
    &&& a.quota == b.quota
}

/// What is recorded of every client but one is the same.
pub open spec fn same_elsewhere(a: PolicyView, b: PolicyView, key: u64) -> bool {
    forall|other: u64|
        other != key ==> #[trigger] a.outstanding.contains_key(other)
            == b.outstanding.contains_key(other) && a.outstanding[other] == b.outstanding[other]
            && #[trigger] a.terminal.contains_key(other) == b.terminal.contains_key(other)
            && a.terminal[other] == b.terminal[other]
}

/// The request and the command are those that were accepted.
pub open spec fn is_accepted(
    item: OutstandingRequest,
    request: RequestIdentity,
    command: CounterCommand,
) -> bool {
    item.request == request && item.command == command
}

/// A counter request is recognised in the record by its identity and its command together: refused
/// for good with the failure that was recorded, or outstanding in the phase that was recorded. Any
/// other operation of its client is in conflict, and a client without a row has nothing on record.
pub proof fn law_operations_are_looked_up(
    record: ApplicationRecord,
    operation: AcceptedOperation,
    r: DurableOperationState,
)
    requires
        call_ensures(ApplicationRecord::durable_operation_state, (&record, operation), r),
    ensures
        ({
            let rules = record.image().rules();
            let key = match operation {
                AcceptedOperation::Counter { request, .. } => request.client_id@ as u64,
                AcceptedOperation::OpenSession { client_id, .. } => client_id@ as u64,
            };
            let refused = rules.terminal[key];
            let accepted = rules.outstanding[key];
            &&& rules.terminal.contains_key(key) && operation == (AcceptedOperation::Counter {
                request: refused.request,
                command: refused.command,
            }) ==> r == (DurableOperationState::ExactTerminal { failure: refused.failure })
            &&& rules.terminal.contains_key(key) && operation != (AcceptedOperation::Counter {
                request: refused.request,
                command: refused.command,
            }) ==> r == DurableOperationState::ConflictingTerminal
            &&& !rules.terminal.contains_key(key) && rules.outstanding.contains_key(key) && operation
                == (AcceptedOperation::Counter {
                request: accepted.request,
                command: accepted.command,
            }) ==> r == (DurableOperationState::ExactOutstanding { phase: accepted.phase })
            &&& !rules.terminal.contains_key(key) && rules.outstanding.contains_key(key) && operation
                != (AcceptedOperation::Counter {
                request: accepted.request,
                command: accepted.command,
            }) ==> r == DurableOperationState::ConflictingOutstanding
            &&& r == DurableOperationState::Absent <==> !rules.terminal.contains_key(key)
                && !rules.outstanding.contains_key(key)
        }),
{
}

/// A new request is recorded as queued under its client, next to everything that was there. The same
/// request again stages nothing; another one of a client with a row is refused, and so is any once the
/// record is full.
pub proof fn law_requests_are_reserved(
    record: ApplicationRecord,
    request: RequestIdentity,
    command: CounterCommand,
    r: Result<(ReserveOutcome, Option<StoredRecord>), StoreError>,
)
    requires
        call_ensures(ApplicationRecord::reserve, (&record, request, command), r),
    ensures
        ({
            let rules = record.image().rules();
            let key = request.client_id@ as u64;
            let known = rules.outstanding.contains_key(key);
            let same = known && is_accepted(rules.outstanding[key], request, command);
            let conflict = known && !same || !known && rules.terminal.contains_key(key);
            let full = !known && !conflict && record.held() >= record.bound();
            &&& same <==> r is Ok && r->Ok_0.0 == ReserveOutcome::ExactRetry
            &&& same ==> r->Ok_0.1 is None
            &&& conflict <==> r is Err && r->Err_0 == (StoreError::ConflictingOutstanding {
                client_id: request.client_id,
            })
            &&& full ==> r is Err && r->Err_0 == (StoreError::OutstandingCapacity {
                bound: record.bound() as usize,
            })
            &&& !same && !conflict && !full <==> r is Ok && r->Ok_0.0 == ReserveOutcome::Reserved
            &&& r is Ok && r->Ok_0.0 == ReserveOutcome::Reserved ==> {
                &&& r->Ok_0.1 is Some
                &&& {
                    let after = r->Ok_0.1->0.rules();
                    &&& after.outstanding.contains_key(key)
                    &&& after.outstanding[key].request == request
                    &&& after.outstanding[key].command == command
                    &&& after.outstanding[key].phase == OutstandingPhase::Queued
                    &&& same_elsewhere(after, rules, key)
                    &&& same_group(after, rules)
                    &&& same_application(r->Ok_0.1->0, record.image())
                }
            }
        }),
{
}

/// A queued request that enters the driver is recorded as that, and stays so. A request that is not on
/// record, or has entered before, stages nothing; another request of the client is a conflict.
pub proof fn law_reserved_requests_enter_the_driver(
    record: ApplicationRecord,
    request: RequestIdentity,
    command: CounterCommand,
    r: Result<Option<StoredRecord>, StoreError>,
)
    requires
        call_ensures(ApplicationRecord::mark_entered_driver, (&record, request, command), r),
    ensures
        ({
            let rules = record.image().rules();
            let key = request.client_id@ as u64;
            let known = rules.outstanding.contains_key(key);
            let item = rules.outstanding[key];
            let same = known && is_accepted(item, request, command);
            &&& known && !same <==> r is Err
            &&& r is Err ==> r->Err_0 == (StoreError::ConflictingOutstanding {
                client_id: request.client_id,
            })
            &&& same && item.phase == OutstandingPhase::Queued <==> r is Ok && r->Ok_0 is Some
            &&& r is Ok && r->Ok_0 is Some ==> {
                let after = r->Ok_0->0.rules();
                &&& after.outstanding.contains_key(key)
                &&& is_accepted(after.outstanding[key], request, command)
                &&& after.outstanding[key].phase == OutstandingPhase::EnteredDriver
                &&& same_elsewhere(after, rules, key)
                &&& same_group(after, rules)
                &&& same_application(r->Ok_0->0, record.image())
            }
        }),
{
}

/// An outstanding request that fails is outstanding no more, and refused for good with that failure.
/// The same failure again stages nothing, and neither does a request that is not on record; any other
/// request or failure of a client with a row is a conflict.
pub proof fn law_failed_requests_are_refused_for_good(
    record: ApplicationRecord,
    request: RequestIdentity,
    command: CounterCommand,
    failure: TerminalFailure,
    r: Result<Option<StoredRecord>, StoreError>,
)
    requires
        call_ensures(ApplicationRecord::fail_reservation, (&record, request, command, failure), r),
    ensures
        ({
            let rules = record.image().rules();
            let key = request.client_id@ as u64;
            let ended = rules.terminal.contains_key(key);
            let again = ended && rules.terminal[key].request == request
                && rules.terminal[key].command == command && rules.terminal[key].failure == failure;
            let known = rules.outstanding.contains_key(key);
            let same = known && is_accepted(rules.outstanding[key], request, command);
            &&& r is Err <==> ended && !again || !ended && known && !same
            &&& r is Err ==> r->Err_0 == (StoreError::ConflictingOutstanding {
                client_id: request.client_id,
            })
            &&& r is Ok && r->Ok_0 is Some <==> !ended && same
            &&& r is Ok && r->Ok_0 is Some ==> {
                let after = r->Ok_0->0.rules();
                &&& !after.outstanding.contains_key(key)
                &&& after.terminal.contains_key(key)
                &&& after.terminal[key].request == request
                &&& after.terminal[key].command == command
                &&& after.terminal[key].failure == failure
                &&& same_elsewhere(after, rules, key)
                &&& same_group(after, rules)
                &&& same_application(r->Ok_0->0, record.image())
            }
        }),
{
}

/// A recorded refusal is given back to the request that it was recorded for, and to no other.
pub proof fn law_refusals_are_given_back(
    record: ApplicationRecord,
    request: RequestIdentity,
    command: CounterCommand,
    r: Result<Option<TerminalFailure>, StoreError>,
)
    requires
        call_ensures(ApplicationRecord::replay_terminal_failure, (&record, request, command), r),
    ensures
        ({
            let rules = record.image().rules();
            let key = request.client_id@ as u64;
            let ended = rules.terminal.contains_key(key);
            let found = rules.terminal[key];
            &&& !ended <==> r is Ok && r->Ok_0 is None
            &&& ended && found.request == request && found.command == command <==> r is Ok && r->Ok_0
                is Some
            &&& r is Ok && r->Ok_0 is Some ==> r->Ok_0->0 == found.failure
            &&& r is Err ==> r->Err_0 == (StoreError::ConflictingOutstanding {
                client_id: request.client_id,
            })
        }),
{
}

/// Cancelling takes back the reservation of exactly this request, and of no other.
pub proof fn law_cancelled_requests_are_forgotten(
    record: ApplicationRecord,
    request: RequestIdentity,
    command: CounterCommand,
    r: Option<StoredRecord>,
)
    requires
        call_ensures(ApplicationRecord::cancel_reservation, (&record, request, command), r),
    ensures
        ({
            let rules = record.image().rules();
            let key = request.client_id@ as u64;
            &&& r is Some <==> rules.outstanding.contains_key(key) && is_accepted(
                rules.outstanding[key],
                request,
                command,
            )
            &&& r is Some ==> {
                let after = r->0.rules();
                &&& !after.outstanding.contains_key(key)
                &&& after.terminal == rules.terminal
                &&& same_elsewhere(after, rules, key)
                &&& same_group(after, rules)
                &&& same_application(r->0, record.image())
            }
        }),
{
}

/// Draining and poisoning change the group's own state, and keep every request. A poisoned group stays
/// poisoned.
pub proof fn law_draining_and_poison_keep_the_requests(
    record: ApplicationRecord,
    poisoned: bool,
    drained: StoredRecord,
    marked: Option<StoredRecord>,
)
    requires
        call_ensures(ApplicationRecord::begin_draining, (&record, poisoned), drained),
        call_ensures(ApplicationRecord::mark_poisoned, (&record,), marked),
    ensures
        ({
            let rules = record.image().rules();
            let after = drained.rules();
            &&& after.lifecycle == GroupLifecycle::Draining
            &&& after.poisoned == (rules.poisoned || poisoned)
            &&& after.outstanding == rules.outstanding
            &&& after.terminal == rules.terminal
            &&& after.incarnation == rules.incarnation
            &&& after.quota == rules.quota
            &&& same_application(drained, record.image())
            &&& marked is None <==> rules.poisoned
            &&& marked is Some ==> {
                let poison = marked->0.rules();
                &&& poison.poisoned
                &&& poison.lifecycle == rules.lifecycle
                &&& poison.outstanding == rules.outstanding
                &&& poison.terminal == rules.terminal
                &&& poison.incarnation == rules.incarnation
                &&& poison.quota == rules.quota
                &&& same_application(marked->0, record.image())
            }
        }),
{
}

/// The requests of a poisoned group are all refused: a queued one for the poison, and one that had
/// entered the driver with an open outcome. Earlier refusals stay.
pub proof fn law_poison_refuses_what_was_outstanding(
    record: ApplicationRecord,
    r: Option<StoredRecord>,
    key: u64,
)
    requires
        call_ensures(ApplicationRecord::fail_poisoned_outstanding, (&record,), r),
        r is Some,
    ensures
        ({
            let rules = record.image().rules();
            let after = r->0.rules();
            let item = rules.outstanding[key];
            &&& !after.outstanding.contains_key(key)
            &&& after.terminal.contains_key(key) <==> rules.outstanding.contains_key(key)
                || rules.terminal.contains_key(key)
            &&& rules.outstanding.contains_key(key) ==> {
                &&& after.terminal[key].request == item.request
                &&& after.terminal[key].command == item.command
                &&& item.phase == OutstandingPhase::Queued ==> after.terminal[key].failure
                    == TerminalFailure::GroupPoisoned
                &&& item.phase == OutstandingPhase::EnteredDriver ==> after.terminal[key].failure
                    == TerminalFailure::GroupPoisonedUnknown
            }
            &&& rules.terminal.contains_key(key) && !rules.outstanding.contains_key(key)
                ==> after.terminal[key] == rules.terminal[key]
            &&& same_group(after, rules)
            &&& same_application(r->0, record.image())
        }),
{
}

/// Sessions are not recorded: reserving one always succeeds and stages nothing, and there is nothing
/// to mark, fail or cancel.
pub proof fn law_sessions_are_not_recorded(
    record: ApplicationRecord,
    operation: AcceptedOperation,
    reserved: Result<(ReserveOutcome, Option<StoredRecord>), StoreError>,
    entered: Result<Option<StoredRecord>, StoreError>,
    failure: TerminalFailure,
    failed: Result<Option<StoredRecord>, StoreError>,
    cancelled: Option<StoredRecord>,
)
    requires
        operation is OpenSession,
        call_ensures(ApplicationRecord::reserve_operation, (&record, operation), reserved),
        call_ensures(ApplicationRecord::mark_operation_entered, (&record, operation), entered),
        call_ensures(ApplicationRecord::fail_operation, (&record, operation, failure), failed),
        call_ensures(ApplicationRecord::cancel_operation, (&record, operation), cancelled),
    ensures
        reserved is Ok && reserved->Ok_0.0 == ReserveOutcome::Reserved && reserved->Ok_0.1 is None,
        entered is Ok && entered->Ok_0 is None,
        failed is Ok && failed->Ok_0 is None,
        cancelled is None,
{
}

/// Counter requests are recorded under their own identity, whichever way they come.
pub proof fn law_counter_operations_are_recorded(
    record: ApplicationRecord,
    request: RequestIdentity,
    command: CounterCommand,
    reserved: Result<(ReserveOutcome, Option<StoredRecord>), StoreError>,
    failure: TerminalFailure,
    failed: Result<Option<StoredRecord>, StoreError>,
    cancelled: Option<StoredRecord>,
    entered: Result<Option<StoredRecord>, StoreError>,
)
    requires
        call_ensures(
            ApplicationRecord::reserve_operation,
            (&record, AcceptedOperation::Counter { request, command }),
            reserved,
        ),
        call_ensures(
            ApplicationRecord::mark_operation_entered,
            (&record, AcceptedOperation::Counter { request, command }),
            entered,
        ),
        call_ensures(
            ApplicationRecord::fail_operation,
            (&record, AcceptedOperation::Counter { request, command }, failure),
            failed,
        ),
        call_ensures(
            ApplicationRecord::cancel_operation,
            (&record, AcceptedOperation::Counter { request, command }),
            cancelled,
        ),
    ensures
        ({
            let rules = record.image().rules();
            let key = request.client_id@ as u64;
            let known = rules.outstanding.contains_key(key);
            let same = known && is_accepted(rules.outstanding[key], request, command);
            &&& reserved is Ok && reserved->Ok_0.1 is Some ==> {
                let after = reserved->Ok_0.1->0.rules();
                &&& !known
                &&& after.outstanding.contains_key(key)
                &&& is_accepted(after.outstanding[key], request, command)
                &&& same_elsewhere(after, rules, key)
            }
            &&& !known && !rules.terminal.contains_key(key) && record.held() < record.bound()
                ==> reserved is Ok && reserved->Ok_0.1 is Some
            &&& entered is Ok && entered->Ok_0 is Some ==> same
                && entered->Ok_0->0.rules().outstanding[key].phase
                == OutstandingPhase::EnteredDriver
            &&& same && !rules.terminal.contains_key(key) ==> failed is Ok && failed->Ok_0 is Some
                && failed->Ok_0->0.rules().terminal[key] == (TerminalRequest {
                request,
                command,
                failure,
            })
            &&& cancelled is Some <==> same
        }),
{
}

/// An applied batch releases exactly the requests that it applied.
pub proof fn law_applied_requests_are_released(
    outstanding: Map<u64, OutstandingRequest>,
    commands: Seq<ReplicatedCounterCommand>,
    n: nat,
    key: u64,
)
    requires
        n <= commands.len(),
        outstanding.contains_key(key) ==> outstanding[key].request.client_id@ as u64 == key,
    ensures
        released(outstanding, commands, n).contains_key(key) <==> outstanding.contains_key(key)
            && !exists|i: int|
            0 <= i < n && #[trigger] commands[i] == (ReplicatedCounterCommand::Counter {
                request: outstanding[key].request,
                command: outstanding[key].command,
            }),
        released(outstanding, commands, n).contains_key(key) ==> released(
            outstanding,
            commands,
            n,
        )[key] == outstanding[key],
    decreases n,
{
    if n > 0 {
        law_applied_requests_are_released(outstanding, commands, (n - 1) as nat, key);
        let own = ReplicatedCounterCommand::Counter {
            request: outstanding[key].request,
            command: outstanding[key].command,
        };
        if commands[n - 1] == own {
            assert(commands[n - 1] == own);
        }
        if exists|i: int| 0 <= i < n && #[trigger] commands[i] == own {
            let i = choose|i: int| 0 <= i < n && #[trigger] commands[i] == own;
            if i < n - 1 {
                assert(0 <= i < n - 1 && commands[i] == own);
            }
        }
    }
}

/// Committing a batch takes over its snapshot, keeps the group and its refusals, and releases what the
/// batch applied.
pub proof fn law_commits_take_over_the_snapshot(
    record: ApplicationRecord,
    application: ApplicationSnapshot,
    commands: Vec<ReplicatedCounterCommand>,
    r: StoredRecord,
    key: u64,
)
    requires
        call_ensures(
            ApplicationRecord::commit_application,
            (&record, application, &commands),
            r,
        ),
        record.image().rules().outstanding.contains_key(key) ==> record.image().rules().outstanding[
            key
        ].request.client_id@ as u64 == key,
    ensures
        ({
            let rules = record.image().rules();
            let after = r.rules();
            &&& r.application == application
            &&& same_group(after, rules)
            &&& after.terminal == rules.terminal
            &&& after.outstanding.contains_key(key) <==> rules.outstanding.contains_key(key)
                && !commands@.contains(
                ReplicatedCounterCommand::Counter {
                    request: rules.outstanding[key].request,
                    command: rules.outstanding[key].command,
                },
            )
            &&& after.outstanding.contains_key(key) ==> after.outstanding[key]
                == rules.outstanding[key]
        }),
{
    law_applied_requests_are_released(
        record.image().rules().outstanding,
        commands@,
        commands@.len(),
        key,
    );
}

/// A completion learned from the replicas releases its own reservation, and nothing else.
pub proof fn law_completions_release_their_reservation(
    record: ApplicationRecord,
    request: RequestIdentity,
    command: CounterCommand,
    r: Option<StoredRecord>,
)
    requires
        call_ensures(
            ApplicationRecord::reconcile_authoritative_completion,
            (&record, AcceptedOperation::Counter { request, command }),
            r,
        ),
    ensures
        ({
            let rules = record.image().rules();
            let key = request.client_id@ as u64;
            &&& r is Some <==> rules.outstanding.contains_key(key) && is_accepted(
                rules.outstanding[key],
                request,
                command,
            )
            &&& r is Some ==> {
                &&& !r->0.rules().outstanding.contains_key(key)
                &&& same_elsewhere(r->0.rules(), rules, key)
                &&& same_group(r->0.rules(), rules)
                &&& r->0.rules().terminal == rules.terminal
                &&& same_application(r->0, record.image())
            }
        }),
{
    let rules = record.image().rules();
    let key = request.client_id@ as u64;
    let operation = AcceptedOperation::Counter { request, command };
    let commands = seq![operation.replicated_command()];
    reveal_with_fuel(released, 2);
    let left = released(rules.outstanding, commands, 1);
    assert(commands[0] == operation.replicated_command());
    if rules.outstanding.contains_key(key) && is_accepted(
        rules.outstanding[key],
        request,
        command,
    ) {
        assert(!left.contains_key(key));
        assert(left != rules.outstanding);
    } else {
        assert(left == rules.outstanding);
    }
}

/// A removed slot keeps no poison and an empty application, and cannot be removed with a request
/// outstanding. A slot opens again under the next incarnation with nothing on record.
pub proof fn law_retired_slots_start_over(
    record: ApplicationRecord,
    lifecycle: GroupLifecycle,
    retired: Result<StoredRecord, StoreError>,
    quota: WorkQuota,
    max_sessions: usize,
    reopened: Result<StoredRecord, StoreError>,
)
    requires
        call_ensures(ApplicationRecord::retire, (&record, lifecycle), retired),
        call_ensures(ApplicationRecord::reopen, (&record, quota, max_sessions), reopened),
    ensures
        ({
            let rules = record.image().rules();
            &&& retired is Ok <==> record.image()@.outstanding.len() == 0
            &&& retired is Err ==> retired->Err_0 == (StoreError::OutstandingRemain {
                count: record.image()@.outstanding.len() as usize,
            })
            &&& retired is Ok ==> {
                let after = retired->Ok_0.rules();
                &&& after.lifecycle == lifecycle
                &&& !after.poisoned
                &&& after.incarnation == rules.incarnation
                &&& after.quota == rules.quota
                &&& after.terminal == rules.terminal
                &&& retired->Ok_0.application.applied_index == 0
            }
            &&& reopened is Ok <==> rules.incarnation@ < 0xffff_ffff
            &&& reopened is Err ==> reopened->Err_0 == StoreError::Corrupt(
                Corruption::IncarnationExhausted,
            )
            &&& reopened is Ok ==> {
                let after = reopened->Ok_0.rules();
                &&& after.incarnation@ == rules.incarnation@ + 1
                &&& after.lifecycle == GroupLifecycle::Serving
                &&& !after.poisoned
                &&& after.quota == quota
                &&& after.outstanding.dom().is_empty()
                &&& after.terminal.dom().is_empty()
                &&& reopened->Ok_0.application.applied_index == 0
            }
        }),
{
}

/// What a restart owes is every recorded request, once, in the state in which its group stands.
pub proof fn law_outstanding_work_is_listed(
    record: ApplicationRecord,
    group_id: GroupId,
    driver: bool,
    r: Vec<OutstandingWork>,
    i: int,
)
    requires
        call_ensures(ApplicationRecord::outstanding_work, (&record, group_id, driver), r),
        0 <= i < r@.len(),
    ensures
        ({
            let rows = record.image()@.outstanding;
            let item = r@[i];
            &&& r@.len() == rows.len()
            &&& item.group_id == group_id
            &&& item.driver == driver
            &&& item.lifecycle == record.image().rules().lifecycle
            &&& item.poisoned == record.image().rules().poisoned
            &&& item.phase == rows[i].value.phase
            &&& item.operation == (AcceptedOperation::Counter {
                request: rows[i].value.request,
                command: rows[i].value.command,
            })
        }),
{
    assert(r@ == recorded_work(record.image(), group_id, driver));
}

/// A batch is staged whole or not at all: where one entry fails, its error is the answer. A staged
/// batch stands at its last entry, keeps the group, and releases what it applied.
pub proof fn law_batches_are_staged_whole(
    machine: DurableCounterStateMachine,
    record: ApplicationRecord,
    entries: Vec<ApplyEntry>,
    r: Result<StagedBatch, StoreError>,
    key: u64,
)
    requires
        call_ensures(DurableCounterStateMachine::apply_batch, (&machine, &record, entries), r),
        record.image().rules().outstanding.contains_key(key) ==> record.image().rules().outstanding[
            key
        ].request.client_id@ as u64 == key,
    ensures
        ({
            let rules = record.image().rules();
            &&& r is Err ==> r->Err_0 is Counter
            &&& r is Ok ==> {
                let after = r->Ok_0.record.rules();
                &&& r->Ok_0.results@.len() == entries@.len()
                &&& r->Ok_0.record@.applied_index == r->Ok_0.machine.replica().applied_index
                &&& same_group(after, rules)
                &&& after.terminal == rules.terminal
                &&& after.outstanding.contains_key(key) <==> rules.outstanding.contains_key(key)
                    && !exists|i: int|
                    0 <= i < entries@.len() && (#[trigger] entries@[i]).command == (
                    ReplicatedCounterCommand::Counter {
                        request: rules.outstanding[key].request,
                        command: rules.outstanding[key].command,
                    })
            }
        }),
{
    let rules = record.image().rules();
    let commands = crate::node::app_store::entry_commands(entries@);
    let own = ReplicatedCounterCommand::Counter {
        request: rules.outstanding[key].request,
        command: rules.outstanding[key].command,
    };
    law_applied_requests_are_released(rules.outstanding, commands, entries@.len(), key);
    if exists|i: int| 0 <= i < entries@.len() && #[trigger] commands[i] == own {
        let i = choose|i: int| 0 <= i < entries@.len() && #[trigger] commands[i] == own;
        assert(entries@[i].command == own);
    }
    if exists|i: int| 0 <= i < entries@.len() && (#[trigger] entries@[i]).command == own {
        let i = choose|i: int| 0 <= i < entries@.len() && (#[trigger] entries@[i]).command == own;
        assert(commands[i] == own);
    }
}

/// A payload is read in pieces of 16 KiB, the last one shorter, until nothing is left.
pub proof fn law_payloads_are_read_in_pieces(total: u64, offset: u64, r: Option<u32>)
    requires
        call_ensures(next_chunk, (total, offset), r),
    ensures
        r is None <==> offset >= total,
        r is Some ==> 0 < r->0 <= 16384 && offset + r->0 <= total,
        r is Some && r->0 < 16384 ==> offset + r->0 == total,
{
}

} // verus!
