//! Durable counter application and consumer-policy record.
//!
//! Each group owns one checksummed image. The image keeps the application snapshot, lifecycle and
//! incarnation policy, quota and accepted request identities together. Every operation stages the
//! next image; the caller publishes it durably and then adopts it.

use rafter::RaftSnapshot;
use vstd::prelude::*;

use crate::adapter::codec::{decoded_snapshot, law_snapshots_round_trip, snapshot_bytes};
use crate::adapter::payloads::{declared_length, transfer_of};
use crate::adapter::replica::Replica;
use crate::adapter::state_machine::{
    lemma_failing_bound, ApplicationSnapshot, ApplyEntry, ApplyResult, CounterStateMachine,
    CounterStateMachineError, CounterStateView, ReplicatedCounterCommand,
};
use crate::node::engine::desk::state::{AcceptedOperation, DurableOperationState, OutstandingWork};
use crate::node::record::{
    Corruption, OutstandingPhase, OutstandingRequest, StoreError, StoredPolicy, StoredRecord,
    TerminalFailure, TerminalRequest,
};
use crate::table::{contents, holds, lemma_row, rows_ordered, Row, Table};
use crate::types::{
    CounterCommand, GroupId, GroupIncarnation, GroupLifecycle, RequestIdentity, WorkQuota,
};

pub mod laws;

verus! {

/// Largest piece a promoted snapshot payload is read in.
pub const SNAPSHOT_READ_CHUNK: u32 = 16 * 1024;

/// Result of reserving one client request in the durable outstanding table.
#[derive(Clone, Copy, Debug, Eq, PartialEq, Structural)]
pub enum ReserveOutcome {
    /// The request is new.
    Reserved,
    /// The exact request is already reserved.
    ExactRetry,
}

/// Policy of a group: what its image states but for the application snapshot.
#[verifier::ext_equal]
pub struct PolicyView {
    /// Current incarnation.
    pub incarnation: GroupIncarnation,
    /// Lifecycle state.
    pub lifecycle: GroupLifecycle,
    /// Whether the group is permanently poisoned.
    pub poisoned: bool,
    /// Per-turn quota.
    pub quota: WorkQuota,
    /// Accepted requests by client number.
    pub outstanding: Map<u64, OutstandingRequest>,
    /// Terminal refusals by client number.
    pub terminal: Map<u64, TerminalRequest>,
}

impl StoredRecord {
    /// Policy the image states.
    pub open(crate) spec fn rules(self) -> PolicyView {
        PolicyView {
            incarnation: self.policy.incarnation,
            lifecycle: self.policy.lifecycle,
            poisoned: self.policy.poisoned,
            quota: self.policy.quota,
            outstanding: self.policy.outstanding@,
            terminal: self.policy.terminal@,
        }
    }

    /// Copies the image.
    fn duplicate(&self) -> (r: Self)
        requires
            self.wf(),
        ensures
            r@ == self@,
            r.rules() == self.rules(),
            r.wf(),
            r.policy.outstanding.count() == self.policy.outstanding.count(),
            r.policy.terminal.count() == self.policy.terminal.count(),
    {
        let mut payload: Vec<u8> = Vec::new();
        payload.extend_from_slice(self.application.payload.as_slice());
        assert(payload@ =~= self.application.payload@);
        StoredRecord {
            policy: StoredPolicy {
                incarnation: self.policy.incarnation,
                lifecycle: self.policy.lifecycle,
                poisoned: self.policy.poisoned,
                quota: self.policy.quota,
                outstanding: self.policy.outstanding.duplicate(),
                terminal: self.policy.terminal.duplicate(),
            },
            application: ApplicationSnapshot {
                applied_index: self.application.applied_index,
                payload,
                transfer_id: None,
            },
        }
    }
}

/// Key of a client's rows.
pub open spec fn client_row(request: RequestIdentity) -> u64 {
    request.client_id@ as u64
}

/// What a policy says of an operation. Only counter requests are recorded, so a session request is
/// never found, and whatever is recorded for its client is in its way.
pub open spec fn recorded_state(rules: PolicyView, operation: AcceptedOperation) -> DurableOperationState {
    let key = operation.client_id()@ as u64;
    let asked = match operation {
        AcceptedOperation::Counter { request, command } => Some((request, command)),
        AcceptedOperation::OpenSession { .. } => None,
    };
    if rules.terminal.contains_key(key) {
        let found = rules.terminal[key];
        if asked == Some((found.request, found.command)) {
            DurableOperationState::ExactTerminal { failure: found.failure }
        } else {
            DurableOperationState::ConflictingTerminal
        }
    } else if rules.outstanding.contains_key(key) {
        let found = rules.outstanding[key];
        if asked == Some((found.request, found.command)) {
            DurableOperationState::ExactOutstanding { phase: found.phase }
        } else {
            DurableOperationState::ConflictingOutstanding
        }
    } else {
        DurableOperationState::Absent
    }
}

/// Shared record of one group's durable image.
#[derive(Debug)]
pub struct ApplicationRecord {
    max_outstanding: usize,
    record: StoredRecord,
}

/// The image differs from another only in its rules.
pub open(crate) spec fn same_application(a: StoredRecord, b: StoredRecord) -> bool {
    a.application.applied_index == b.application.applied_index && a.application.payload@
        == b.application.payload@
}

/// The image holds the snapshot of an empty state machine.
pub open(crate) spec fn blank_application(record: StoredRecord) -> bool {
    record.application.applied_index == 0 && record.application.payload@ == snapshot_bytes(
        0,
        0,
        Seq::empty(),
    )
}

impl ApplicationRecord {
    /// The adopted image.
    pub closed spec fn image(self) -> StoredRecord {
        self.record
    }

    /// Most requests the record holds.
    pub closed spec fn bound(self) -> nat {
        self.max_outstanding as nat
    }

    /// The image is well formed and the bound fits the snapshot representation.
    pub open(crate) spec fn wf(self) -> bool {
        self.image().wf() && 0 < self.bound() <= 1724
    }

    /// Number of requests the record holds.
    pub open(crate) spec fn held(self) -> nat {
        self.image().policy.outstanding.count() + self.image().policy.terminal.count()
    }

    /// Opens a decoded image: the requests have to fit the bound, and the application snapshot has
    /// to restore.
    pub fn from_record(record: StoredRecord, max_sessions: usize) -> (r: Result<
        (Self, CounterStateMachine),
        StoreError,
    >)
        requires
            record.wf(),
            0 < max_sessions <= 1724,
        ensures
            match r {
                Ok((opened, machine)) => {
                    &&& opened.wf()
                    &&& opened.image() == record
                    &&& opened.bound() == max_sessions
                    &&& record@.outstanding.len() + record@.terminal.len() <= max_sessions
                    &&& machine.wf()
                    &&& restores(record, max_sessions as nat) == Ok::<
                        Replica,
                        CounterStateMachineError,
                    >(machine.replica())
                },
                Err(error) => if record@.outstanding.len() + record@.terminal.len()
                    > max_sessions {
                    error == (StoreError::OutstandingCapacity { bound: max_sessions })
                } else {
                    &&& restores(record, max_sessions as nat) is Err
                    &&& error == StoreError::Counter(
                        restores(record, max_sessions as nat)->Err_0,
                    )
                },
            },
    {
        if record.policy.outstanding.len() as u64 > max_sessions as u64
            || record.policy.terminal.len() as u64 > max_sessions as u64
            - record.policy.outstanding.len() as u64 {
            return Err(StoreError::OutstandingCapacity { bound: max_sessions });
        }
        let copy = record.duplicate();
        match CounterStateMachine::from_snapshot(max_sessions, copy.application) {
            Err(error) => Err(StoreError::Counter(error)),
            Ok(machine) => Ok((Self { max_outstanding: max_sessions, record }, machine)),
        }
    }

    /// Stages incarnation one of a never-before-used slot.
    pub fn bootstrap(max_sessions: usize, quota: WorkQuota) -> (r: StoredRecord)
        requires
            0 < max_sessions <= 1724,
        ensures
            r.wf(),
            r.rules() == (PolicyView {
                incarnation: r.policy.incarnation,
                lifecycle: GroupLifecycle::Serving,
                poisoned: false,
                quota,
                outstanding: Map::empty(),
                terminal: Map::empty(),
            }),
            r.policy.incarnation@ == 1,
            blank_application(r),
    {
        proof {
            use_type_invariant(&quota);
        }
        StoredRecord {
            policy: StoredPolicy {
                incarnation: GroupIncarnation::first(),
                lifecycle: GroupLifecycle::Serving,
                poisoned: false,
                quota,
                outstanding: Table::new(),
                terminal: Table::new(),
            },
            application: blank_snapshot(max_sessions),
        }
    }

    /// Returns the adopted policy.
    pub fn policy(&self) -> (r: &StoredPolicy)
        ensures
            *r == self.image().policy,
    {
        &self.record.policy
    }

    /// Returns the adopted image.
    pub fn record(&self) -> (r: &StoredRecord)
        ensures
            *r == self.image(),
    {
        &self.record
    }

    /// Adopts an image once it is durably published.
    pub fn adopt(&mut self, staged: StoredRecord)
        requires
            old(self).wf(),
            staged.wf(),
        ensures
            final(self).wf(),
            final(self).image() == staged,
            final(self).bound() == old(self).bound(),
    {
        self.record = staged;
    }

    /// What reserving a counter request gives: an exact retry is named, another request of the client
    /// or a full record is refused, and everything else is staged as queued.
    pub open(crate) spec fn reserves(
        self,
        request: RequestIdentity,
        command: CounterCommand,
        r: Result<(ReserveOutcome, Option<StoredRecord>), StoreError>,
    ) -> bool {
        let rules = self.image().rules();
        let key = client_row(request);
        let existing = rules.outstanding[key];
        if rules.outstanding.contains_key(key) {
            if existing.request == request && existing.command == command {
                r is Ok && r->Ok_0.0 is ExactRetry && r->Ok_0.1 is None
            } else {
                r is Err && r->Err_0 == (StoreError::ConflictingOutstanding {
                    client_id: request.client_id,
                })
            }
        } else if rules.terminal.contains_key(key) {
            r is Err && r->Err_0 == (StoreError::ConflictingOutstanding {
                client_id: request.client_id,
            })
        } else if self.held() >= self.bound() {
            r is Err && r->Err_0 == (StoreError::OutstandingCapacity {
                bound: self.bound() as usize,
            })
        } else {
            &&& r is Ok
            &&& r->Ok_0.0 is Reserved
            &&& r->Ok_0.1 is Some
            &&& staged(
                r->Ok_0.1->0,
                self.image(),
                PolicyView {
                    outstanding: rules.outstanding.insert(
                        key,
                        OutstandingRequest {
                            request,
                            command,
                            phase: OutstandingPhase::Queued,
                        },
                    ),
                    ..rules
                },
            )
        }
    }

    /// Reserves one client request before it is accepted. `Some` image is to be published.
    pub fn reserve(&self, request: RequestIdentity, command: CounterCommand) -> (r: Result<
        (ReserveOutcome, Option<StoredRecord>),
        StoreError,
    >)
        requires
            self.wf(),
            request.valid(),
            command.valid(),
        ensures
            self.reserves(request, command, r),
    {
        let key: u64 = request.client_id.get() as u64;
        if let Some(existing) = self.record.policy.outstanding.get(key) {
            return if existing.request == request && existing.command == command {
                Ok((ReserveOutcome::ExactRetry, None))
            } else {
                Err(StoreError::ConflictingOutstanding { client_id: request.client_id })
            };
        }
        if self.record.policy.terminal.get(key).is_some() {
            return Err(StoreError::ConflictingOutstanding { client_id: request.client_id });
        }
        if self.record.policy.outstanding.len() >= self.max_outstanding
            || self.record.policy.terminal.len() >= self.max_outstanding
            - self.record.policy.outstanding.len() {
            return Err(StoreError::OutstandingCapacity { bound: self.max_outstanding });
        }
        let mut staged = self.record.duplicate();
        let item = OutstandingRequest { request, command, phase: OutstandingPhase::Queued };
        staged.policy.outstanding.insert(key, item);
        proof {
            lemma_reserved(self.record, staged, key, item);
        }
        Ok((ReserveOutcome::Reserved, Some(staged)))
    }
}

/// The staged image states the given rules and the same application.
pub open(crate) spec fn staged(
    staged: StoredRecord,
    before: StoredRecord,
    rules: PolicyView,
) -> bool {
    &&& staged.wf()
    &&& staged.rules() == rules
    &&& same_application(staged, before)
}

/// What a decoded image restores to.
pub open(crate) spec fn restores(record: StoredRecord, max_sessions: nat) -> Result<
    Replica,
    CounterStateMachineError,
> {
    if record@.payload.len() == 0 {
        Err(CounterStateMachineError::PromotedSnapshotMissing)
    } else {
        match decoded_snapshot(record@.payload, max_sessions) {
            Err(error) => Err(error),
            Ok((applied_index, value, sessions)) => if applied_index != record@.applied_index {
                Err(CounterStateMachineError::SnapshotIndexMismatch)
            } else {
                Ok(Replica { applied_index, value, sessions, max_sessions })
            },
        }
    }
}

/// Snapshot of an empty state machine.
fn blank_snapshot(max_sessions: usize) -> (r: ApplicationSnapshot)
    requires
        0 < max_sessions <= 1724,
    ensures
        r.applied_index == 0,
        r.payload@ == snapshot_bytes(0, 0, Seq::empty()),
        r.transfer_id is None,
{
    let mut machine = CounterStateMachine::new(max_sessions);
    match machine.build_snapshot(0) {
        Ok(snapshot) => snapshot,
        Err(_) => ApplicationSnapshot {
            applied_index: 0,
            payload: Vec::new(),
            transfer_id: None,
        },
    }
}

/// What ordered rows map to says of each row.
proof fn lemma_contents<V>(rows: Seq<Row<V>>)
    requires
        rows_ordered(rows),
    ensures
        forall|i: int|
            0 <= i < rows.len() ==> contents(rows).contains_key((#[trigger] rows[i]).key)
                && contents(rows)[rows[i].key] == rows[i].value,
        forall|key: u64| #[trigger]
            contents(rows).contains_key(key) ==> exists|i: int| #[trigger] holds(rows, key, i),
{
    assert forall|i: int| 0 <= i < rows.len() implies contents(rows).contains_key(
        (#[trigger] rows[i]).key,
    ) && contents(rows)[rows[i].key] == rows[i].value by {
        lemma_row(rows, i);
    }
}

/// A record is well formed when its maps are: every request valid and under its client, and no
/// client in both.
proof fn lemma_maps_make_records(record: StoredRecord)
    requires
        record.policy.outstanding.wf(),
        record.policy.terminal.wf(),
        record.policy.incarnation.valid(),
        record.policy.quota.valid(),
        record.application.transfer_id is None,
        forall|key: u64| #[trigger]
            record.policy.outstanding@.contains_key(key) ==> outstanding_at(
                record.policy.outstanding@,
                key,
            ),
        forall|key: u64| #[trigger]
            record.policy.terminal@.contains_key(key) ==> terminal_at(record.policy.terminal@, key)
                && !record.policy.outstanding@.contains_key(key),
    ensures
        record.wf(),
{
    lemma_contents(record.policy.outstanding.all());
    lemma_contents(record.policy.terminal.all());
    let o = record@.outstanding;
    let t = record@.terminal;
    assert forall|i: int| 0 <= i < o.len() implies (#[trigger] o[i]).value.valid() && o[i].key
        == o[i].value.request.client_id@ by {
        assert(record.policy.outstanding@.contains_key(o[i].key));
    }
    assert forall|i: int| 0 <= i < t.len() implies (#[trigger] t[i]).value.valid() && t[i].key
        == t[i].value.request.client_id@ && !contents(o).contains_key(t[i].key) by {
        assert(record.policy.terminal@.contains_key(t[i].key));
    }
}

/// The request under `key` is valid and its client's.
pub open spec fn outstanding_at(requests: Map<u64, OutstandingRequest>, key: u64) -> bool {
    requests[key].valid() && requests[key].request.client_id@ == key
}

/// The refusal under `key` is valid and its client's.
pub open spec fn terminal_at(requests: Map<u64, TerminalRequest>, key: u64) -> bool {
    requests[key].valid() && requests[key].request.client_id@ == key
}

/// What the maps of a well-formed record hold.
proof fn lemma_record_maps(record: StoredRecord)
    requires
        record.wf(),
    ensures
        record.policy.outstanding.wf(),
        record.policy.terminal.wf(),
        forall|key: u64| #[trigger]
            record.policy.outstanding@.contains_key(key) ==> outstanding_at(
                record.policy.outstanding@,
                key,
            ),
        forall|key: u64| #[trigger]
            record.policy.terminal@.contains_key(key) ==> terminal_at(record.policy.terminal@, key)
                && !record.policy.outstanding@.contains_key(key),
{
    lemma_contents(record.policy.outstanding.all());
    lemma_contents(record.policy.terminal.all());
    let o = record@.outstanding;
    let t = record@.terminal;
    assert forall|key: u64| #[trigger] record.policy.outstanding@.contains_key(
        key,
    ) implies outstanding_at(record.policy.outstanding@, key) by {
        let i = choose|i: int| #[trigger] holds(o, key, i);
        assert(holds(o, key, i));
        assert(o[i].value.valid());
    }
    assert forall|key: u64| #[trigger] record.policy.terminal@.contains_key(
        key,
    ) implies terminal_at(record.policy.terminal@, key) && !record.policy.outstanding@.contains_key(
        key,
    ) by {
        let i = choose|i: int| #[trigger] holds(t, key, i);
        assert(holds(t, key, i));
        assert(t[i].value.valid());
    }
}

/// Setting a request keeps a record well formed.
proof fn lemma_reserved(
    before: StoredRecord,
    after: StoredRecord,
    key: u64,
    item: OutstandingRequest,
)
    requires
        before.wf(),
        after.policy.outstanding.wf(),
        after.policy.outstanding@ == before.policy.outstanding@.insert(key, item),
        after.policy.terminal.wf(),
        after.policy.terminal@ == before.policy.terminal@,
        after.policy.incarnation.valid(),
        after.policy.quota.valid(),
        after.application.transfer_id is None,
        item.valid(),
        item.request.client_id@ == key,
        !before.policy.terminal@.contains_key(key),
    ensures
        after.wf(),
{
    lemma_record_maps(before);
    assert forall|k: u64| #[trigger] after.policy.outstanding@.contains_key(
        k,
    ) implies outstanding_at(after.policy.outstanding@, k) by {
        if k != key {
            assert(before.policy.outstanding@.contains_key(k));
        }
    }
    assert forall|k: u64| #[trigger] after.policy.terminal@.contains_key(k) implies terminal_at(
        after.policy.terminal@,
        k,
    ) && !after.policy.outstanding@.contains_key(k) by {
        assert(before.policy.terminal@.contains_key(k));
    }
    lemma_maps_make_records(after);
}

/// Moves a request to the refusals, with the record's wellformedness.
proof fn lemma_refused(
    before: StoredRecord,
    after: StoredRecord,
    key: u64,
    item: TerminalRequest,
)
    requires
        before.wf(),
        after.policy.outstanding.wf(),
        after.policy.outstanding@ == before.policy.outstanding@.remove(key),
        after.policy.terminal.wf(),
        after.policy.terminal@ == before.policy.terminal@.insert(key, item),
        after.policy.incarnation.valid(),
        after.policy.quota.valid(),
        after.application.transfer_id is None,
        item.valid(),
        item.request.client_id@ == key,
    ensures
        after.wf(),
{
    lemma_record_maps(before);
    assert forall|k: u64| #[trigger] after.policy.outstanding@.contains_key(
        k,
    ) implies outstanding_at(after.policy.outstanding@, k) by {
        assert(before.policy.outstanding@.contains_key(k));
    }
    assert forall|k: u64| #[trigger] after.policy.terminal@.contains_key(k) implies terminal_at(
        after.policy.terminal@,
        k,
    ) && !after.policy.outstanding@.contains_key(k) by {
        if k != key {
            assert(before.policy.terminal@.contains_key(k));
        }
    }
    lemma_maps_make_records(after);
}

/// Dropping requests keeps a record well formed.
proof fn lemma_released(before: StoredRecord, after: StoredRecord)
    requires
        before.wf(),
        after.policy.outstanding.wf(),
        forall|key: u64| #[trigger]
            after.policy.outstanding@.contains_key(key)
                ==> before.policy.outstanding@.contains_key(key) && after.policy.outstanding@[key]
                == before.policy.outstanding@[key],
        after.policy.terminal.wf(),
        after.policy.terminal@ == before.policy.terminal@,
        after.policy.incarnation.valid(),
        after.policy.quota.valid(),
        after.application.transfer_id is None,
    ensures
        after.wf(),
{
    lemma_record_maps(before);
    assert forall|k: u64| #[trigger] after.policy.outstanding@.contains_key(
        k,
    ) implies outstanding_at(after.policy.outstanding@, k) by {
        assert(before.policy.outstanding@.contains_key(k));
    }
    assert forall|k: u64| #[trigger] after.policy.terminal@.contains_key(k) implies terminal_at(
        after.policy.terminal@,
        k,
    ) && !after.policy.outstanding@.contains_key(k) by {
        assert(before.policy.terminal@.contains_key(k));
    }
    lemma_maps_make_records(after);
}

/// Refusal of a request that was accepted when its group was poisoned.
pub open spec fn poisoned_failure(phase: OutstandingPhase) -> TerminalFailure {
    match phase {
        OutstandingPhase::Queued => TerminalFailure::GroupPoisoned,
        OutstandingPhase::EnteredDriver => TerminalFailure::GroupPoisonedUnknown,
    }
}

/// Refusals once every accepted request has been refused for poison.
pub open spec fn poisoned_refusals(
    outstanding: Map<u64, OutstandingRequest>,
    terminal: Map<u64, TerminalRequest>,
) -> Map<u64, TerminalRequest> {
    Map::new(
        |key: u64| outstanding.contains_key(key) || terminal.contains_key(key),
        |key: u64|
            if outstanding.contains_key(key) {
                TerminalRequest {
                    request: outstanding[key].request,
                    command: outstanding[key].command,
                    failure: poisoned_failure(outstanding[key].phase),
                }
            } else {
                terminal[key]
            },
    )
}

/// The accepted requests once the first `n` applied commands have released theirs.
pub open spec fn released(
    outstanding: Map<u64, OutstandingRequest>,
    commands: Seq<ReplicatedCounterCommand>,
    n: nat,
) -> Map<u64, OutstandingRequest>
    decreases n,
{
    if n == 0 {
        outstanding
    } else {
        let before = released(outstanding, commands, (n - 1) as nat);
        match commands[n - 1] {
            ReplicatedCounterCommand::Counter { request, command } => {
                let key = client_row(request);
                if before.contains_key(key) && before[key].request == request && before[key].command
                    == command {
                    before.remove(key)
                } else {
                    before
                }
            },
            _ => before,
        }
    }
}

impl ApplicationRecord {
    /// What entering the driver does to a counter request's reservation.
    pub open(crate) spec fn enters_driver(
        self,
        request: RequestIdentity,
        command: CounterCommand,
        r: Result<Option<StoredRecord>, StoreError>,
    ) -> bool {
        let rules = self.image().rules();
        let key = client_row(request);
        let existing = rules.outstanding[key];
        if !rules.outstanding.contains_key(key) {
            r is Ok && r->Ok_0 is None
        } else if existing.request != request || existing.command != command {
            r is Err && r->Err_0 == (StoreError::ConflictingOutstanding {
                client_id: request.client_id,
            })
        } else if existing.phase is EnteredDriver {
            r is Ok && r->Ok_0 is None
        } else {
            &&& r is Ok
            &&& r->Ok_0 is Some
            &&& staged(
                r->Ok_0->0,
                self.image(),
                PolicyView {
                    outstanding: rules.outstanding.insert(
                        key,
                        OutstandingRequest {
                            phase: OutstandingPhase::EnteredDriver,
                            ..existing
                        },
                    ),
                    ..rules
                },
            )
        }
    }

    /// Records that an accepted request may have entered the driver. `Some` image is to be
    /// published.
    pub fn mark_entered_driver(&self, request: RequestIdentity, command: CounterCommand) -> (r: Result<
        Option<StoredRecord>,
        StoreError,
    >)
        requires
            self.wf(),
        ensures
            self.enters_driver(request, command, r),
    {
        let key: u64 = request.client_id.get() as u64;
        let Some(existing) = self.record.policy.outstanding.get(key) else {
            return Ok(None);
        };
        if existing.request != request || existing.command != command {
            return Err(StoreError::ConflictingOutstanding { client_id: request.client_id });
        }
        if existing.phase == OutstandingPhase::EnteredDriver {
            return Ok(None);
        }
        let mut staged = self.record.duplicate();
        let item = OutstandingRequest { request, command, phase: OutstandingPhase::EnteredDriver };
        staged.policy.outstanding.insert(key, item);
        proof {
            lemma_record_maps(self.record);
            assert(self.record.policy.outstanding@.contains_key(key));
            if self.record.policy.terminal@.contains_key(key) {
                assert(!self.record.policy.outstanding@.contains_key(key));
            }
            lemma_reserved(self.record, staged, key, item);
        }
        Ok(Some(staged))
    }

    /// Stages the draining state. A group that was poisoned stays poisoned.
    pub fn begin_draining(&self, poisoned: bool) -> (r: StoredRecord)
        requires
            self.wf(),
        ensures
            staged(
                r,
                self.image(),
                PolicyView {
                    lifecycle: GroupLifecycle::Draining,
                    poisoned: self.image().rules().poisoned || poisoned,
                    ..self.image().rules()
                },
            ),
    {
        let mut staged = self.record.duplicate();
        staged.policy.lifecycle = GroupLifecycle::Draining;
        staged.policy.poisoned = staged.policy.poisoned || poisoned;
        staged
    }

    /// Stages permanent poison. `Some` image is to be published.
    pub fn mark_poisoned(&self) -> (r: Option<StoredRecord>)
        requires
            self.wf(),
        ensures
            if self.image().rules().poisoned {
                r is None
            } else {
                r is Some && staged(
                    r->0,
                    self.image(),
                    PolicyView { poisoned: true, ..self.image().rules() },
                )
            },
    {
        if self.record.policy.poisoned {
            return None;
        }
        let mut staged = self.record.duplicate();
        staged.policy.poisoned = true;
        Some(staged)
    }

    /// Returns what the record says of an operation.
    pub fn durable_operation_state(&self, operation: AcceptedOperation) -> (r: DurableOperationState)
        requires
            self.wf(),
        ensures
            r == recorded_state(self.image().rules(), operation),
    {
        let key: u64 = operation.client_id().get() as u64;
        if let Some(found) = self.record.policy.terminal.get(key) {
            return match operation {
                AcceptedOperation::Counter { request, command } if found.request == request
                    && found.command == command => DurableOperationState::ExactTerminal {
                    failure: found.failure,
                },
                _ => DurableOperationState::ConflictingTerminal,
            };
        }
        if let Some(found) = self.record.policy.outstanding.get(key) {
            return match operation {
                AcceptedOperation::Counter { request, command } if found.request == request
                    && found.command == command => DurableOperationState::ExactOutstanding {
                    phase: found.phase,
                },
                _ => DurableOperationState::ConflictingOutstanding,
            };
        }
        DurableOperationState::Absent
    }

    /// Returns the terminal refusal recorded for an exact request.
    pub fn replay_terminal_failure(&self, request: RequestIdentity, command: CounterCommand) -> (r:
        Result<Option<TerminalFailure>, StoreError>)
        requires
            self.wf(),
        ensures
            r == ({
                let terminal = self.image().rules().terminal;
                let key = client_row(request);
                if !terminal.contains_key(key) {
                    Ok(None)
                } else if terminal[key].request == request && terminal[key].command == command {
                    Ok(Some(terminal[key].failure))
                } else {
                    Err(
                        StoreError::ConflictingOutstanding { client_id: request.client_id },
                    )
                }
            }),
    {
        let Some(terminal) = self.record.policy.terminal.get(request.client_id.get() as u64) else {
            return Ok(None);
        };
        if terminal.request == request && terminal.command == command {
            Ok(Some(terminal.failure))
        } else {
            Err(StoreError::ConflictingOutstanding { client_id: request.client_id })
        }
    }

    /// What failing for good does to a counter request's reservation.
    pub open(crate) spec fn fails(
        self,
        request: RequestIdentity,
        command: CounterCommand,
        failure: TerminalFailure,
        r: Result<Option<StoredRecord>, StoreError>,
    ) -> bool {
        let rules = self.image().rules();
        let key = client_row(request);
        let conflict = StoreError::ConflictingOutstanding { client_id: request.client_id };
        let refusal = TerminalRequest { request, command, failure };
        if rules.terminal.contains_key(key) {
            if rules.terminal[key] == refusal {
                r is Ok && r->Ok_0 is None
            } else {
                r is Err && r->Err_0 == conflict
            }
        } else if !rules.outstanding.contains_key(key) {
            r is Ok && r->Ok_0 is None
        } else if rules.outstanding[key].request != request || rules.outstanding[key].command
            != command {
            r is Err && r->Err_0 == conflict
        } else {
            &&& r is Ok
            &&& r->Ok_0 is Some
            &&& staged(
                r->Ok_0->0,
                self.image(),
                PolicyView {
                    outstanding: rules.outstanding.remove(key),
                    terminal: rules.terminal.insert(key, refusal),
                    ..rules
                },
            )
        }
    }

    /// Stages the terminal refusal of an accepted request. `Some` image is to be published.
    pub fn fail_reservation(
        &self,
        request: RequestIdentity,
        command: CounterCommand,
        failure: TerminalFailure,
    ) -> (r: Result<Option<StoredRecord>, StoreError>)
        requires
            self.wf(),
        ensures
            self.fails(request, command, failure, r),
    {
        let key: u64 = request.client_id.get() as u64;
        let conflict = StoreError::ConflictingOutstanding { client_id: request.client_id };
        if let Some(terminal) = self.record.policy.terminal.get(key) {
            return if terminal.request == request && terminal.command == command && terminal.failure
                == failure {
                Ok(None)
            } else {
                Err(conflict)
            };
        }
        let Some(outstanding) = self.record.policy.outstanding.get(key) else {
            return Ok(None);
        };
        if outstanding.request != request || outstanding.command != command {
            return Err(conflict);
        }
        let mut staged = self.record.duplicate();
        let _ = staged.policy.outstanding.remove(key);
        let item = TerminalRequest { request, command, failure };
        staged.policy.terminal.insert(key, item);
        proof {
            lemma_record_maps(self.record);
            assert(outstanding_at(self.record.policy.outstanding@, key));
            lemma_refused(self.record, staged, key, item);
        }
        Ok(Some(staged))
    }

    /// Stages the refusal of every accepted request of a poisoned group. `Some` image is to be
    /// published.
    pub fn fail_poisoned_outstanding(&self) -> (r: Option<StoredRecord>)
        requires
            self.wf(),
        ensures
            ({
                let rules = self.image().rules();
                if self.image()@.outstanding.len() == 0 {
                    r is None
                } else {
                    r is Some && staged(
                        r->0,
                        self.image(),
                        PolicyView {
                            outstanding: Map::empty(),
                            terminal: poisoned_refusals(rules.outstanding, rules.terminal),
                            ..rules
                        },
                    )
                }
            }),
    {
        if self.record.policy.outstanding.len() == 0 {
            return None;
        }
        let ghost start = self.record.rules();
        let mut staged = self.record.duplicate();
        while staged.policy.outstanding.len() > 0
            invariant
                staged.wf(),
                same_application(staged, self.record),
                staged.rules() == (PolicyView {
                    outstanding: staged.rules().outstanding,
                    terminal: staged.rules().terminal,
                    ..start
                }),
                poisoned_refusals(staged.rules().outstanding, staged.rules().terminal)
                    == poisoned_refusals(start.outstanding, start.terminal),
            decreases staged.policy.outstanding.count(),
        {
            let ghost before = staged;
            let (key, outstanding) = staged.policy.outstanding.row(0);
            let failure = match outstanding.phase {
                OutstandingPhase::Queued => TerminalFailure::GroupPoisoned,
                OutstandingPhase::EnteredDriver => TerminalFailure::GroupPoisonedUnknown,
            };
            let item = TerminalRequest {
                request: outstanding.request,
                command: outstanding.command,
                failure,
            };
            proof {
                lemma_record_maps(staged);
                assert(outstanding_at(staged.policy.outstanding@, key));
            }
            let _ = staged.policy.outstanding.remove(key);
            staged.policy.terminal.insert(key, item);
            proof {
                lemma_refused(before, staged, key, item);
                assert(poisoned_refusals(staged.rules().outstanding, staged.rules().terminal)
                    =~= poisoned_refusals(before.rules().outstanding, before.rules().terminal));
            }
        }
        proof {
            staged.policy.outstanding.lemma_rows();
            assert(staged.rules().outstanding =~= Map::empty());
            assert(poisoned_refusals(Map::empty(), staged.rules().terminal)
                =~= staged.rules().terminal);
        }
        Some(staged)
    }

    /// What a cancellation does to a counter request's reservation.
    pub open(crate) spec fn cancels(
        self,
        request: RequestIdentity,
        command: CounterCommand,
        r: Option<StoredRecord>,
    ) -> bool {
        let rules = self.image().rules();
        let key = client_row(request);
        if rules.outstanding.contains_key(key) && rules.outstanding[key].request == request
            && rules.outstanding[key].command == command {
            r is Some && staged(
                r->0,
                self.image(),
                PolicyView { outstanding: rules.outstanding.remove(key), ..rules },
            )
        } else {
            r is None
        }
    }

    /// Stages the release of an exact reservation. `Some` image is to be published.
    pub fn cancel_reservation(&self, request: RequestIdentity, command: CounterCommand) -> (r: Option<
        StoredRecord,
    >)
        requires
            self.wf(),
        ensures
            self.cancels(request, command, r),
    {
        let key: u64 = request.client_id.get() as u64;
        let Some(outstanding) = self.record.policy.outstanding.get(key) else {
            return None;
        };
        if outstanding.request != request || outstanding.command != command {
            return None;
        }
        let mut staged = self.record.duplicate();
        let _ = staged.policy.outstanding.remove(key);
        proof {
            lemma_released(self.record, staged);
        }
        Some(staged)
    }

    /// Stages what applying an operation leaves of the accepted requests, where the replica turns
    /// out to hold the operation's result already: its own exact reservation is released. `Some`
    /// image is to be published.
    pub fn reconcile_authoritative_completion(&self, operation: AcceptedOperation) -> (r: Option<
        StoredRecord,
    >)
        requires
            self.wf(),
        ensures
            ({
                let rules = self.image().rules();
                let left = released(rules.outstanding, seq![operation.replicated_command()], 1);
                if left == rules.outstanding {
                    r is None
                } else {
                    r is Some && staged(
                        r->0,
                        self.image(),
                        PolicyView { outstanding: left, ..rules },
                    )
                }
            }),
    {
        let ghost outstanding = self.image().rules().outstanding;
        let ghost commands = seq![operation.replicated_command()];
        proof {
            reveal_with_fuel(released, 2);
            assert(released(outstanding, commands, 0) == outstanding);
        }
        match operation {
            AcceptedOperation::OpenSession { .. } => None,
            AcceptedOperation::Counter { request, command } => {
                let r = self.cancel_reservation(request, command);
                proof {
                    if r is Some {
                        assert(!outstanding.remove(client_row(request)).contains_key(
                            client_row(request),
                        ));
                    }
                }
                r
            },
        }
    }

    /// Stages retirement to `Removed` or `Tombstoned`. The application is emptied and poison is
    /// cleared; terminal refusals stay.
    pub fn retire(&self, lifecycle: GroupLifecycle) -> (r: Result<StoredRecord, StoreError>)
        requires
            self.wf(),
            lifecycle is Removed || lifecycle is Tombstoned,
        ensures
            if self.image()@.outstanding.len() > 0 {
                r is Err && r->Err_0 == (StoreError::OutstandingRemain {
                    count: self.image()@.outstanding.len() as usize,
                })
            } else {
                &&& r is Ok
                &&& r->Ok_0.wf()
                &&& r->Ok_0.rules() == (PolicyView {
                    lifecycle,
                    poisoned: false,
                    ..self.image().rules()
                })
                &&& blank_application(r->Ok_0)
            },
    {
        if self.record.policy.outstanding.len() > 0 {
            return Err(
                StoreError::OutstandingRemain { count: self.record.policy.outstanding.len() },
            );
        }
        let mut staged = self.record.duplicate();
        staged.application = blank_snapshot(self.max_outstanding);
        staged.policy.lifecycle = lifecycle;
        staged.policy.poisoned = false;
        Ok(staged)
    }

    /// Stages the next incarnation, empty and serving.
    pub fn reopen(&self, quota: WorkQuota, max_sessions: usize) -> (r: Result<
        StoredRecord,
        StoreError,
    >)
        requires
            self.wf(),
            0 < max_sessions <= 1724,
        ensures
            if self.image().rules().incarnation@ == u32::MAX {
                r is Err && r->Err_0 == StoreError::Corrupt(Corruption::IncarnationExhausted)
            } else {
                &&& r is Ok
                &&& r->Ok_0.wf()
                &&& r->Ok_0.policy.incarnation@ == self.image().rules().incarnation@ + 1
                &&& r->Ok_0.rules() == (PolicyView {
                    incarnation: r->Ok_0.policy.incarnation,
                    lifecycle: GroupLifecycle::Serving,
                    poisoned: false,
                    quota,
                    outstanding: Map::empty(),
                    terminal: Map::empty(),
                })
                &&& blank_application(r->Ok_0)
            },
    {
        let Some(incarnation) = self.record.policy.incarnation.successor() else {
            return Err(StoreError::Corrupt(Corruption::IncarnationExhausted));
        };
        proof {
            use_type_invariant(&quota);
        }
        Ok(
            StoredRecord {
                policy: StoredPolicy {
                    incarnation,
                    lifecycle: GroupLifecycle::Serving,
                    poisoned: false,
                    quota,
                    outstanding: Table::new(),
                    terminal: Table::new(),
                },
                application: blank_snapshot(max_sessions),
            },
        )
    }

    /// Stages an application snapshot together with the release of every request it applied.
    pub fn commit_application(
        &self,
        application: ApplicationSnapshot,
        commands: &Vec<ReplicatedCounterCommand>,
    ) -> (r: StoredRecord)
        requires
            self.wf(),
            application.transfer_id is None,
        ensures
            r.wf(),
            r.rules() == (PolicyView {
                outstanding: released(
                    self.image().rules().outstanding,
                    commands@,
                    commands@.len(),
                ),
                ..self.image().rules()
            }),
            r.application == application,
    {
        let ghost start = self.record.rules();
        let mut staged = self.record.duplicate();
        staged.application = application;
        assert(staged.wf());
        let mut i: usize = 0;
        while i < commands.len()
            invariant
                i <= commands.len(),
                staged.wf(),
                staged.application == application,
                staged.rules() == (PolicyView {
                    outstanding: released(start.outstanding, commands@, i as nat),
                    ..start
                }),
            decreases commands.len() - i,
        {
            let ghost before = staged;
            if let ReplicatedCounterCommand::Counter { request, command } = commands[i] {
                let key: u64 = request.client_id.get() as u64;
                if let Some(outstanding) = staged.policy.outstanding.get(key) {
                    if outstanding.request == request && outstanding.command == command {
                        let _ = staged.policy.outstanding.remove(key);
                        proof {
                            lemma_released(before, staged);
                        }
                    }
                }
            }
            i = i + 1;
        }
        staged
    }
}

/// Operations of clients as the record takes them. It has rows for counter requests alone: a session
/// request takes no room, is always reserved anew, and leaves nothing to mark, fail or cancel.
impl ApplicationRecord {
    /// Reserves one operation before it is accepted. `Some` image is to be published.
    pub fn reserve_operation(&self, operation: AcceptedOperation) -> (r: Result<
        (ReserveOutcome, Option<StoredRecord>),
        StoreError,
    >)
        requires
            self.wf(),
            operation matches AcceptedOperation::Counter { request, command } ==> request.valid()
                && command.valid(),
        ensures
            match operation {
                AcceptedOperation::OpenSession { .. } => r == Ok::<
                    (ReserveOutcome, Option<StoredRecord>),
                    StoreError,
                >((ReserveOutcome::Reserved, None)),
                AcceptedOperation::Counter { request, command } => self.reserves(
                    request,
                    command,
                    r,
                ),
            },
    {
        match operation {
            AcceptedOperation::OpenSession { .. } => Ok((ReserveOutcome::Reserved, None)),
            AcceptedOperation::Counter { request, command } => self.reserve(request, command),
        }
    }

    /// Records that an accepted operation may have entered the driver. `Some` image is to be
    /// published.
    pub fn mark_operation_entered(&self, operation: AcceptedOperation) -> (r: Result<
        Option<StoredRecord>,
        StoreError,
    >)
        requires
            self.wf(),
        ensures
            match operation {
                AcceptedOperation::OpenSession { .. } => r == Ok::<
                    Option<StoredRecord>,
                    StoreError,
                >(None),
                AcceptedOperation::Counter { request, command } => self.enters_driver(
                    request,
                    command,
                    r,
                ),
            },
    {
        match operation {
            AcceptedOperation::OpenSession { .. } => Ok(None),
            AcceptedOperation::Counter { request, command } => self.mark_entered_driver(
                request,
                command,
            ),
        }
    }

    /// Stages the terminal refusal of an accepted operation. `Some` image is to be published.
    pub fn fail_operation(&self, operation: AcceptedOperation, failure: TerminalFailure) -> (r:
        Result<Option<StoredRecord>, StoreError>)
        requires
            self.wf(),
        ensures
            match operation {
                AcceptedOperation::OpenSession { .. } => r == Ok::<
                    Option<StoredRecord>,
                    StoreError,
                >(None),
                AcceptedOperation::Counter { request, command } => self.fails(
                    request,
                    command,
                    failure,
                    r,
                ),
            },
    {
        match operation {
            AcceptedOperation::OpenSession { .. } => Ok(None),
            AcceptedOperation::Counter { request, command } => self.fail_reservation(
                request,
                command,
                failure,
            ),
        }
    }

    /// Stages the release of an operation's exact reservation. `Some` image is to be published.
    pub fn cancel_operation(&self, operation: AcceptedOperation) -> (r: Option<StoredRecord>)
        requires
            self.wf(),
        ensures
            match operation {
                AcceptedOperation::OpenSession { .. } => r is None,
                AcceptedOperation::Counter { request, command } => self.cancels(
                    request,
                    command,
                    r,
                ),
            },
    {
        match operation {
            AcceptedOperation::OpenSession { .. } => None,
            AcceptedOperation::Counter { request, command } => self.cancel_reservation(
                request,
                command,
            ),
        }
    }

    /// Lists the operations that the record holds, in the order of their clients.
    pub fn outstanding_work(&self, group_id: GroupId, driver: bool) -> (r: Vec<OutstandingWork>)
        requires
            self.wf(),
        ensures
            r@ == recorded_work(self.image(), group_id, driver),
    {
        let policy = &self.record.policy;
        let mut work: Vec<OutstandingWork> = Vec::new();
        let ghost all = recorded_work(self.image(), group_id, driver);
        let mut i: usize = 0;
        while i < policy.outstanding.len()
            invariant
                i <= policy.outstanding.count(),
                self.wf(),
                *policy == self.image().policy,
                all == recorded_work(self.image(), group_id, driver),
                work@ == all.take(i as int),
            decreases policy.outstanding.count() - i,
        {
            let (_, found) = policy.outstanding.row(i);
            work.push(
                OutstandingWork {
                    group_id,
                    lifecycle: policy.lifecycle,
                    poisoned: policy.poisoned,
                    driver,
                    operation: AcceptedOperation::Counter {
                        request: found.request,
                        command: found.command,
                    },
                    phase: found.phase,
                },
            );
            i = i + 1;
            assert(work@ =~= all.take(i as int));
        }
        assert(all.take(i as int) =~= all);
        work
    }
}

/// Operations that an image holds, in the order of their clients.
pub open(crate) spec fn recorded_work(image: StoredRecord, group_id: GroupId, driver: bool) -> Seq<
    OutstandingWork,
> {
    let rows = image.policy.outstanding.all();
    Seq::new(
        rows.len(),
        |i: int|
            OutstandingWork {
                group_id,
                lifecycle: image.policy.lifecycle,
                poisoned: image.policy.poisoned,
                driver,
                operation: AcceptedOperation::Counter {
                    request: rows[i].value.request,
                    command: rows[i].value.command,
                },
                phase: rows[i].value.phase,
            },
    )
}

/// Commands of log entries, in order.
pub open spec fn entry_commands(entries: Seq<ApplyEntry>) -> Seq<ReplicatedCounterCommand> {
    entries.map_values(|entry: ApplyEntry| entry.command)
}

fn collect_commands(entries: &Vec<ApplyEntry>) -> (r: Vec<ReplicatedCounterCommand>)
    ensures
        r@ == entry_commands(entries@),
        r@.len() == entries@.len(),
{
    let mut commands: Vec<ReplicatedCounterCommand> = Vec::new();
    let mut i: usize = 0;
    while i < entries.len()
        invariant
            i <= entries.len(),
            commands@ == entry_commands(entries@).take(i as int),
        decreases entries.len() - i,
    {
        commands.push(entries[i].command);
        i = i + 1;
        assert(commands@ =~= entry_commands(entries@).take(i as int));
    }
    assert(entry_commands(entries@).take(i as int) =~= entry_commands(entries@));
    commands
}

/// A staged batch: the state machine and the image once the batch is durable, and its results.
#[derive(Debug)]
pub struct StagedBatch {
    /// State machine to adopt.
    pub machine: CounterStateMachine,
    /// Results to report.
    pub results: Vec<ApplyResult>,
    /// Image to publish first.
    pub record: StoredRecord,
}

/// Counter state machine whose successful mutations are durable before they are adopted.
#[derive(Debug)]
pub struct DurableCounterStateMachine {
    /// Adopted state machine.
    inner: CounterStateMachine,
}

impl DurableCounterStateMachine {
    /// The adopted state machine.
    pub closed spec fn machine(self) -> CounterStateMachine {
        self.inner
    }

    /// Takes over a restored state machine.
    pub fn new(inner: CounterStateMachine) -> (r: Self)
        ensures
            r.machine() == inner,
    {
        Self { inner }
    }

    /// Returns a complete read-only view of snapshot-relevant state.
    pub fn view(&self) -> (r: CounterStateView)
        ensures
            r.applied_index == self.machine().replica().applied_index,
            r.value == self.machine().replica().value,
            r.sessions@ == self.machine().replica().sessions,
    {
        self.inner.view()
    }

    /// Returns the adopted state machine.
    pub fn inner(&self) -> (r: &CounterStateMachine)
        ensures
            *r == self.machine(),
    {
        &self.inner
    }

    #[verifier::spinoff_prover]
    #[verifier::rlimit(60)]
    /// Stages committed entries. Nothing is adopted: a batch that fails, or whose image cannot be
    /// published, leaves everything as it was.
    pub fn apply_batch(&self, record: &ApplicationRecord, entries: Vec<ApplyEntry>) -> (r: Result<
        StagedBatch,
        StoreError,
    >)
        requires
            self.machine().wf(),
            record.wf(),
            forall|i: int| 0 <= i < entries@.len() ==> (#[trigger] entries@[i]).command.valid(),
        ensures
            ({
                let s = self.machine().replica();
                let n = s.failing(entries@, entries@.len());
                let after = s.after(entries@, n);
                if n < entries@.len() {
                    &&& r is Err
                    &&& s.after(entries@, n).result(entries@[n as int].command) is Err
                    &&& r->Err_0 == StoreError::Counter(
                        s.after(entries@, n).result(entries@[n as int].command)->Err_0,
                    )
                } else {
                    &&& r is Ok
                    &&& r->Ok_0.machine.wf()
                    &&& r->Ok_0.machine.replica() == after
                    &&& r->Ok_0.machine.promoted() == self.machine().promoted()
                    &&& r->Ok_0.results@ == Seq::new(entries@.len(), |i: int| s.reported(entries@, i))
                    &&& r->Ok_0.record.wf()
                    &&& r->Ok_0.record@.applied_index == after.applied_index
                    &&& r->Ok_0.record@.payload == snapshot_bytes(
                        after.applied_index,
                        after.value,
                        after.sessions,
                    )
                    &&& r->Ok_0.record.rules() == (PolicyView {
                        outstanding: released(
                            record.image().rules().outstanding,
                            entry_commands(entries@),
                            entries@.len(),
                        ),
                        ..record.image().rules()
                    })
                }
            }),
    {
        let ghost s = self.inner.replica();
        proof {
            lemma_failing_bound(s, entries@, entries@.len());
        }
        let commands = collect_commands(&entries);
        let mut staged = self.inner.duplicate();
        match staged.apply_batch(entries) {
            Err(error) => Err(StoreError::Counter(error)),
            Ok(results) => {
                assert(results@ =~= Seq::new(entries@.len(), |i: int| s.reported(entries@, i)));
                let at: u64 = staged.applied_index();
                match staged.build_snapshot(at) {
                    Err(error) => Err(StoreError::Counter(error)),
                    Ok(application) => {
                        let image = record.commit_application(application, &commands);
                        Ok(StagedBatch { machine: staged, results, record: image })
                    },
                }
            },
        }
    }

    /// Stages a snapshot installation.
    pub fn install_snapshot(&self, record: &ApplicationRecord, snapshot: ApplicationSnapshot) -> (r:
        Result<(CounterStateMachine, StoredRecord), StoreError>)
        requires
            self.machine().wf(),
            record.wf(),
        ensures
            match self.machine().installed(snapshot) {
                Err(error) => r is Err && r->Err_0 == StoreError::Counter(error),
                Ok(replica) => {
                    &&& r is Ok
                    &&& r->Ok_0.0.wf()
                    &&& r->Ok_0.0.replica() == replica
                    &&& r->Ok_0.0.promoted() == self.machine().promoted()
                    &&& r->Ok_0.1.wf()
                    &&& r->Ok_0.1.rules() == record.image().rules()
                    &&& r->Ok_0.1@.applied_index == replica.applied_index
                    &&& r->Ok_0.1@.payload == snapshot_bytes(
                        replica.applied_index,
                        replica.value,
                        replica.sessions,
                    )
                },
            },
    {
        let mut staged = self.inner.duplicate();
        if let Err(error) = staged.install_snapshot(snapshot) {
            return Err(StoreError::Counter(error));
        }
        let at: u64 = staged.applied_index();
        let commands: Vec<ReplicatedCounterCommand> = Vec::new();
        match staged.build_snapshot(at) {
            Err(error) => Err(StoreError::Counter(error)),
            Ok(application) => {
                let image = record.commit_application(application, &commands);
                Ok((staged, image))
            },
        }
    }

    /// Registers a payload promoted by the snapshot store.
    pub fn register_promoted(&mut self, snapshot: &RaftSnapshot, payload: Vec<u8>) -> (r: Result<
        (),
        StoreError,
    >)
        ensures
            final(self).machine().replica() == old(self).machine().replica(),
            if payload@.len() == declared_length(*snapshot) {
                r is Ok && final(self).machine().promoted() == old(self).machine().promoted().insert(
                    transfer_of(*snapshot),
                    payload@,
                )
            } else {
                r is Err && r->Err_0 == StoreError::Counter(
                    CounterStateMachineError::SnapshotPayloadLengthMismatch,
                ) && final(self).machine().promoted() == old(self).machine().promoted()
            },
    {
        match self.inner.register_promoted_snapshot(snapshot, payload) {
            Ok(()) => Ok(()),
            Err(error) => Err(StoreError::Counter(error)),
        }
    }

    /// Adopts a state machine once its image is durably published.
    pub fn adopt(&mut self, machine: CounterStateMachine)
        ensures
            final(self).machine() == machine,
    {
        self.inner = machine;
    }
}

/// Returns the length of the next piece of a promoted payload, which ends where the payload does.
pub fn next_chunk(total: u64, offset: u64) -> (r: Option<u32>)
    ensures
        r == if offset >= total {
            None
        } else if total - offset < SNAPSHOT_READ_CHUNK {
            Some((total - offset) as u32)
        } else {
            Some(SNAPSHOT_READ_CHUNK)
        },
{
    if offset >= total {
        return None;
    }
    let remaining: u64 = total - offset;
    if remaining < SNAPSHOT_READ_CHUNK as u64 {
        Some(remaining as u32)
    } else {
        Some(SNAPSHOT_READ_CHUNK)
    }
}

// ---------------------------------------------------------------------- laws

/// An accepted request of a poisoned group is refused for good: the refusal survives retirement,
/// and only a new incarnation clears it.
pub proof fn law_poison_refusals_survive_retirement(
    rules: PolicyView,
    lifecycle: GroupLifecycle,
    key: u64,
)
    requires
        rules.outstanding.contains_key(key),
    ensures
        ({
            let refused = PolicyView {
                outstanding: Map::empty(),
                terminal: poisoned_refusals(rules.outstanding, rules.terminal),
                ..rules
            };
            let retired = PolicyView { lifecycle, poisoned: false, ..refused };
            &&& retired.terminal.contains_key(key)
            &&& retired.terminal[key].request == rules.outstanding[key].request
            &&& retired.terminal[key].command == rules.outstanding[key].command
            &&& retired.terminal[key].failure == poisoned_failure(rules.outstanding[key].phase)
            &&& !retired.outstanding.contains_key(key)
        }),
{
}

/// A cancelled reservation leaves no trace: the record states what it stated before.
pub proof fn law_cancelled_reservation_leaves_no_trace(
    before: StoredRecord,
    reserved: StoredRecord,
    cancelled: StoredRecord,
    item: OutstandingRequest,
)
    requires
        !before.rules().outstanding.contains_key(client_row(item.request)),
        staged(
            reserved,
            before,
            PolicyView {
                outstanding: before.rules().outstanding.insert(client_row(item.request), item),
                ..before.rules()
            },
        ),
        staged(
            cancelled,
            reserved,
            PolicyView {
                outstanding: reserved.rules().outstanding.remove(client_row(item.request)),
                ..reserved.rules()
            },
        ),
    ensures
        cancelled.rules() == before.rules(),
        same_application(cancelled, before),
{
    assert(before.rules().outstanding.insert(client_row(item.request), item).remove(
        client_row(item.request),
    ) =~= before.rules().outstanding);
}

/// A reserved request is recognised from then on, every other operation of its client is in
/// conflict with it, and what is recorded for other clients stays.
pub proof fn law_reserved_request_is_recognised(
    before: StoredRecord,
    reserved: StoredRecord,
    item: OutstandingRequest,
    other: AcceptedOperation,
)
    requires
        !before.rules().outstanding.contains_key(client_row(item.request)),
        !before.rules().terminal.contains_key(client_row(item.request)),
        staged(
            reserved,
            before,
            PolicyView {
                outstanding: before.rules().outstanding.insert(client_row(item.request), item),
                ..before.rules()
            },
        ),
        other != (AcceptedOperation::Counter { request: item.request, command: item.command }),
    ensures
        recorded_state(
            reserved.rules(),
            AcceptedOperation::Counter { request: item.request, command: item.command },
        ) == (DurableOperationState::ExactOutstanding { phase: item.phase }),
        other.client_id() == item.request.client_id ==> recorded_state(reserved.rules(), other)
            == DurableOperationState::ConflictingOutstanding,
        other.client_id() != item.request.client_id ==> recorded_state(reserved.rules(), other)
            == recorded_state(before.rules(), other),
{
}

/// A request that failed for good is recognised as failed, with the failure it was given, and every
/// other operation of its client is in conflict with it.
pub proof fn law_failed_request_is_recognised(
    before: StoredRecord,
    failed: StoredRecord,
    refusal: TerminalRequest,
    other: AcceptedOperation,
)
    requires
        staged(
            failed,
            before,
            PolicyView {
                outstanding: before.rules().outstanding.remove(client_row(refusal.request)),
                terminal: before.rules().terminal.insert(client_row(refusal.request), refusal),
                ..before.rules()
            },
        ),
        other != (AcceptedOperation::Counter { request: refusal.request, command: refusal.command }),
    ensures
        recorded_state(
            failed.rules(),
            AcceptedOperation::Counter { request: refusal.request, command: refusal.command },
        ) == (DurableOperationState::ExactTerminal { failure: refusal.failure }),
        other.client_id() == refusal.request.client_id ==> recorded_state(failed.rules(), other)
            == DurableOperationState::ConflictingTerminal,
        other.client_id() != refusal.request.client_id ==> recorded_state(failed.rules(), other)
            == recorded_state(before.rules(), other),
{
}

/// An exact command that was applied releases its reservation, and no other client's.
pub proof fn law_applied_command_releases_its_reservation(
    outstanding: Map<u64, OutstandingRequest>,
    request: RequestIdentity,
    command: CounterCommand,
    other: u64,
)
    requires
        outstanding.contains_key(client_row(request)),
        outstanding[client_row(request)].request == request,
        outstanding[client_row(request)].command == command,
        other != client_row(request),
    ensures
        ({
            let commands = seq![ReplicatedCounterCommand::Counter { request, command }];
            let after = released(outstanding, commands, 1);
            &&& !after.contains_key(client_row(request))
            &&& after.contains_key(other) == outstanding.contains_key(other)
            &&& outstanding.contains_key(other) ==> after[other] == outstanding[other]
        }),
{
    let commands = seq![ReplicatedCounterCommand::Counter { request, command }];
    reveal_with_fuel(released, 2);
    assert(commands[0] == ReplicatedCounterCommand::Counter { request, command });
}

/// The image a batch stages restores to the replica the batch left: a restart sees exactly what
/// was applied.
pub proof fn law_staged_image_restores_the_replica(record: StoredRecord, s: Replica)
    requires
        s.wf(),
        record@.applied_index == s.applied_index,
        record@.payload == snapshot_bytes(s.applied_index, s.value, s.sessions),
    ensures
        restores(record, s.max_sessions) == Ok::<Replica, CounterStateMachineError>(s),
{
    law_snapshots_round_trip(s.applied_index, s.value, s.sessions, s.max_sessions);
}

} // verus!
