//! Mathematical model of the managed scheduler: its state and its transitions.

use vstd::prelude::*;

use crate::types::{
    counter_after, counter_result, fingerprint_of, AdmissionOutcome, AdmissionRejection, ClientId,
    CounterCommand, CounterResult, FailureRecord, GroupAvailability, GroupId, GroupIncarnation,
    GroupLifecycle, GroupView, LifecycleOutcome, LifecycleRejection, LifecycleRequest, Offer,
    OfferOutcome, PassIndex, PassProgress, PassSuspension, ReadinessSignal, RequestFingerprint,
    RequestIdentity, SchedulerConfig, Sequence, ServiceRecord, SessionEpoch, SessionOutcome,
    SkipReason, TickIndex, Work, WorkClass, WorkFailure, WorkId, WorkQuota,
};

verus! {

/// One admitted item waiting for its group's turn.
#[derive(Clone, Copy, Debug, Eq, PartialEq, Structural)]
pub struct QueuedWork {
    /// Identifier issued at admission.
    pub id: WorkId,
    /// Exact work that was admitted.
    pub work: Work,
}

/// A request that holds a queue slot.
#[derive(Clone, Copy, Debug, Eq, PartialEq, Structural)]
pub struct Outstanding {
    /// Sequence of the request.
    pub sequence: Sequence,
    /// Exact command of the request.
    pub command: CounterCommand,
    /// Item that holds the queue slot.
    pub work: WorkId,
}

/// A request that has been serviced.
#[derive(Clone, Copy, Debug, Eq, PartialEq, Structural)]
pub struct Completed {
    /// Sequence of the request.
    pub sequence: Sequence,
    /// Exact command of the request.
    pub command: CounterCommand,
    /// Result the command produced.
    pub result: CounterResult,
}

/// One client's deduplication state within one group: at most one outstanding request and at most
/// one completed one.
#[derive(Clone, Copy, Debug, Eq, PartialEq, Structural)]
pub struct Session {
    /// Client slot the session belongs to.
    pub client_id: ClientId,
    /// Active session generation.
    pub epoch: SessionEpoch,
    /// Request that holds a queue slot.
    pub outstanding: Option<Outstanding>,
    /// Highest completed request.
    pub completed: Option<Completed>,
}

/// One worker holding a group's opportunity until its cost is paid.
#[derive(Clone, Copy, Debug, Eq, PartialEq, Structural)]
pub struct Dispatch {
    /// Group that was dispatched.
    pub group: GroupId,
    /// Tick at which the worker comes free.
    pub busy_until: TickIndex,
}

/// A group's accepted work: one first-in first-out queue per class.
#[verifier::ext_equal]
pub struct ClassQueues {
    /// Heartbeat and election traffic.
    pub control: Seq<QueuedWork>,
    /// Client counter commands.
    pub command: Seq<QueuedWork>,
    /// Snapshot pressure.
    pub snapshot: Seq<QueuedWork>,
    /// Bulk replication.
    pub bulk: Seq<QueuedWork>,
}

impl ClassQueues {
    /// No work at all.
    pub open spec fn empty() -> Self {
        ClassQueues {
            control: Seq::empty(),
            command: Seq::empty(),
            snapshot: Seq::empty(),
            bulk: Seq::empty(),
        }
    }

    /// Every queued item in the order a group services them.
    pub open spec fn service_order(self) -> Seq<QueuedWork> {
        self.control + self.command + self.snapshot + self.bulk
    }

    /// Number of queued items.
    pub open spec fn len(self) -> nat {
        self.control.len() + self.command.len() + self.snapshot.len() + self.bulk.len()
    }

    /// The queue one class waits in.
    pub open spec fn of_class(self, class: WorkClass) -> Seq<QueuedWork> {
        match class {
            WorkClass::Control => self.control,
            WorkClass::Command => self.command,
            WorkClass::Snapshot => self.snapshot,
            WorkClass::Bulk => self.bulk,
        }
    }

    /// The queues with `item` behind everything of its own class.
    pub open spec fn push(self, item: QueuedWork) -> Self {
        match item.work.class() {
            WorkClass::Control => ClassQueues { control: self.control.push(item), ..self },
            WorkClass::Command => ClassQueues { command: self.command.push(item), ..self },
            WorkClass::Snapshot => ClassQueues { snapshot: self.snapshot.push(item), ..self },
            WorkClass::Bulk => ClassQueues { bulk: self.bulk.push(item), ..self },
        }
    }

    /// The item serviced next: the oldest one of the least class that holds any.
    pub open spec fn head(self) -> QueuedWork {
        if self.control.len() > 0 {
            self.control[0]
        } else if self.command.len() > 0 {
            self.command[0]
        } else if self.snapshot.len() > 0 {
            self.snapshot[0]
        } else {
            self.bulk[0]
        }
    }

    /// The queues once their head has been taken.
    pub open spec fn pop(self) -> Self {
        if self.control.len() > 0 {
            ClassQueues { control: self.control.drop_first(), ..self }
        } else if self.command.len() > 0 {
            ClassQueues { command: self.command.drop_first(), ..self }
        } else if self.snapshot.len() > 0 {
            ClassQueues { snapshot: self.snapshot.drop_first(), ..self }
        } else {
            ClassQueues { bulk: self.bulk.drop_first(), ..self }
        }
    }
}

/// The head is the first item in service order, and taking it leaves the rest in order.
pub proof fn lemma_service_order(queue: ClassQueues)
    ensures
        queue.service_order().len() == queue.len(),
        queue.len() > 0 ==> {
            &&& queue.head() == queue.service_order()[0]
            &&& queue.pop().service_order() == queue.service_order().drop_first()
        },
{
    if queue.len() > 0 {
        assert(queue.pop().service_order() =~= queue.service_order().drop_first());
    }
}

/// One group slot.
#[verifier::ext_equal]
pub struct GroupState {
    /// Current incarnation.
    pub incarnation: GroupIncarnation,
    /// Current lifecycle state.
    pub state: GroupLifecycle,
    /// Whether the group's own work has poisoned it.
    pub poisoned: bool,
    /// Whether an external readiness signal is holding the group back.
    pub stalled: bool,
    /// Whether a worker is held on the group's behalf.
    pub servicing: bool,
    /// Counter value.
    pub counter: i64,
    /// Work quota for this incarnation.
    pub quota: WorkQuota,
    /// Accepted work.
    pub queue: ClassQueues,
    /// Client sessions, in the order they were opened.
    pub sessions: Seq<Session>,
}

/// `i` is the first position whose session belongs to `client`.
pub open spec fn is_session_of(sessions: Seq<Session>, client: ClientId, i: int) -> bool {
    &&& 0 <= i < sessions.len()
    &&& sessions[i].client_id == client
    &&& forall|j: int| 0 <= j < i ==> sessions[j].client_id != client
}

/// Position of the session `client` holds, if any.
pub open spec fn find_session(sessions: Seq<Session>, client: ClientId) -> Option<int> {
    if exists|i: int| is_session_of(sessions, client, i) {
        Some(choose|i: int| is_session_of(sessions, client, i))
    } else {
        None
    }
}

/// A session position is unique.
pub proof fn lemma_session_found(sessions: Seq<Session>, client: ClientId, i: int)
    requires
        is_session_of(sessions, client, i),
    ensures
        find_session(sessions, client) == Some(i),
{
    let j = choose|j: int| is_session_of(sessions, client, j);
    assert(is_session_of(sessions, client, j));
    assert(i == j);
}

/// The session's cache after one of its items was serviced.
///
/// The cache belongs to the epoch that admitted the request: a session replaced while the item
/// waited has no claim on the result.
pub open spec fn settle_session(
    sessions: Seq<Session>,
    request: RequestIdentity,
    command: CounterCommand,
    id: WorkId,
    result: CounterResult,
) -> Seq<Session> {
    match find_session(sessions, request.client_id) {
        Some(i) => if sessions[i].epoch == request.session_epoch && (sessions[i].outstanding matches
            Some(queued) && queued.work == id) {
            sessions.update(
                i,
                Session {
                    outstanding: None,
                    completed: Some(Completed { sequence: request.sequence, command, result }),
                    ..sessions[i]
                },
            )
        } else {
            sessions
        },
        None => sessions,
    }
}

impl GroupState {
    /// The slot right after its creation under `incarnation`.
    pub open spec fn fresh(incarnation: GroupIncarnation, quota: WorkQuota) -> Self {
        GroupState {
            incarnation,
            state: GroupLifecycle::Creating,
            poisoned: false,
            stalled: false,
            servicing: false,
            counter: 0,
            quota,
            queue: ClassQueues::empty(),
            sessions: Seq::empty(),
        }
    }

    /// Whether the group would take a turn if it were offered one.
    pub open spec fn is_ready(self) -> bool {
        &&& self.state.is_serviceable()
        &&& !self.poisoned
        &&& !self.stalled
        &&& !self.servicing
        &&& self.queue.len() > 0
    }

    /// The slot without anything a removed slot must not keep. The worker it may still hold is
    /// physical and stays held.
    pub open spec fn cleared(self) -> Self {
        GroupState {
            counter: 0,
            sessions: Seq::empty(),
            queue: ClassQueues::empty(),
            poisoned: false,
            stalled: false,
            ..self
        }
    }

    /// The group once `item` has been applied.
    pub open spec fn applied(self, item: QueuedWork) -> Self {
        match item.work {
            Work::System { .. } => self,
            Work::Faulty { .. } => GroupState { poisoned: true, ..self },
            Work::Counter { request, command, .. } => GroupState {
                counter: counter_after(self.counter, command),
                sessions: settle_session(
                    self.sessions,
                    request,
                    command,
                    item.id,
                    counter_result(self.counter, command),
                ),
                ..self
            },
        }
    }

    /// What servicing `item` reports.
    pub open spec fn record_of(self, group: GroupId, item: QueuedWork) -> ServiceRecord {
        ServiceRecord {
            work: item.id,
            group,
            class: item.work.class(),
            result: match item.work {
                Work::Counter { command, .. } => Some(counter_result(self.counter, command)),
                _ => None,
            },
        }
    }

    /// The group after its first `n` items in service order were serviced.
    pub open spec fn served(self, n: nat) -> Self
        decreases n,
    {
        if n == 0 {
            self
        } else {
            let before = self.served((n - 1) as nat);
            (GroupState { queue: before.queue.pop(), ..before }).applied(before.queue.head())
        }
    }

    /// What servicing the first `n` items reports, in order.
    pub open spec fn served_records(self, group: GroupId, n: nat) -> Seq<ServiceRecord>
        decreases n,
    {
        if n == 0 {
            Seq::empty()
        } else {
            let before = self.served((n - 1) as nat);
            self.served_records(group, (n - 1) as nat).push(
                before.record_of(group, before.queue.head()),
            )
        }
    }

    /// Exact worker occupancy of the first `n` items.
    pub open spec fn served_cost(self, n: nat) -> nat
        decreases n,
    {
        if n == 0 {
            0
        } else {
            let before = self.served((n - 1) as nat);
            self.served_cost((n - 1) as nat) + before.queue.head().work.cost()@ as nat
        }
    }

    /// Whether a turn that has serviced `n` items ends there: the quota is spent, the queue is
    /// empty, or the group's own work has just poisoned it.
    pub open spec fn turn_ends(self, n: nat) -> bool {
        ||| n >= self.quota@
        ||| self.served(n).queue.len() == 0
        ||| n > 0 && self.served(n).poisoned
    }

    /// Least number of items, at least `n`, at which a turn ends.
    pub open spec fn turn_len_from(self, n: nat) -> nat
        decreases self.quota@ - n,
    {
        if self.turn_ends(n) {
            n
        } else {
            self.turn_len_from(n + 1)
        }
    }

    /// Number of items one turn services.
    pub open spec fn turn_len(self) -> nat {
        self.turn_len_from(0)
    }
}

/// A pass in progress: groups owed a turn in order, and how many have been offered theirs.
#[verifier::ext_equal]
pub struct PlanState {
    /// Pass the plan belongs to.
    pub pass: PassIndex,
    /// Groups owed a turn, in offer order.
    pub entries: Seq<GroupId>,
    /// Number of entries already offered.
    pub next: nat,
}

/// The scheduler's whole state.
#[verifier::ext_equal]
pub struct SchedulerState {
    /// Configured bounds.
    pub config: SchedulerConfig,
    /// Slots by identifier; a slot that was never created is absent or `None`.
    pub slots: Seq<Option<GroupState>>,
    /// Workers, each free or holding a dispatch.
    pub workers: Seq<Option<Dispatch>>,
    /// Pass in progress, when one is.
    pub plan: Option<PlanState>,
    /// Ticks taken so far.
    pub tick: u64,
    /// Index the next armed pass will carry.
    pub next_pass: PassIndex,
    /// Identifier the next admitted item will carry.
    pub next_work: u64,
    /// Identifier the next pass starts from.
    pub cursor: u32,
    /// Items queued across every group.
    pub queued: nat,
    /// Items admitted so far.
    pub admitted: nat,
    /// Items serviced so far.
    pub serviced: nat,
    /// Items retired without service so far.
    pub failed: nat,
}

/// Identifiers in `[lo, hi)` that satisfy `pred`, ascending.
pub open(crate) spec fn ids_where(lo: int, hi: int, pred: spec_fn(int) -> bool) -> Seq<GroupId>
    decreases hi - lo,
{
    if hi <= lo {
        Seq::empty()
    } else {
        let rest = ids_where(lo, hi - 1, pred);
        if pred(hi - 1) {
            rest.push(GroupId::at(hi - 1))
        } else {
            rest
        }
    }
}

/// First free worker at or after `from`.
pub open spec fn first_free(workers: Seq<Option<Dispatch>>, from: int) -> Option<int>
    decreases workers.len() - from,
{
    if from < 0 || from >= workers.len() {
        None
    } else if workers[from] is None {
        Some(from)
    } else {
        first_free(workers, from + 1)
    }
}

/// `left + right`, held at the numeric maximum.
pub open spec fn saturating_sum(left: u64, right: nat) -> u64 {
    if left + right > u64::MAX {
        u64::MAX
    } else {
        (left + right) as u64
    }
}

/// Everything one tick did, as the report states it.
#[verifier::ext_equal]
pub struct ReportState {
    /// Tick the report describes.
    pub tick: u64,
    /// Pass the tick advanced.
    pub pass: Option<PassIndex>,
    /// Plan armed during the tick.
    pub armed: Option<Seq<GroupId>>,
    /// Turns taken, in order.
    pub offers: Seq<Offer>,
    /// Work serviced, in order.
    pub serviced: Seq<ServiceRecord>,
    /// Groups whose worker came free, ascending.
    pub released: Seq<GroupId>,
    /// What the tick did to the pass.
    pub progress: PassProgress,
}

/// How one counter submission is answered by its client session: `None` lets it proceed to the
/// queue bounds as new work.
pub open spec fn session_answer(
    session: Session,
    request: RequestIdentity,
    command: CounterCommand,
) -> Option<AdmissionOutcome> {
    if request.session_epoch@ < session.epoch@ {
        Some(
            AdmissionOutcome::Rejected(AdmissionRejection::StaleSession { current: session.epoch }),
        )
    } else if request.session_epoch@ > session.epoch@ {
        Some(
            AdmissionOutcome::Rejected(
                AdmissionRejection::FutureSession { current: session.epoch },
            ),
        )
    } else if request.fingerprint@ != fingerprint_of(command) {
        Some(AdmissionOutcome::Rejected(fingerprint_mismatch(command)))
    } else if session.completed is Some && request.sequence@ < session.completed->0.sequence@ {
        Some(
            AdmissionOutcome::Rejected(
                AdmissionRejection::StaleSequence { highest: session.completed->0.sequence },
            ),
        )
    } else if session.completed is Some && request.sequence == session.completed->0.sequence {
        Some(
            if command == session.completed->0.command {
                AdmissionOutcome::Replayed { result: session.completed->0.result }
            } else {
                AdmissionOutcome::Rejected(AdmissionRejection::ConflictingRetry)
            },
        )
    } else if session.outstanding is Some && request.sequence == session.outstanding->0.sequence {
        Some(
            if command == session.outstanding->0.command {
                AdmissionOutcome::AlreadyQueued { work: session.outstanding->0.work }
            } else {
                AdmissionOutcome::Rejected(AdmissionRejection::ConflictingRetry)
            },
        )
    } else if request.sequence@ != next_sequence(session) {
        Some(AdmissionOutcome::Rejected(sequence_gap(session)))
    } else {
        None
    }
}

/// Sequence the session accepts next: one past the highest completed, or the first.
pub open spec fn next_sequence(session: Session) -> int {
    match session.completed {
        Some(completed) => completed.sequence@ + 1,
        None => 1,
    }
}

/// Refusal naming the sequence the session accepts next.
pub open(crate) spec fn sequence_gap(session: Session) -> AdmissionRejection {
    AdmissionRejection::SequenceGap { expected: Sequence(next_sequence(session) as u64) }
}

/// Refusal naming the digest that does describe `command`.
pub open(crate) spec fn fingerprint_mismatch(command: CounterCommand) -> AdmissionRejection {
    AdmissionRejection::FingerprintMismatch {
        expected: RequestFingerprint(fingerprint_of(command)),
    }
}

/// Failure records a poisoned group's queue leaves as, in service order.
pub open spec fn failure_records(group: GroupId, items: Seq<QueuedWork>) -> Seq<FailureRecord> {
    Seq::new(
        items.len(),
        |i: int|
            FailureRecord { work: items[i].id, group, reason: WorkFailure::GroupPoisoned },
    )
}

/// The sessions with nothing outstanding.
pub open spec fn abandoned(sessions: Seq<Session>) -> Seq<Session> {
    Seq::new(sessions.len(), |i: int| Session { outstanding: None, ..sessions[i] })
}

impl SchedulerState {
    /// The slot `group` names, if it was ever created.
    pub open spec fn slot(self, group: GroupId) -> Option<GroupState> {
        if group@ < self.slots.len() {
            self.slots[group@ as int]
        } else {
            None
        }
    }

    /// The state with `group`'s slot replaced.
    pub open spec fn with_slot(self, group: GroupId, slot: GroupState) -> Self {
        SchedulerState { slots: self.slots.update(group@ as int, Some(slot)), ..self }
    }

    /// Whether slot `id` is created and ready.
    pub open spec fn ready(self, id: int) -> bool {
        0 <= id < self.slots.len() && self.slots[id] is Some && self.slots[id]->0.is_ready()
    }

    /// The ready set, ascending.
    pub open(crate) spec fn ready_ids(self) -> Seq<GroupId> {
        ids_where(0, self.slots.len() as int, |id: int| self.ready(id))
    }

    /// The ready set in the order a pass armed now would offer it: ascending from the cursor, then
    /// around to the identifiers below it.
    pub open(crate) spec fn plan_order(self) -> Seq<GroupId> {
        ids_where(self.cursor as int, self.slots.len() as int, |id: int| self.ready(id))
            + ids_where(
            0,
            if self.cursor < self.slots.len() {
                self.cursor as int
            } else {
                self.slots.len() as int
            },
            |id: int| self.ready(id),
        )
    }

    /// The scheduler before anything happened.
    pub open(crate) spec fn initial(config: SchedulerConfig) -> Self {
        SchedulerState {
            config,
            slots: Seq::empty(),
            workers: Seq::new(config.workers_bound() as nat, |i: int| None),
            plan: None,
            tick: 0,
            next_pass: PassIndex::at(1),
            next_work: 1,
            cursor: 0,
            queued: 0,
            admitted: 0,
            serviced: 0,
            failed: 0,
        }
    }

    // ---------------------------------------------------------------- lifecycle

    /// The slot table grown to hold `group`.
    pub open spec fn grown(self, group: GroupId) -> Self {
        if group@ < self.slots.len() {
            self
        } else {
            SchedulerState {
                slots: Seq::new(
                    (group@ + 1) as nat,
                    |i: int| if i < self.slots.len() { self.slots[i] } else { None },
                ),
                ..self
            }
        }
    }

    /// Creation of a slot, or its reopening under the next incarnation.
    pub open(crate) spec fn create(self, group: GroupId, quota: WorkQuota) -> (
        Self,
        LifecycleOutcome,
    ) {
        let grown = self.grown(group);
        match grown.slots[group@ as int] {
            None => (
                grown.with_slot(group, GroupState::fresh(GroupIncarnation(1), quota)),
                LifecycleOutcome::Created { incarnation: GroupIncarnation(1) },
            ),
            Some(slot) => match slot.state {
                GroupLifecycle::Creating => (
                    grown,
                    if slot.quota == quota {
                        LifecycleOutcome::Idempotent {
                            state: slot.state,
                            incarnation: slot.incarnation,
                        }
                    } else {
                        LifecycleOutcome::Rejected(
                            LifecycleRejection::QuotaConflict { current: slot.quota },
                        )
                    },
                ),
                GroupLifecycle::Removed => if slot.incarnation@ == u32::MAX {
                    (
                        grown,
                        LifecycleOutcome::Rejected(LifecycleRejection::IncarnationExhausted),
                    )
                } else {
                    let next = GroupIncarnation((slot.incarnation@ + 1) as u32);
                    (
                        grown.with_slot(
                            group,
                            GroupState {
                                incarnation: next,
                                state: GroupLifecycle::Creating,
                                quota,
                                ..slot
                            }.cleared(),
                        ),
                        LifecycleOutcome::Created { incarnation: next },
                    )
                },
                GroupLifecycle::Tombstoned => (
                    grown,
                    LifecycleOutcome::Rejected(LifecycleRejection::GroupTombstoned),
                ),
                current => (
                    grown,
                    LifecycleOutcome::Rejected(
                        LifecycleRejection::Conflict {
                            current,
                            requested: GroupLifecycle::Creating,
                        },
                    ),
                ),
            },
        }
    }

    /// A transition that has exactly one legal predecessor.
    pub open spec fn advance(self, group: GroupId, from: GroupLifecycle, to: GroupLifecycle) -> (
        Self,
        LifecycleOutcome,
    ) {
        match self.slot(group) {
            None => (self, LifecycleOutcome::Rejected(LifecycleRejection::GroupUnknown)),
            Some(slot) => if slot.state == to {
                (self, LifecycleOutcome::Idempotent { state: to, incarnation: slot.incarnation })
            } else if slot.state == GroupLifecycle::Tombstoned {
                (self, LifecycleOutcome::Rejected(LifecycleRejection::GroupTombstoned))
            } else if slot.state != from {
                (
                    self,
                    LifecycleOutcome::Rejected(
                        LifecycleRejection::Conflict { current: slot.state, requested: to },
                    ),
                )
            } else {
                (
                    self.with_slot(group, GroupState { state: to, ..slot }),
                    LifecycleOutcome::Applied { from, to, incarnation: slot.incarnation },
                )
            },
        }
    }

    /// Draining, which three states may enter.
    pub open spec fn drain(self, group: GroupId) -> (Self, LifecycleOutcome) {
        match self.slot(group) {
            None => (self, LifecycleOutcome::Rejected(LifecycleRejection::GroupUnknown)),
            Some(slot) => match slot.state {
                GroupLifecycle::Draining => (
                    self,
                    LifecycleOutcome::Idempotent {
                        state: GroupLifecycle::Draining,
                        incarnation: slot.incarnation,
                    },
                ),
                GroupLifecycle::Tombstoned => (
                    self,
                    LifecycleOutcome::Rejected(LifecycleRejection::GroupTombstoned),
                ),
                GroupLifecycle::Removed => (
                    self,
                    LifecycleOutcome::Rejected(
                        LifecycleRejection::Conflict {
                            current: GroupLifecycle::Removed,
                            requested: GroupLifecycle::Draining,
                        },
                    ),
                ),
                current => (
                    self.with_slot(group, GroupState { state: GroupLifecycle::Draining, ..slot }),
                    LifecycleOutcome::Applied {
                        from: current,
                        to: GroupLifecycle::Draining,
                        incarnation: slot.incarnation,
                    },
                ),
            },
        }
    }

    /// Removal, which cannot outrun the queue.
    pub open spec fn remove(self, group: GroupId) -> (Self, LifecycleOutcome) {
        match self.slot(group) {
            None => (self, LifecycleOutcome::Rejected(LifecycleRejection::GroupUnknown)),
            Some(slot) => if slot.state == GroupLifecycle::Draining && slot.queue.len() > 0 {
                (
                    self,
                    LifecycleOutcome::Rejected(
                        LifecycleRejection::QueueNotDrained { pending: slot.queue.len() as u32 },
                    ),
                )
            } else if slot.state == GroupLifecycle::Draining {
                (
                    self.with_slot(
                        group,
                        GroupState { state: GroupLifecycle::Removed, ..slot }.cleared(),
                    ),
                    LifecycleOutcome::Applied {
                        from: GroupLifecycle::Draining,
                        to: GroupLifecycle::Removed,
                        incarnation: slot.incarnation,
                    },
                )
            } else {
                self.advance(group, GroupLifecycle::Draining, GroupLifecycle::Removed)
            },
        }
    }

    /// A poisoned group's queue, retired item by item; anything else is left alone.
    pub open spec fn retire_poisoned(self, group: GroupId) -> (Self, Seq<FailureRecord>) {
        match self.slot(group) {
            Some(slot) => if slot.poisoned {
                (
                    SchedulerState {
                        queued: (self.queued - slot.queue.len()) as nat,
                        failed: self.failed + slot.queue.len(),
                        ..self.with_slot(
                            group,
                            GroupState {
                                queue: ClassQueues::empty(),
                                sessions: abandoned(slot.sessions),
                                ..slot
                            },
                        )
                    },
                    failure_records(group, slot.queue.service_order()),
                )
            } else {
                (self, Seq::empty())
            },
            None => (self, Seq::empty()),
        }
    }

    /// One administrative transition: the new state, the answer, and the items it retired.
    pub open(crate) spec fn lifecycle(self, group: GroupId, request: LifecycleRequest) -> (
        Self,
        LifecycleOutcome,
        Seq<FailureRecord>,
    ) {
        if group@ >= self.config.groups_bound() {
            (
                self,
                LifecycleOutcome::Rejected(LifecycleRejection::GroupOutOfRange),
                Seq::empty(),
            )
        } else {
            match request {
                LifecycleRequest::Create { quota } => {
                    let (next, outcome) = self.create(group, quota);
                    (next, outcome, Seq::empty())
                },
                LifecycleRequest::Recover => {
                    let (next, outcome) = self.advance(
                        group,
                        GroupLifecycle::Creating,
                        GroupLifecycle::Recovering,
                    );
                    (next, outcome, Seq::empty())
                },
                LifecycleRequest::Serve => {
                    let (next, outcome) = self.advance(
                        group,
                        GroupLifecycle::Recovering,
                        GroupLifecycle::Serving,
                    );
                    (next, outcome, Seq::empty())
                },
                LifecycleRequest::Drain => {
                    let (next, outcome) = self.drain(group);
                    if outcome is Rejected {
                        (next, outcome, Seq::empty())
                    } else {
                        let (last, failed) = next.retire_poisoned(group);
                        (last, outcome, failed)
                    }
                },
                LifecycleRequest::Remove => {
                    let (next, outcome) = self.remove(group);
                    (next, outcome, Seq::empty())
                },
                LifecycleRequest::Tombstone => {
                    let (next, outcome) = self.advance(
                        group,
                        GroupLifecycle::Removed,
                        GroupLifecycle::Tombstoned,
                    );
                    (next, outcome, Seq::empty())
                },
            }
        }
    }

    // ---------------------------------------------------------------- admission

    /// Refusal that depends only on the addressed slot's identity.
    pub open spec fn address(self, group: GroupId, incarnation: GroupIncarnation) -> Option<
        AdmissionRejection,
    > {
        if group@ >= self.config.groups_bound() {
            Some(AdmissionRejection::GroupOutOfRange)
        } else {
            match self.slot(group) {
                None => Some(AdmissionRejection::GroupUnknown),
                Some(slot) => if slot.state == GroupLifecycle::Tombstoned {
                    Some(AdmissionRejection::GroupTombstoned)
                } else if incarnation@ < slot.incarnation@ {
                    Some(AdmissionRejection::StaleIncarnation { current: slot.incarnation })
                } else if incarnation@ > slot.incarnation@ {
                    Some(AdmissionRejection::FutureIncarnation { current: slot.incarnation })
                } else {
                    None
                },
            }
        }
    }

    /// How a session request is answered.
    pub open spec fn session_outcome(
        self,
        group: GroupId,
        incarnation: GroupIncarnation,
        client: ClientId,
        epoch: SessionEpoch,
    ) -> SessionOutcome {
        match self.address(group, incarnation) {
            Some(rejection) => SessionOutcome::Rejected(rejection),
            None => {
                let slot = self.slot(group)->0;
                if !slot.state.admits_sessions() {
                    SessionOutcome::Rejected(
                        AdmissionRejection::GroupNotAcceptingSessions { state: slot.state },
                    )
                } else if slot.poisoned {
                    SessionOutcome::Rejected(AdmissionRejection::GroupPoisoned)
                } else if client@ >= self.config.clients_bound() {
                    SessionOutcome::Rejected(AdmissionRejection::ClientOutOfRange)
                } else {
                    match find_session(slot.sessions, client) {
                        None => SessionOutcome::Opened { session_epoch: epoch },
                        Some(i) => if epoch@ < slot.sessions[i].epoch@ {
                            SessionOutcome::Rejected(
                                AdmissionRejection::StaleSession {
                                    current: slot.sessions[i].epoch,
                                },
                            )
                        } else if epoch@ == slot.sessions[i].epoch@ {
                            SessionOutcome::AlreadyOpen { session_epoch: epoch }
                        } else {
                            SessionOutcome::Replaced { session_epoch: epoch }
                        },
                    }
                }
            },
        }
    }

    /// The state once a session request has been answered: only an opened or replaced session
    /// changes it, and a replaced one keeps the work already queued under the old epoch.
    pub open spec fn open_session(
        self,
        group: GroupId,
        incarnation: GroupIncarnation,
        client: ClientId,
        epoch: SessionEpoch,
    ) -> Self {
        let blank = Session { client_id: client, epoch, outstanding: None, completed: None };
        match self.session_outcome(group, incarnation, client, epoch) {
            SessionOutcome::Opened { .. } => {
                let slot = self.slot(group)->0;
                self.with_slot(group, GroupState { sessions: slot.sessions.push(blank), ..slot })
            },
            SessionOutcome::Replaced { .. } => {
                let slot = self.slot(group)->0;
                let i = find_session(slot.sessions, client)->0;
                self.with_slot(
                    group,
                    GroupState { sessions: slot.sessions.update(i, blank), ..slot },
                )
            },
            _ => self,
        }
    }

    /// How a submission is answered.
    pub open(crate) spec fn submit_outcome(
        self,
        group: GroupId,
        incarnation: GroupIncarnation,
        work: Work,
    ) -> AdmissionOutcome {
        match self.address(group, incarnation) {
            Some(rejection) => AdmissionOutcome::Rejected(rejection),
            None => {
                let slot = self.slot(group)->0;
                if !slot.state.admits(work.class()) {
                    AdmissionOutcome::Rejected(
                        AdmissionRejection::GroupNotAcceptingWork {
                            state: slot.state,
                            class: work.class(),
                        },
                    )
                } else if slot.poisoned {
                    AdmissionOutcome::Rejected(AdmissionRejection::GroupPoisoned)
                } else {
                    match self.client_answer(slot, work) {
                        Some(answer) => answer,
                        None => if slot.queue.len() >= self.config.group_queue_bound() {
                            AdmissionOutcome::Rejected(
                                AdmissionRejection::GroupQueueFull {
                                    limit: self.config.group_queue_bound(),
                                },
                            )
                        } else if self.queued >= self.config.global_queue_bound() {
                            AdmissionOutcome::Rejected(
                                AdmissionRejection::GlobalQueueFull {
                                    limit: self.config.global_queue_bound(),
                                },
                            )
                        } else {
                            AdmissionOutcome::Queued { work: WorkId(self.next_work) }
                        },
                    }
                }
            },
        }
    }

    /// What a counter submission's client session answers before any queue bound is consulted.
    pub open spec fn client_answer(self, slot: GroupState, work: Work) -> Option<AdmissionOutcome> {
        match work {
            Work::Counter { request, command, .. } => if request.client_id@
                >= self.config.clients_bound() {
                Some(AdmissionOutcome::Rejected(AdmissionRejection::ClientOutOfRange))
            } else {
                match find_session(slot.sessions, request.client_id) {
                    None => Some(AdmissionOutcome::Rejected(AdmissionRejection::SessionNotOpen)),
                    Some(i) => session_answer(slot.sessions[i], request, command),
                }
            },
            _ => None,
        }
    }

    /// The state once a submission has been answered: only a queued one changes it.
    pub open(crate) spec fn submit(
        self,
        group: GroupId,
        incarnation: GroupIncarnation,
        work: Work,
    ) -> Self {
        match self.submit_outcome(group, incarnation, work) {
            AdmissionOutcome::Queued { work: id } => {
                let slot = self.slot(group)->0;
                let sessions = match work {
                    Work::Counter { request, command, .. } => {
                        let i = find_session(slot.sessions, request.client_id)->0;
                        slot.sessions.update(
                            i,
                            Session {
                                outstanding: Some(
                                    Outstanding { sequence: request.sequence, command, work: id },
                                ),
                                ..slot.sessions[i]
                            },
                        )
                    },
                    _ => slot.sessions,
                };
                SchedulerState {
                    next_work: (self.next_work + 1) as u64,
                    queued: self.queued + 1,
                    admitted: self.admitted + 1,
                    ..self.with_slot(
                        group,
                        GroupState {
                            queue: slot.queue.push(QueuedWork { id, work }),
                            sessions,
                            ..slot
                        },
                    )
                }
            },
            _ => self,
        }
    }

    // ---------------------------------------------------------------- stepping

    /// One readiness report applied.
    pub open spec fn signalled(self, signal: ReadinessSignal) -> Self {
        match self.slot(signal.group) {
            Some(slot) => if signal.group@ < self.config.groups_bound() {
                self.with_slot(
                    signal.group,
                    GroupState {
                        stalled: signal.availability == GroupAvailability::Stalled,
                        ..slot
                    },
                )
            } else {
                self
            },
            None => self,
        }
    }

    /// Readiness reports applied in order.
    pub open spec fn all_signalled(self, signals: Seq<ReadinessSignal>) -> Self
        decreases signals.len(),
    {
        if signals.len() == 0 {
            self
        } else {
            self.all_signalled(signals.drop_last()).signalled(signals.last())
        }
    }

    /// Whether worker `w` holds a dispatch whose cost is paid by now.
    pub open spec fn worker_due(self, w: int) -> bool {
        &&& 0 <= w < self.workers.len()
        &&& self.workers[w] is Some
        &&& self.workers[w]->0.busy_until@ <= self.tick
    }

    /// Whether some worker held for slot `id` is due.
    pub open spec fn group_due(self, id: int) -> bool {
        exists|w: int| #[trigger] self.worker_due(w) && self.workers[w]->0.group@ == id
    }

    /// Groups whose worker comes free at this tick, ascending.
    pub open(crate) spec fn due_ids(self) -> Seq<GroupId> {
        ids_where(0, self.slots.len() as int, |id: int| self.group_due(id))
    }

    /// Every due worker freed, and its group released.
    pub open spec fn released(self) -> Self {
        SchedulerState {
            workers: Seq::new(
                self.workers.len(),
                |w: int| if self.worker_due(w) { None } else { self.workers[w] },
            ),
            slots: Seq::new(
                self.slots.len(),
                |id: int|
                    match self.slots[id] {
                        Some(slot) => if self.group_due(id) {
                            Some(GroupState { servicing: false, ..slot })
                        } else {
                            Some(slot)
                        },
                        None => None,
                    },
            ),
            ..self
        }
    }

    /// What `group` does with the turn it is offered.
    pub open spec fn offer_outcome(self, group: GroupId) -> OfferOutcome {
        let slot = self.slot(group)->0;
        if slot.stalled {
            OfferOutcome::Skipped(SkipReason::Stalled)
        } else {
            OfferOutcome::Dispatched {
                serviced: slot.turn_len() as u32,
                cost: slot.served_cost(slot.turn_len()) as u64,
            }
        }
    }

    /// What `group`'s turn services.
    pub open spec fn offer_records(self, group: GroupId) -> Seq<ServiceRecord> {
        let slot = self.slot(group)->0;
        if slot.stalled {
            Seq::empty()
        } else {
            slot.served_records(group, slot.turn_len())
        }
    }

    /// The state once `group` has taken its turn on `worker`.
    pub open(crate) spec fn offered(self, group: GroupId, worker: int) -> Self {
        let slot = self.slot(group)->0;
        if slot.stalled {
            self
        } else {
            let n = slot.turn_len();
            SchedulerState {
                workers: self.workers.update(
                    worker,
                    Some(
                        Dispatch {
                            group,
                            busy_until: TickIndex(saturating_sum(self.tick, slot.served_cost(n))),
                        },
                    ),
                ),
                serviced: self.serviced + n,
                queued: (self.queued - n) as nat,
                ..self.with_slot(group, GroupState { servicing: true, ..slot.served(n) })
            }
        }
    }

    /// The identifier after `first`, wrapped into the configured range.
    pub open spec fn cursor_after(self, first: GroupId) -> u32 {
        if first@ + 1 >= self.config.groups_bound() {
            0
        } else {
            (first@ + 1) as u32
        }
    }

    /// The rest of a pass: offer each remaining entry its turn, in order, for as long as a worker
    /// is free.
    pub open(crate) spec fn traversed(self, plan: PlanState, report: ReportState) -> (
        Self,
        ReportState,
    )
        decreases plan.entries.len() - plan.next,
    {
        if plan.next >= plan.entries.len() {
            (
                SchedulerState {
                    plan: None,
                    cursor: self.cursor_after(plan.entries[0]),
                    ..self
                },
                ReportState { progress: PassProgress::Completed, ..report },
            )
        } else {
            match first_free(self.workers, 0) {
                None => (
                    SchedulerState { plan: Some(plan), ..self },
                    ReportState {
                        progress: PassProgress::Suspended(PassSuspension::NoFreeWorker),
                        ..report
                    },
                ),
                Some(worker) => {
                    let group = plan.entries[plan.next as int];
                    self.offered(group, worker).traversed(
                        PlanState { next: plan.next + 1, ..plan },
                        ReportState {
                            offers: report.offers.push(
                                Offer { group, outcome: self.offer_outcome(group) },
                            ),
                            serviced: report.serviced + self.offer_records(group),
                            ..report
                        },
                    )
                },
            }
        }
    }

    /// The state at the start of a tick, after readiness reports and worker releases.
    pub open spec fn awake(self, signals: Seq<ReadinessSignal>) -> Self {
        SchedulerState { tick: (self.tick + 1) as u64, ..self }.all_signalled(signals).released()
    }

    /// The report of a tick that has released workers and done nothing else yet.
    pub open(crate) spec fn opening_report(self, signals: Seq<ReadinessSignal>) -> ReportState {
        ReportState {
            tick: (self.tick + 1) as u64,
            pass: None,
            armed: None,
            offers: Seq::empty(),
            serviced: Seq::empty(),
            released: SchedulerState {
                tick: (self.tick + 1) as u64,
                ..self
            }.all_signalled(signals).due_ids(),
            progress: PassProgress::Idle,
        }
    }

    /// One tick: resume the pass in progress, or arm one over the ready set, and traverse it.
    pub open(crate) spec fn stepped(self, signals: Seq<ReadinessSignal>) -> (Self, ReportState) {
        let awake = self.awake(signals);
        let report = self.opening_report(signals);
        match awake.plan {
            Some(plan) => SchedulerState { plan: None, ..awake }.traversed(
                plan,
                ReportState { pass: Some(plan.pass), ..report },
            ),
            None => {
                let entries = awake.plan_order();
                if entries.len() == 0 {
                    (awake, report)
                } else {
                    let pass = awake.next_pass;
                    SchedulerState {
                        next_pass: PassIndex::at(pass@ + 1),
                        ..awake
                    }.traversed(
                        PlanState { pass, entries, next: 0 },
                        ReportState { pass: Some(pass), armed: Some(entries), ..report },
                    )
                }
            },
        }
    }
}

/// What the public view shows of one slot.
pub open spec fn slot_view(group: GroupId, slot: GroupState) -> GroupView {
    GroupView {
        group,
        incarnation: slot.incarnation,
        state: slot.state,
        poisoned: slot.poisoned,
        stalled: slot.stalled,
        counter: slot.counter,
        queued: slot.queue.len() as u32,
        quota: slot.quota,
        servicing: slot.servicing,
    }
}

/// The public view of every created slot, ascending.
pub open(crate) spec fn slot_views(slots: Seq<Option<GroupState>>) -> Seq<GroupView>
    decreases slots.len(),
{
    if slots.len() == 0 {
        Seq::empty()
    } else {
        let rest = slot_views(slots.drop_last());
        match slots.last() {
            Some(slot) => rest.push(slot_view(GroupId::at(slots.len() - 1), slot)),
            None => rest,
        }
    }
}

/// Number of created slots that satisfy `pred`.
pub open spec fn count_slots(
    slots: Seq<Option<GroupState>>,
    pred: spec_fn(GroupState) -> bool,
) -> nat
    decreases slots.len(),
{
    if slots.len() == 0 {
        0
    } else {
        count_slots(slots.drop_last(), pred) + match slots.last() {
            Some(slot) => if pred(slot) {
                1nat
            } else {
                0nat
            },
            None => 0nat,
        }
    }
}

/// Whether a slot has left: removed or tombstoned.
pub open spec fn departed(slot: GroupState) -> bool {
    slot.state is Removed || slot.state is Tombstoned
}

} // verus!
