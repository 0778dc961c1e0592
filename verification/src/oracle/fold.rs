//! Mathematical model of the fold: what a recorded history implies, event by event.

use vstd::prelude::*;

use crate::history::{HistoryEvent, Operation, OperationOutcome};
use crate::model::state::{
    abandoned, failure_records, find_session, saturating_sum, session_answer, settle_session,
    Outstanding, QueuedWork, Session,
};
use crate::oracle::site::{FaultSite, SchedulingViolation};
use crate::types::{
    counter_after, counter_result, AdmissionOutcome, AdmissionRejection, ClientId, FailureRecord,
    GroupAvailability, GroupId, GroupIncarnation, GroupLifecycle, GroupView, LifecycleOutcome,
    LifecycleRejection, LifecycleRequest, OfferOutcome, PassIndex, SchedulerConfig, ServiceRecord,
    SessionEpoch, SessionOutcome, TickIndex, Work, WorkClass, WorkId, WorkQuota,
};

verus! {

/// One worker a settled turn is holding, and the tick it is due back at.
#[derive(Clone, Copy, Debug, Eq, PartialEq, Structural)]
pub struct Occupancy {
    /// Pass whose dispatch opened the occupancy.
    pub pass: PassIndex,
    /// Tick the release is due at.
    pub due: TickIndex,
}

/// How long one group has gone without a turn it was owed, counted in armed plans.
#[verifier::ext_equal]
pub struct Gap {
    /// Length of the current run of denials.
    pub run: nat,
    /// Pass the current run began at.
    pub run_from: Option<PassIndex>,
    /// Length of the longest run so far.
    pub worst: nat,
    /// Pass the longest run began at.
    pub worst_from: Option<PassIndex>,
}

impl Gap {
    /// No denial so far.
    pub open spec fn none() -> Self {
        Gap { run: 0, run_from: None, worst: 0, worst_from: None }
    }

    /// The gap once a plan armed at `pass` has left the group out.
    pub open spec fn denied(self, pass: PassIndex) -> Self {
        let run = self.run + 1;
        let run_from = if self.run == 0 {
            Some(pass)
        } else {
            self.run_from
        };
        if run > self.worst {
            Gap { run, run_from, worst: run, worst_from: run_from }
        } else {
            Gap { run, run_from, ..self }
        }
    }

    /// The gap once the run has ended.
    pub open spec fn satisfied(self) -> Self {
        Gap { run: 0, run_from: None, ..self }
    }
}

/// One group as the history implies it. The queue is one flat list in arrival order.
#[verifier::ext_equal]
pub struct GroupFold {
    /// Slot this group occupies.
    pub group: GroupId,
    /// Current incarnation.
    pub incarnation: GroupIncarnation,
    /// Current lifecycle state.
    pub state: GroupLifecycle,
    /// Whether the group's own work has poisoned it.
    pub poisoned: bool,
    /// Whether the last availability report was a stall.
    pub stalled: bool,
    /// Whether a broken stall left a debt that no plan has settled since.
    pub restored: bool,
    /// Counter value.
    pub counter: i64,
    /// Work quota for this incarnation.
    pub quota: WorkQuota,
    /// Accepted work in arrival order.
    pub queue: Seq<QueuedWork>,
    /// Client sessions in the order they were opened.
    pub sessions: Seq<Session>,
    /// Worker a settled turn is holding. It outlives the slot's removal, as the worker does.
    pub occupancy: Option<Occupancy>,
    /// Denied opportunities.
    pub gap: Gap,
}

/// Queued items of one class, oldest first.
pub open spec fn of_class(queue: Seq<QueuedWork>, class: WorkClass) -> Seq<QueuedWork> {
    queue.filter(|item: QueuedWork| item.work.class() == class)
}

/// Queued items by class, and by arrival within a class.
pub open spec fn by_priority(queue: Seq<QueuedWork>) -> Seq<QueuedWork> {
    of_class(queue, WorkClass::Control) + of_class(queue, WorkClass::Command) + of_class(
        queue,
        WorkClass::Snapshot,
    ) + of_class(queue, WorkClass::Bulk)
}

/// Items a turn with `quota` left is offered against: up to the quota, and nothing past the first
/// item that poisons the group.
pub open spec fn owed_items(order: Seq<QueuedWork>, quota: nat) -> Seq<WorkId>
    decreases order.len(),
{
    if order.len() == 0 || quota == 0 {
        Seq::empty()
    } else if order[0].work is Faulty {
        seq![order[0].id]
    } else {
        seq![order[0].id] + owed_items(order.drop_first(), (quota - 1) as nat)
    }
}

/// `i` is the first position that holds the item `id`.
pub open spec fn is_item(queue: Seq<QueuedWork>, id: WorkId, i: int) -> bool {
    &&& 0 <= i < queue.len()
    &&& queue[i].id == id
    &&& forall|j: int| 0 <= j < i ==> queue[j].id != id
}

/// Position of the item `id`, if it is queued.
pub open spec fn find_item(queue: Seq<QueuedWork>, id: WorkId) -> Option<int> {
    if exists|i: int| is_item(queue, id, i) {
        Some(choose|i: int| is_item(queue, id, i))
    } else {
        None
    }
}

/// An item position is unique.
pub proof fn lemma_item_found(queue: Seq<QueuedWork>, id: WorkId, i: int)
    requires
        is_item(queue, id, i),
    ensures
        find_item(queue, id) == Some(i),
{
    let j = choose|j: int| is_item(queue, id, j);
    assert(is_item(queue, id, j));
    assert(i == j);
}

impl GroupFold {
    /// A slot right after its first creation.
    pub open(crate) spec fn fresh(group: GroupId, quota: WorkQuota) -> Self {
        GroupFold {
            group,
            incarnation: GroupIncarnation(1),
            state: GroupLifecycle::Creating,
            poisoned: false,
            stalled: false,
            restored: false,
            counter: 0,
            quota,
            queue: Seq::empty(),
            sessions: Seq::empty(),
            occupancy: None,
            gap: Gap::none(),
        }
    }

    /// The slot without anything a removed slot must not keep.
    pub open spec fn cleared(self) -> Self {
        GroupFold {
            counter: 0,
            sessions: Seq::empty(),
            queue: Seq::empty(),
            poisoned: false,
            stalled: false,
            restored: false,
            ..self
        }
    }

    /// Whether everything but the reported availability admits a turn.
    pub open spec fn dispatchable_but_for_availability(self) -> bool {
        self.state.is_serviceable() && !self.poisoned && self.queue.len() > 0
    }

    /// Whether everything about the group itself admits a turn.
    pub open spec fn dispatchable(self) -> bool {
        self.dispatchable_but_for_availability() && !self.stalled
    }

    /// Items a correct turn services, in order.
    pub open spec fn owed(self) -> Seq<WorkId> {
        owed_items(by_priority(self.queue), self.quota@ as nat)
    }

    /// Worker occupancy the item `id` is worth; one the group does not hold is worth nothing.
    pub open spec fn price_of(self, id: WorkId) -> nat {
        match find_item(self.queue, id) {
            Some(i) => self.queue[i].work.cost()@ as nat,
            None => 0,
        }
    }

    /// The group once the item at position `i` has been serviced.
    pub open spec fn serviced(self, i: int) -> Self {
        let item = self.queue[i];
        let rest = GroupFold { queue: self.queue.remove(i), ..self };
        match item.work {
            Work::System { .. } => rest,
            Work::Faulty { .. } => GroupFold { poisoned: true, ..rest },
            Work::Counter { request, command, .. } => GroupFold {
                counter: counter_after(self.counter, command),
                sessions: settle_session(
                    self.sessions,
                    request,
                    command,
                    item.id,
                    counter_result(self.counter, command),
                ),
                ..rest
            },
        }
    }

    /// What servicing the item at position `i` reports.
    pub open spec fn record_of(self, i: int) -> ServiceRecord {
        let item = self.queue[i];
        ServiceRecord {
            work: item.id,
            group: self.group,
            class: item.work.class(),
            result: match item.work {
                Work::Counter { command, .. } => Some(counter_result(self.counter, command)),
                _ => None,
            },
        }
    }
}

/// The plan a pass is still working through: groups still owed a turn, and groups that took it.
#[verifier::ext_equal]
pub struct OpenPass {
    /// Pass the plan belongs to.
    pub pass: PassIndex,
    /// Groups still owed a turn.
    pub pending: Seq<GroupId>,
    /// Groups that took their turn.
    pub offered: Seq<GroupId>,
}

/// One turn while its work is still being recorded.
#[verifier::ext_equal]
pub struct Turn {
    /// Pass the turn belongs to.
    pub pass: PassIndex,
    /// Tick the turn was taken at.
    pub tick: TickIndex,
    /// Group whose turn it is.
    pub group: GroupId,
    /// Items the turn still owes, in order.
    pub owed: Seq<WorkId>,
    /// Items the turn was offered against.
    pub owed_total: u32,
    /// Items it has serviced so far.
    pub serviced: nat,
    /// What those items are worth.
    pub price: nat,
    /// Items its dispatch claimed.
    pub reported_serviced: u32,
    /// Occupancy its dispatch claimed.
    pub reported_cost: u64,
}

/// Everything a traversed prefix of a history implies.
#[verifier::ext_equal]
pub struct FoldState {
    /// Configured bounds.
    pub config: SchedulerConfig,
    /// Every slot ever created, ascending.
    pub groups: Seq<GroupFold>,
    /// Identifier the next admitted item carries.
    pub next_work: nat,
    /// Items admitted.
    pub admitted: nat,
    /// Items serviced.
    pub serviced: nat,
    /// Items retired without service.
    pub failed: nat,
    /// Items queued.
    pub queued: nat,
    /// Answer each invocation should have produced.
    pub outcomes: Seq<OperationOutcome>,
    /// Records the dispatches should have produced.
    pub services: Seq<ServiceRecord>,
    /// Records the drains should have produced.
    pub failures: Seq<FailureRecord>,
    /// Pass in progress.
    pub open: Option<OpenPass>,
    /// Index the next plan should carry.
    pub next_pass: PassIndex,
    /// Plans armed.
    pub passes_armed: nat,
    /// Plans retired.
    pub passes_completed: nat,
    /// Turns handed out.
    pub opportunities: nat,
    /// Largest plan armed.
    pub widest_plan: u32,
    /// Turn whose services are still arriving.
    pub recording: Option<Turn>,
    /// Highest tick reached.
    pub tick: u64,
    /// Tick the last plan was armed at.
    pub last_armed: Option<TickIndex>,
    /// Tick the last plan was retired at.
    pub last_retired: Option<TickIndex>,
    /// First fault, with the check that caught it.
    pub violation: Option<(FaultSite, SchedulingViolation)>,
}

/// `i` is the position of `group` in the table.
pub open spec fn is_entry(groups: Seq<GroupFold>, group: GroupId, i: int) -> bool {
    &&& 0 <= i < groups.len()
    &&& groups[i].group == group
    &&& forall|j: int| 0 <= j < i ==> groups[j].group != group
}

/// Position of `group` in the table, if it was ever created.
pub open spec fn find_entry(groups: Seq<GroupFold>, group: GroupId) -> Option<int> {
    if exists|i: int| is_entry(groups, group, i) {
        Some(choose|i: int| is_entry(groups, group, i))
    } else {
        None
    }
}

/// A table position is unique.
pub proof fn lemma_entry_found(groups: Seq<GroupFold>, group: GroupId, i: int)
    requires
        is_entry(groups, group, i),
    ensures
        find_entry(groups, group) == Some(i),
{
    let j = choose|j: int| is_entry(groups, group, j);
    assert(is_entry(groups, group, j));
    assert(i == j);
}

/// Number of leading table entries below `group`: where it belongs in ascending order.
pub open spec fn rank_of(groups: Seq<GroupFold>, group: GroupId) -> nat
    decreases groups.len(),
{
    if groups.len() == 0 {
        0
    } else if groups.last().group@ < group@ {
        groups.len()
    } else {
        rank_of(groups.drop_last(), group)
    }
}

/// Number of groups in the table whose settled occupancy is unpaid at `tick`.
pub open spec fn settled_workers(groups: Seq<GroupFold>, tick: u64) -> nat
    decreases groups.len(),
{
    if groups.len() == 0 {
        0
    } else {
        settled_workers(groups.drop_last(), tick) + if unpaid(groups.last(), tick) {
            1nat
        } else {
            0nat
        }
    }
}

/// Whether a group's settled occupancy is unpaid at `tick`.
pub open spec fn unpaid(group: GroupFold, tick: u64) -> bool {
    group.occupancy is Some && group.occupancy->0.due@ > tick
}

/// Whether a group's settled occupancy has outlived its cost at `tick`.
pub open spec fn overdue(group: GroupFold, tick: u64) -> bool {
    group.occupancy is Some && group.occupancy->0.due@ < tick
}

/// First overdue entry at or after `from`.
pub open spec fn first_overdue(groups: Seq<GroupFold>, tick: u64, from: int) -> Option<int>
    decreases groups.len() - from,
{
    if from < 0 || from >= groups.len() {
        None
    } else if overdue(groups[from], tick) {
        Some(from)
    } else {
        first_overdue(groups, tick, from + 1)
    }
}

/// The identifiers of `plan`, each where it first occurs.
pub open spec fn distinct(plan: Seq<GroupId>) -> Seq<GroupId>
    decreases plan.len(),
{
    if plan.len() == 0 {
        Seq::empty()
    } else {
        let rest = distinct(plan.drop_last());
        if plan.drop_last().contains(plan.last()) {
            rest
        } else {
            rest.push(plan.last())
        }
    }
}

/// `groups` without `group`.
pub open spec fn without(groups: Seq<GroupId>, group: GroupId) -> Seq<GroupId> {
    groups.filter(|other: GroupId| other != group)
}

/// Least identifier of a nonempty list.
pub open spec fn least(groups: Seq<GroupId>) -> GroupId
    decreases groups.len(),
{
    if groups.len() <= 1 {
        groups[0]
    } else {
        let rest = least(groups.drop_last());
        if groups.last()@ < rest@ {
            groups.last()
        } else {
            rest
        }
    }
}

impl FoldState {
    /// The fold of an empty history.
    pub open(crate) spec fn initial(config: SchedulerConfig) -> Self {
        FoldState {
            config,
            groups: Seq::empty(),
            next_work: 1,
            admitted: 0,
            serviced: 0,
            failed: 0,
            queued: 0,
            outcomes: Seq::empty(),
            services: Seq::empty(),
            failures: Seq::empty(),
            open: None,
            next_pass: PassIndex::at(1),
            passes_armed: 0,
            passes_completed: 0,
            opportunities: 0,
            widest_plan: 0,
            recording: None,
            tick: 0,
            last_armed: None,
            last_retired: None,
            violation: None,
        }
    }

    /// The group `id` names, if it was ever created.
    pub open spec fn entry(self, group: GroupId) -> Option<GroupFold> {
        match find_entry(self.groups, group) {
            Some(i) => Some(self.groups[i]),
            None => None,
        }
    }

    /// The state with `group`'s entry replaced.
    pub open spec fn with_entry(self, group: GroupId, entry: GroupFold) -> Self {
        match find_entry(self.groups, group) {
            Some(i) => FoldState { groups: self.groups.update(i, entry), ..self },
            None => self,
        }
    }

    /// The first fault stands; later ones are its aftermath.
    pub open spec fn faulted(self, site: FaultSite, violation: SchedulingViolation) -> Self {
        if self.violation is Some {
            self
        } else {
            FoldState { violation: Some((site, violation)), ..self }
        }
    }

    /// The state, faulted when `broken`.
    pub open spec fn judged(
        self,
        broken: bool,
        site: FaultSite,
        violation: SchedulingViolation,
    ) -> Self {
        if broken {
            self.faulted(site, violation)
        } else {
            self
        }
    }

    /// Whether a group holds a worker whose cost is unpaid: in a turn still being recorded, or in
    /// a settled occupancy that has not reached its deadline.
    pub open spec fn occupied(self, group: GroupId) -> bool {
        ||| self.recording is Some && self.recording->0.group == group
        ||| self.entry(group) is Some && unpaid(self.entry(group)->0, self.tick)
    }

    /// Number of workers held right now.
    pub open spec fn workers_held(self) -> nat {
        settled_workers(self.groups, self.tick) + if self.recording is Some {
            1nat
        } else {
            0nat
        }
    }

    /// Whether a group would take a turn if it were offered one.
    pub open spec fn is_ready(self, group: GroupId) -> bool {
        &&& self.entry(group) is Some
        &&& self.entry(group)->0.dispatchable()
        &&& !self.occupied(group)
    }

    /// Whether a plan armed now owes this group a turn: it is ready, or only a stall that was
    /// broken since a plan could last have named it keeps it from being ready.
    pub open spec fn is_owed(self, group: GroupId) -> bool {
        &&& self.entry(group) is Some
        &&& self.entry(group)->0.dispatchable_but_for_availability()
        &&& (!self.entry(group)->0.stalled || self.entry(group)->0.restored)
        &&& !self.occupied(group)
    }

    /// Whether the open pass has more of its plan left than the pool has free workers.
    pub open spec fn exhausted_mid_traversal(self) -> bool {
        &&& self.open is Some
        &&& self.open->0.pending.len() + self.workers_held() > self.config.workers_bound()
        &&& self.open->0.pending.len() > 0
    }

    // ---------------------------------------------------------------- requests

    /// A poisoned group's queue retired, item by item in service order.
    pub open spec fn retire_poisoned(self, group: GroupId) -> Self {
        match self.entry(group) {
            Some(entry) => if entry.poisoned {
                FoldState {
                    failures: self.failures + failure_records(group, by_priority(entry.queue)),
                    queued: (self.queued - entry.queue.len()) as nat,
                    failed: self.failed + entry.queue.len(),
                    ..self.with_entry(
                        group,
                        GroupFold {
                            queue: Seq::empty(),
                            sessions: abandoned(entry.sessions),
                            ..entry
                        },
                    )
                }
            } else {
                self
            },
            None => self,
        }
    }

    /// Whether a created slot in state `from` may take `request` to its target.
    pub open spec fn legal(from: GroupLifecycle, request: LifecycleRequest) -> bool {
        match request {
            LifecycleRequest::Recover => from is Creating,
            LifecycleRequest::Serve => from is Recovering,
            LifecycleRequest::Drain => from is Creating || from is Recovering || from is Serving,
            LifecycleRequest::Remove => from is Draining,
            LifecycleRequest::Tombstone => from is Removed,
            LifecycleRequest::Create { .. } => false,
        }
    }

    /// How a lifecycle request is answered.
    pub open(crate) spec fn lifecycle_outcome(
        self,
        group: GroupId,
        request: LifecycleRequest,
    ) -> LifecycleOutcome {
        let target = request.target();
        if group@ >= self.config.groups_bound() {
            LifecycleOutcome::Rejected(LifecycleRejection::GroupOutOfRange)
        } else {
            match self.entry(group) {
                None => match request {
                    LifecycleRequest::Create { .. } => LifecycleOutcome::Created {
                        incarnation: GroupIncarnation(1),
                    },
                    _ => LifecycleOutcome::Rejected(LifecycleRejection::GroupUnknown),
                },
                Some(entry) => if entry.state is Tombstoned {
                    if target is Tombstoned {
                        LifecycleOutcome::Idempotent {
                            state: GroupLifecycle::Tombstoned,
                            incarnation: entry.incarnation,
                        }
                    } else {
                        LifecycleOutcome::Rejected(LifecycleRejection::GroupTombstoned)
                    }
                } else if request is Create {
                    let quota = request->Create_quota;
                    if entry.state is Creating && entry.quota == quota {
                        LifecycleOutcome::Idempotent {
                            state: GroupLifecycle::Creating,
                            incarnation: entry.incarnation,
                        }
                    } else if entry.state is Creating {
                        LifecycleOutcome::Rejected(
                            LifecycleRejection::QuotaConflict { current: entry.quota },
                        )
                    } else if entry.state is Removed && entry.incarnation@ < u32::MAX {
                        LifecycleOutcome::Created {
                            incarnation: GroupIncarnation((entry.incarnation@ + 1) as u32),
                        }
                    } else if entry.state is Removed {
                        LifecycleOutcome::Rejected(LifecycleRejection::IncarnationExhausted)
                    } else {
                        LifecycleOutcome::Rejected(
                            LifecycleRejection::Conflict {
                                current: entry.state,
                                requested: GroupLifecycle::Creating,
                            },
                        )
                    }
                } else if entry.state == target {
                    LifecycleOutcome::Idempotent { state: target, incarnation: entry.incarnation }
                } else if !Self::legal(entry.state, request) {
                    LifecycleOutcome::Rejected(
                        LifecycleRejection::Conflict { current: entry.state, requested: target },
                    )
                } else if request is Remove && entry.queue.len() > 0 {
                    LifecycleOutcome::Rejected(
                        LifecycleRejection::QueueNotDrained { pending: entry.queue.len() as u32 },
                    )
                } else {
                    LifecycleOutcome::Applied {
                        from: entry.state,
                        to: target,
                        incarnation: entry.incarnation,
                    }
                },
            }
        }
    }

    /// The state once a lifecycle request has been answered.
    pub open(crate) spec fn lifecycle(self, group: GroupId, request: LifecycleRequest) -> Self {
        let target = request.target();
        match self.lifecycle_outcome(group, request) {
            LifecycleOutcome::Rejected(_) => self,
            LifecycleOutcome::Created { incarnation } => match self.entry(group) {
                None => FoldState {
                    groups: self.groups.insert(
                        rank_of(self.groups, group) as int,
                        GroupFold::fresh(group, request->Create_quota),
                    ),
                    ..self
                },
                Some(entry) => self.with_entry(
                    group,
                    GroupFold {
                        incarnation,
                        state: GroupLifecycle::Creating,
                        quota: request->Create_quota,
                        ..entry
                    }.cleared(),
                ),
            },
            LifecycleOutcome::Idempotent { .. } => if target is Draining {
                self.retire_poisoned(group)
            } else {
                self
            },
            LifecycleOutcome::Applied { .. } => {
                let entry = self.entry(group)->0;
                let moved = GroupFold { state: target, ..entry };
                if target is Removed {
                    self.with_entry(group, moved.cleared())
                } else if target is Draining {
                    self.with_entry(group, moved).retire_poisoned(group)
                } else {
                    self.with_entry(group, moved)
                }
            },
        }
    }

    /// Refusal that depends only on the addressed slot's identity.
    pub open spec fn address(self, group: GroupId, incarnation: GroupIncarnation) -> Option<
        AdmissionRejection,
    > {
        if group@ >= self.config.groups_bound() {
            Some(AdmissionRejection::GroupOutOfRange)
        } else {
            match self.entry(group) {
                None => Some(AdmissionRejection::GroupUnknown),
                Some(entry) => if entry.state is Tombstoned {
                    Some(AdmissionRejection::GroupTombstoned)
                } else if incarnation@ < entry.incarnation@ {
                    Some(AdmissionRejection::StaleIncarnation { current: entry.incarnation })
                } else if incarnation@ > entry.incarnation@ {
                    Some(AdmissionRejection::FutureIncarnation { current: entry.incarnation })
                } else {
                    None
                },
            }
        }
    }

    /// How a session request is answered.
    pub open spec fn session_outcome(
        self,
        group: GroupId,
        incarnation: GroupIncarnation,
        client: ClientId,
        epoch: SessionEpoch,
    ) -> SessionOutcome {
        match self.address(group, incarnation) {
            Some(rejection) => SessionOutcome::Rejected(rejection),
            None => {
                let entry = self.entry(group)->0;
                if !entry.state.admits_sessions() {
                    SessionOutcome::Rejected(
                        AdmissionRejection::GroupNotAcceptingSessions { state: entry.state },
                    )
                } else if entry.poisoned {
                    SessionOutcome::Rejected(AdmissionRejection::GroupPoisoned)
                } else if client@ >= self.config.clients_bound() {
                    SessionOutcome::Rejected(AdmissionRejection::ClientOutOfRange)
                } else {
                    match find_session(entry.sessions, client) {
                        None => SessionOutcome::Opened { session_epoch: epoch },
                        Some(i) => if epoch@ < entry.sessions[i].epoch@ {
                            SessionOutcome::Rejected(
                                AdmissionRejection::StaleSession {
                                    current: entry.sessions[i].epoch,
                                },
                            )
                        } else if epoch@ == entry.sessions[i].epoch@ {
                            SessionOutcome::AlreadyOpen { session_epoch: epoch }
                        } else {
                            SessionOutcome::Replaced { session_epoch: epoch }
                        },
                    }
                }
            },
        }
    }

    /// The state once a session request has been answered.
    pub open spec fn open_session(
        self,
        group: GroupId,
        incarnation: GroupIncarnation,
        client: ClientId,
        epoch: SessionEpoch,
    ) -> Self {
        let blank = Session { client_id: client, epoch, outstanding: None, completed: None };
        match self.session_outcome(group, incarnation, client, epoch) {
            SessionOutcome::Opened { .. } => {
                let entry = self.entry(group)->0;
                self.with_entry(
                    group,
                    GroupFold { sessions: entry.sessions.push(blank), ..entry },
                )
            },
            SessionOutcome::Replaced { .. } => {
                let entry = self.entry(group)->0;
                let i = find_session(entry.sessions, client)->0;
                self.with_entry(
                    group,
                    GroupFold { sessions: entry.sessions.update(i, blank), ..entry },
                )
            },
            _ => self,
        }
    }

    /// How a submission is answered.
    pub open(crate) spec fn submit_outcome(
        self,
        group: GroupId,
        incarnation: GroupIncarnation,
        work: Work,
    ) -> AdmissionOutcome {
        match self.address(group, incarnation) {
            Some(rejection) => AdmissionOutcome::Rejected(rejection),
            None => {
                let entry = self.entry(group)->0;
                if !entry.state.admits(work.class()) {
                    AdmissionOutcome::Rejected(
                        AdmissionRejection::GroupNotAcceptingWork {
                            state: entry.state,
                            class: work.class(),
                        },
                    )
                } else if entry.poisoned {
                    AdmissionOutcome::Rejected(AdmissionRejection::GroupPoisoned)
                } else {
                    match self.client_answer(entry, work) {
                        Some(answer) => answer,
                        None => if entry.queue.len() >= self.config.group_queue_bound() {
                            AdmissionOutcome::Rejected(
                                AdmissionRejection::GroupQueueFull {
                                    limit: self.config.group_queue_bound(),
                                },
                            )
                        } else if self.queued >= self.config.global_queue_bound() {
                            AdmissionOutcome::Rejected(
                                AdmissionRejection::GlobalQueueFull {
                                    limit: self.config.global_queue_bound(),
                                },
                            )
                        } else {
                            AdmissionOutcome::Queued { work: WorkId(self.next_work as u64) }
                        },
                    }
                }
            },
        }
    }

    /// What a counter submission's client session answers.
    pub open spec fn client_answer(self, entry: GroupFold, work: Work) -> Option<AdmissionOutcome> {
        match work {
            Work::Counter { request, command, .. } => if request.client_id@
                >= self.config.clients_bound() {
                Some(AdmissionOutcome::Rejected(AdmissionRejection::ClientOutOfRange))
            } else {
                match find_session(entry.sessions, request.client_id) {
                    None => Some(AdmissionOutcome::Rejected(AdmissionRejection::SessionNotOpen)),
                    Some(i) => session_answer(entry.sessions[i], request, command),
                }
            },
            _ => None,
        }
    }

    /// The state once a submission has been answered.
    pub open(crate) spec fn submit(
        self,
        group: GroupId,
        incarnation: GroupIncarnation,
        work: Work,
    ) -> Self {
        match self.submit_outcome(group, incarnation, work) {
            AdmissionOutcome::Queued { work: id } => {
                let entry = self.entry(group)->0;
                let sessions = match work {
                    Work::Counter { request, command, .. } => {
                        let i = find_session(entry.sessions, request.client_id)->0;
                        entry.sessions.update(
                            i,
                            Session {
                                outstanding: Some(
                                    Outstanding { sequence: request.sequence, command, work: id },
                                ),
                                ..entry.sessions[i]
                            },
                        )
                    },
                    _ => entry.sessions,
                };
                FoldState {
                    next_work: self.next_work + 1,
                    queued: self.queued + 1,
                    admitted: self.admitted + 1,
                    ..self.with_entry(
                        group,
                        GroupFold {
                            queue: entry.queue.push(QueuedWork { id, work }),
                            sessions,
                            ..entry
                        },
                    )
                }
            },
            _ => self,
        }
    }

    /// Answer an invoked operation should have produced.
    pub open(crate) spec fn answer(self, operation: Operation) -> OperationOutcome {
        match operation {
            Operation::Lifecycle { group, request } => OperationOutcome::Lifecycle(
                self.lifecycle_outcome(group, request),
            ),
            Operation::OpenSession { group, incarnation, client_id, session_epoch } => {
                OperationOutcome::Session(
                    self.session_outcome(group, incarnation, client_id, session_epoch),
                )
            },
            Operation::Submit { group, incarnation, work } => OperationOutcome::Admission(
                self.submit_outcome(group, incarnation, work),
            ),
        }
    }

    /// The state once an operation has been invoked.
    pub open(crate) spec fn invoked(self, operation: Operation) -> Self {
        let next = match operation {
            Operation::Lifecycle { group, request } => self.lifecycle(group, request),
            Operation::OpenSession { group, incarnation, client_id, session_epoch } => {
                self.open_session(group, incarnation, client_id, session_epoch)
            },
            Operation::Submit { group, incarnation, work } => self.submit(group, incarnation, work),
        };
        FoldState { outcomes: self.outcomes.push(self.answer(operation)), ..next }
    }

    // ---------------------------------------------------------------- decisions

    /// An availability report. One that breaks a stall at an instant when a plan could have named
    /// the group leaves a debt that only a plan settles.
    pub open spec fn availability(self, group: GroupId, availability: GroupAvailability) -> Self {
        match self.entry(group) {
            None => self,
            Some(entry) => match availability {
                GroupAvailability::Stalled => self.with_entry(
                    group,
                    GroupFold { stalled: true, ..entry },
                ),
                GroupAvailability::Available => self.with_entry(
                    group,
                    GroupFold {
                        stalled: false,
                        restored: entry.restored || (!self.exhausted_mid_traversal()
                            && !self.occupied(group) && entry.stalled
                            && entry.dispatchable_but_for_availability()),
                        ..entry
                    },
                ),
            },
        }
    }

    /// The clock moved to `tick`, and every occupancy that outlived its cost called in.
    pub open spec fn reached(self, tick: TickIndex) -> Self {
        if tick@ < self.tick {
            self.faulted(FaultSite::ClockWalkedBackwards, self.backwards(tick))
        } else {
            let moved = FoldState {
                tick: tick@,
                groups: Seq::new(
                    self.groups.len(),
                    |i: int|
                        if overdue(self.groups[i], tick@) {
                            GroupFold { occupancy: None, ..self.groups[i] }
                        } else {
                            self.groups[i]
                        },
                ),
                ..self
            };
            match first_overdue(self.groups, tick@, 0) {
                Some(i) => moved.faulted(
                    FaultSite::OccupancyOutlivedItsCost,
                    SchedulingViolation::WorkerHeldPastCost {
                        pass: self.groups[i].occupancy->0.pass,
                        group: self.groups[i].group,
                        due: self.groups[i].occupancy->0.due,
                        observed: tick,
                    },
                ),
                None => moved,
            }
        }
    }

    /// Violation of a tick that walks the clock backwards.
    pub open(crate) spec fn backwards(self, tick: TickIndex) -> SchedulingViolation {
        SchedulingViolation::TickWentBackwards { current: TickIndex(self.tick), observed: tick }
    }

    /// One occupancy ended, and the release judged against the cost that opened it.
    pub open spec fn release(self, tick: TickIndex, group: GroupId) -> Self {
        if self.entry(group) is Some && self.entry(group)->0.occupancy is Some {
            let entry = self.entry(group)->0;
            let occupancy = entry.occupancy->0;
            let freed = self.with_entry(group, GroupFold { occupancy: None, ..entry });
            if tick@ < occupancy.due@ {
                freed.faulted(
                    FaultSite::ReleaseBeforeDue,
                    SchedulingViolation::WorkerReleasedEarly {
                        pass: occupancy.pass,
                        group,
                        due: occupancy.due,
                        observed: tick,
                    },
                )
            } else if tick@ > occupancy.due@ {
                freed.faulted(
                    FaultSite::ReleaseAfterDue,
                    SchedulingViolation::WorkerHeldPastCost {
                        pass: occupancy.pass,
                        group,
                        due: occupancy.due,
                        observed: tick,
                    },
                )
            } else {
                freed
            }
        } else {
            self.faulted(
                FaultSite::ReleaseWithoutOccupancy,
                SchedulingViolation::SpuriousWorkerRelease { tick, group },
            )
        }
    }

    /// A recorded release: judged before the clock moves on.
    pub open spec fn released(self, tick: TickIndex, group: GroupId) -> Self {
        if tick@ < self.tick {
            self.faulted(FaultSite::ClockWalkedBackwards, self.backwards(tick))
        } else {
            self.release(tick, group).reached(tick)
        }
    }

    /// The first `n` entries of a plan judged: none repeats an earlier one, each is ready.
    pub open spec fn plan_judged(self, pass: PassIndex, plan: Seq<GroupId>, n: nat) -> Self
        decreases n,
    {
        if n == 0 {
            self
        } else {
            let group = plan[n - 1];
            self.plan_judged(pass, plan, (n - 1) as nat).judged(
                plan.take(n - 1).contains(group),
                FaultSite::PlanRepeatedAGroup,
                SchedulingViolation::PlanRepeatedGroup { pass, group },
            ).judged(
                !self.is_ready(group),
                FaultSite::PlanNamedAnUnreadyGroup,
                SchedulingViolation::PlanIncludedUnreadyGroup { pass, group },
            )
        }
    }

    /// One group's account of an armed plan: denied when the plan owed it a turn and left it out,
    /// settled otherwise.
    pub open spec fn accounted(self, pass: PassIndex, plan: Seq<GroupId>, i: int) -> GroupFold {
        let entry = self.groups[i];
        if self.is_owed(entry.group) && !plan.contains(entry.group) {
            GroupFold { gap: entry.gap.denied(pass), ..entry }
        } else {
            GroupFold { gap: entry.gap.satisfied(), restored: false, ..entry }
        }
    }

    /// A plan armed: judged against the ready set the history implies.
    pub open(crate) spec fn armed(self, pass: PassIndex, tick: TickIndex, plan: Seq<GroupId>) -> Self {
        let ordered = self.judged(
            self.open is Some,
            FaultSite::ArmedOverAnOpenPass,
            SchedulingViolation::PassArmedWhileOpen { open: self.open->0.pass, armed: pass },
        ).judged(
            pass != self.next_pass,
            FaultSite::ArmedOutOfOrder,
            SchedulingViolation::PassOutOfOrder { expected: self.next_pass, observed: pass },
        ).judged(
            self.last_armed is Some && tick@ <= self.last_armed->0@,
            FaultSite::ArmedTickReused,
            SchedulingViolation::PassBoundaryReused { pass, tick },
        );
        let judged = ordered.plan_judged(pass, plan, plan.len());
        FoldState {
            last_armed: Some(tick),
            next_pass: if pass@ < u64::MAX {
                PassIndex::at(pass@ + 1)
            } else {
                pass
            },
            passes_armed: self.passes_armed + 1,
            widest_plan: if plan.len() > self.widest_plan {
                if plan.len() > u32::MAX {
                    u32::MAX
                } else {
                    plan.len() as u32
                }
            } else {
                self.widest_plan
            },
            groups: Seq::new(self.groups.len(), |i: int| self.accounted(pass, plan, i)),
            open: Some(OpenPass { pass, pending: distinct(plan), offered: Seq::empty() }),
            ..judged
        }
    }

    /// A turn offered.
    pub open spec fn offered(
        self,
        pass: PassIndex,
        tick: TickIndex,
        group: GroupId,
        outcome: OfferOutcome,
    ) -> Self {
        let counted = FoldState { opportunities: self.opportunities + 1, ..self };
        let open = self.open->0;
        if !(self.open is Some && open.pass == pass && (open.pending.contains(group)
            || open.offered.contains(group))) {
            counted.faulted(
                FaultSite::OfferOutsideThePlan,
                SchedulingViolation::OfferOutsidePlan { pass, group },
            )
        } else if open.offered.contains(group) {
            counted.faulted(
                FaultSite::OfferedTwiceInOnePass,
                SchedulingViolation::GroupOfferedTwice { pass, group },
            )
        } else {
            let taken = FoldState {
                open: Some(
                    OpenPass {
                        pending: without(open.pending, group),
                        offered: open.offered.push(group),
                        ..open
                    },
                ),
                ..counted
            };
            match self.entry(group) {
                None => taken.faulted(
                    FaultSite::OfferedAnUnknownGroup,
                    SchedulingViolation::DispatchedUnreadyGroup { pass, group },
                ),
                Some(entry) => match outcome {
                    OfferOutcome::Skipped(_) => taken.judged(
                        !entry.stalled,
                        FaultSite::SkippedWhileAvailable,
                        SchedulingViolation::SkippedAvailableGroup { pass, group },
                    ),
                    OfferOutcome::Dispatched { serviced, cost } => if !taken.is_ready(group) {
                        taken.faulted(
                            FaultSite::DispatchedWhileUnready,
                            SchedulingViolation::DispatchedUnreadyGroup { pass, group },
                        )
                    } else {
                        let recording = FoldState {
                            recording: Some(
                                Turn {
                                    pass,
                                    tick,
                                    group,
                                    owed: entry.owed(),
                                    owed_total: entry.owed().len() as u32,
                                    serviced: 0,
                                    price: 0,
                                    reported_serviced: serviced,
                                    reported_cost: cost,
                                },
                            ),
                            ..taken.judged(
                                serviced > entry.quota@,
                                FaultSite::DispatchOverQuota,
                                SchedulingViolation::QuotaExceeded {
                                    pass,
                                    group,
                                    serviced,
                                    quota: entry.quota@,
                                },
                            )
                        };
                        recording.judged(
                            recording.workers_held() > self.config.workers_bound(),
                            FaultSite::DispatchOverWorkerPool,
                            SchedulingViolation::WorkerCountExceeded {
                                pass,
                                group,
                                workers: self.config.workers_bound(),
                            },
                        )
                    },
                },
            }
        }
    }

    /// The turn whose services were still arriving, ended and priced at what they were worth.
    pub open(crate) spec fn settled(self) -> Self {
        match self.recording {
            None => self,
            Some(turn) => {
                let closed = FoldState { recording: None, ..self }.judged(
                    turn.owed.len() > 0,
                    FaultSite::TurnLeftWorkQueued,
                    SchedulingViolation::DispatchLeftWorkUnserviced {
                        pass: turn.pass,
                        group: turn.group,
                        owed: turn.owed_total,
                        serviced: turn.serviced as u32,
                    },
                ).judged(
                    turn.serviced != turn.reported_serviced,
                    FaultSite::TurnMiscountedItsWork,
                    SchedulingViolation::ServiceCountMismatch {
                        pass: turn.pass,
                        group: turn.group,
                        expected: turn.serviced as u32,
                        observed: turn.reported_serviced,
                    },
                ).judged(
                    turn.price != turn.reported_cost,
                    FaultSite::TurnMispricedItsWork,
                    SchedulingViolation::DispatchCostMismatch {
                        pass: turn.pass,
                        group: turn.group,
                        expected: turn.price as u64,
                        observed: turn.reported_cost,
                    },
                );
                match closed.entry(turn.group) {
                    Some(entry) => closed.with_entry(
                        turn.group,
                        GroupFold {
                            occupancy: Some(
                                Occupancy {
                                    pass: turn.pass,
                                    due: TickIndex(saturating_sum(turn.tick@, turn.price)),
                                },
                            ),
                            ..entry
                        },
                    ),
                    None => closed,
                }
            },
        }
    }

    /// What servicing one item does to a group; an item the group does not hold does nothing.
    pub open spec fn applied(self, group: GroupId, work: WorkId) -> Self {
        match self.entry(group) {
            None => self,
            Some(entry) => match find_item(entry.queue, work) {
                None => self,
                Some(i) => FoldState {
                    queued: (self.queued - 1) as nat,
                    serviced: self.serviced + 1,
                    services: self.services.push(entry.record_of(i)),
                    ..self.with_entry(group, entry.serviced(i))
                },
            },
        }
    }

    /// A recorded service.
    pub open spec fn service(self, pass: PassIndex, group: GroupId, work: WorkId) -> Self {
        let turn = self.recording->0;
        if !(self.recording is Some && turn.group == group && turn.pass == pass) {
            self.faulted(
                FaultSite::ServiceOutsideATurn,
                SchedulingViolation::ServiceOutsideDispatch { pass, group },
            )
        } else if turn.owed.len() == 0 {
            self.faulted(
                FaultSite::ServicePastTheTurnsWork,
                SchedulingViolation::DispatchServicedBeyondItsWork {
                    pass,
                    group,
                    owed: turn.owed_total,
                    work,
                },
            )
        } else {
            let price = match self.entry(group) {
                Some(entry) => entry.price_of(work),
                None => 0,
            };
            let judged = self.judged(
                turn.owed[0] != work,
                FaultSite::ServiceOutOfOrder,
                SchedulingViolation::ServiceOrderViolation {
                    pass,
                    group,
                    expected: turn.owed[0],
                    observed: work,
                },
            );
            FoldState {
                recording: Some(
                    Turn {
                        owed: turn.owed.drop_first(),
                        serviced: turn.serviced + 1,
                        price: turn.price + price,
                        ..turn
                    },
                ),
                ..judged
            }.applied(group, work)
        }
    }

    /// A plan retired.
    pub open spec fn completed(self, pass: PassIndex, tick: TickIndex) -> Self {
        let timed = FoldState {
            last_retired: Some(tick),
            ..self.judged(
                self.last_retired is Some && tick@ <= self.last_retired->0@,
                FaultSite::RetiredTickReused,
                SchedulingViolation::PassBoundaryReused { pass, tick },
            )
        };
        match self.open {
            None => timed.faulted(
                FaultSite::RetiredWithNoPassOpen,
                SchedulingViolation::PassOutOfOrder { expected: self.next_pass, observed: pass },
            ),
            Some(open) => FoldState {
                open: None,
                passes_completed: self.passes_completed + 1,
                ..timed.judged(
                    open.pass != pass,
                    FaultSite::RetiredADifferentPass,
                    SchedulingViolation::PassOutOfOrder { expected: open.pass, observed: pass },
                ).judged(
                    open.pending.len() > 0,
                    FaultSite::RetiredWithATurnOwing,
                    SchedulingViolation::PassCompletedWithUnofferedGroup {
                        pass,
                        group: least(open.pending),
                    },
                )
            },
        }
    }

    /// Whether an event is part of the turn being recorded: one of its own services, or a mere
    /// observation, which ends nothing.
    pub open spec fn continues(self, event: HistoryEvent) -> bool {
        match event {
            HistoryEvent::WorkServiced { group, .. } => self.recording is Some
                && self.recording->0.group == group,
            HistoryEvent::Completed { .. } => true,
            HistoryEvent::Unknown { .. } => true,
            HistoryEvent::NotAdmitted { .. } => true,
            _ => false,
        }
    }

    /// The fold of one more event.
    pub open(crate) spec fn absorbed(self, event: HistoryEvent) -> Self {
        let s = if self.continues(event) {
            self
        } else {
            self.settled()
        };
        match event {
            HistoryEvent::Invoked { operation, .. } => s.invoked(operation),
            HistoryEvent::AvailabilityReported { tick, group, availability } => s.reached(
                tick,
            ).availability(group, availability),
            HistoryEvent::WorkerReleased { tick, group } => s.released(tick, group),
            HistoryEvent::PassArmed { pass, tick, plan } => s.reached(tick).armed(
                pass,
                tick,
                plan@,
            ),
            HistoryEvent::GroupOffered { pass, tick, group, outcome } => s.reached(tick).offered(
                pass,
                tick,
                group,
                outcome,
            ),
            HistoryEvent::WorkServiced { pass, group, work } => s.service(pass, group, work),
            HistoryEvent::PassCompleted { pass, tick } => s.reached(tick).completed(pass, tick),
            HistoryEvent::Completed { .. } => s,
            HistoryEvent::Unknown { .. } => s,
            HistoryEvent::NotAdmitted { .. } => s,
        }
    }

    /// The fold of a whole history.
    pub open(crate) spec fn folded(config: SchedulerConfig, log: Seq<HistoryEvent>) -> Self
        decreases log.len(),
    {
        if log.len() == 0 {
            Self::initial(config)
        } else {
            Self::folded(config, log.drop_last()).absorbed(log.last())
        }
    }

    /// The end of the record settles whatever was open and checks conservation.
    pub open(crate) spec fn finished(self) -> Self {
        let s = self.settled();
        s.judged(
            s.queued + s.serviced + s.failed != s.admitted,
            FaultSite::WorkUnaccountedFor,
            SchedulingViolation::WorkNotConserved {
                admitted: s.admitted as u64,
                serviced: s.serviced as u64,
                failed: s.failed as u64,
                queued: s.queued as u32,
            },
        )
    }
}

/// The public view of every slot, ascending.
pub open spec fn fold_views(s: FoldState) -> Seq<GroupView> {
    Seq::new(
        s.groups.len(),
        |i: int|
            GroupView {
                group: s.groups[i].group,
                incarnation: s.groups[i].incarnation,
                state: s.groups[i].state,
                poisoned: s.groups[i].poisoned,
                stalled: s.groups[i].stalled,
                counter: s.groups[i].counter,
                queued: s.groups[i].queue.len() as u32,
                quota: s.groups[i].quota,
                servicing: s.occupied(s.groups[i].group),
            },
    )
}

/// Number of groups among the first `n` that satisfy `pred`.
pub open spec fn count_groups(
    groups: Seq<GroupFold>,
    n: int,
    pred: spec_fn(GroupFold) -> bool,
) -> nat
    decreases n,
{
    if n <= 0 {
        0
    } else {
        count_groups(groups, n - 1, pred) + if pred(groups[n - 1]) {
            1nat
        } else {
            0nat
        }
    }
}

/// Among the first `n` groups, the first one whose longest run of denials is the longest.
pub open spec fn widest_denial(groups: Seq<GroupFold>, n: int) -> Option<int>
    decreases n,
{
    if n <= 0 {
        None
    } else {
        let best = widest_denial(groups, n - 1);
        let bar = match best {
            Some(i) => groups[i].gap.worst,
            None => 0nat,
        };
        if groups[n - 1].gap.worst > bar {
            Some(n - 1)
        } else {
            best
        }
    }
}

/// Length of the longest run of denials.
pub open spec fn worst_gap(groups: Seq<GroupFold>) -> nat {
    match widest_denial(groups, groups.len() as int) {
        Some(i) => groups[i].gap.worst,
        None => 0,
    }
}

impl FoldState {
    /// The fault that is reported: the first structural one, or the widest opportunity gap when the
    /// decisions were structurally sound.
    pub open(crate) spec fn verdict(self) -> Option<(FaultSite, SchedulingViolation)> {
        match self.violation {
            Some(fault) => Some(fault),
            None => match widest_denial(self.groups, self.groups.len() as int) {
                Some(i) => Some(
                    (
                        FaultSite::WidestOpportunityGap,
                        SchedulingViolation::OpportunityGap {
                            group: self.groups[i].group,
                            from_pass: match self.groups[i].gap.worst_from {
                                Some(pass) => pass,
                                None => PassIndex::at(1),
                            },
                            denied_passes: self.groups[i].gap.worst as u32,
                        },
                    ),
                ),
                None => None,
            },
        }
    }
}

} // verus!
