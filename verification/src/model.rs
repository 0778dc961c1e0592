//! Deterministic managed scheduler over many independent counter groups.

pub mod answers;
pub mod laws;
pub mod pass;
pub mod reachable;
pub mod retry;
pub mod run;
pub mod state;

use vstd::prelude::*;

use std::collections::VecDeque;

use crate::model::reachable::{
    core_inv, group_ok, inv, lemma_all_signalled_inv, lemma_armed, lemma_awake_inv,
    lemma_core_frame, lemma_drain_inv, lemma_first_free, lemma_grown, lemma_ids_len,
    lemma_ids_unique, lemma_ids_where, lemma_lifecycle_inv, lemma_offered, lemma_open_session_inv,
    lemma_released_inv, lemma_served, lemma_served_one, lemma_signalled_inv, lemma_stepped_inv,
    lemma_submit_inv, lemma_total_bounds, owed, plan_ok,
};
use crate::model::state::{
    abandoned, failure_records, find_session, first_free, is_session_of, lemma_service_order,
    lemma_session_found, session_answer, slot_view, slot_views, count_slots, departed, ClassQueues,
    Completed, Dispatch, GroupState, Outstanding, PlanState, QueuedWork, ReportState,
    SchedulerState, Session,
};
use crate::types::{
    apply_counter_command, AdmissionOutcome, AdmissionRejection, ClientId, CounterCommand,
    FailureRecord, GroupAvailability, GroupId, GroupIncarnation, GroupLifecycle, GroupView,
    LifecycleOutcome, LifecycleRejection, LifecycleRequest, LifecycleTransition, Offer,
    OfferOutcome, PassIndex, PassProgress, PassSuspension, ReadinessSignal, RequestFingerprint,
    RequestIdentity, SchedulerConfig, SchedulerSummary, SchedulerView, Sequence, ServiceRecord,
    SessionEpoch, SessionOutcome, SkipReason, TickIndex, TickReport, Work, WorkClass, WorkFailure,
    WorkId, WorkQuota,
};

verus! {

/// One group slot's live state. The queues are the only part that grows, and they are capped by
/// the configured per-group bound.
#[derive(Clone, Debug, Eq, PartialEq)]
struct Group {
    incarnation: GroupIncarnation,
    state: GroupLifecycle,
    poisoned: bool,
    stalled: bool,
    servicing: bool,
    counter: i64,
    quota: WorkQuota,
    control: VecDeque<QueuedWork>,
    command: VecDeque<QueuedWork>,
    snapshot: VecDeque<QueuedWork>,
    bulk: VecDeque<QueuedWork>,
    queued: u32,
    sessions: Vec<Session>,
    ready_position: Option<usize>,
}

/// Finds the session a client holds.
pub(crate) fn session_index(sessions: &Vec<Session>, client: ClientId) -> (r: Option<usize>)
    ensures
        match r {
            Some(i) => find_session(sessions@, client) == Some(i as int) && is_session_of(
                sessions@,
                client,
                i as int,
            ),
            None => find_session(sessions@, client) is None,
        },
{
    let mut i: usize = 0;
    while i < sessions.len()
        invariant
            i <= sessions.len(),
            forall|j: int| 0 <= j < i ==> sessions@[j].client_id != client,
        decreases sessions.len() - i,
    {
        if sessions[i].client_id == client {
            proof {
                lemma_session_found(sessions@, client, i as int);
            }
            return Some(i);
        }
        i = i + 1;
    }
    None
}

impl Group {
    spec fn view(self) -> GroupState {
        GroupState {
            incarnation: self.incarnation,
            state: self.state,
            poisoned: self.poisoned,
            stalled: self.stalled,
            servicing: self.servicing,
            counter: self.counter,
            quota: self.quota,
            queue: ClassQueues {
                control: self.control@,
                command: self.command@,
                snapshot: self.snapshot@,
                bulk: self.bulk@,
            },
            sessions: self.sessions@,
        }
    }

    /// The item count agrees with the queues.
    spec fn counted(self) -> bool {
        self.queued == self@.queue.len()
    }

    fn new(incarnation: GroupIncarnation, quota: WorkQuota) -> (r: Self)
        ensures
            r@ == GroupState::fresh(incarnation, quota),
            r.counted(),
            r.ready_position is None,
    {
        let group = Self {
            incarnation,
            state: GroupLifecycle::Creating,
            poisoned: false,
            stalled: false,
            servicing: false,
            counter: 0,
            quota,
            control: VecDeque::new(),
            command: VecDeque::new(),
            snapshot: VecDeque::new(),
            bulk: VecDeque::new(),
            queued: 0,
            sessions: Vec::new(),
            ready_position: None,
        };
        assert(group@ =~= GroupState::fresh(incarnation, quota));
        group
    }

    /// Returns whether the group would take a turn if it were offered one.
    fn is_ready(&self) -> (r: bool)
        requires
            self.counted(),
        ensures
            r == self@.is_ready(),
    {
        self.state.is_serviceable() && !self.poisoned && !self.stalled && !self.servicing
            && self.queued > 0
    }

    /// Clears everything a removed slot must not keep.
    fn clear(&mut self)
        ensures
            final(self)@ == old(self)@.cleared(),
            final(self).counted(),
            final(self).ready_position == old(self).ready_position,
    {
        self.counter = 0;
        self.sessions.clear();
        self.control.clear();
        self.command.clear();
        self.snapshot.clear();
        self.bulk.clear();
        self.queued = 0;
        self.poisoned = false;
        self.stalled = false;
        assert(self@ =~= old(self)@.cleared());
    }

    /// Appends an item behind everything of its own class.
    fn enqueue(&mut self, item: QueuedWork)
        requires
            old(self).counted(),
            old(self).queued < u32::MAX,
        ensures
            final(self)@ == (GroupState { queue: old(self)@.queue.push(item), ..old(self)@ }),
            final(self).counted(),
            final(self).ready_position == old(self).ready_position,
    {
        match item.work.class() {
            WorkClass::Control => self.control.push_back(item),
            WorkClass::Command => self.command.push_back(item),
            WorkClass::Snapshot => self.snapshot.push_back(item),
            WorkClass::Bulk => self.bulk.push_back(item),
        }
        self.queued = self.queued + 1;
        assert(self@ =~= (GroupState { queue: old(self)@.queue.push(item), ..old(self)@ }));
    }

    /// Removes the oldest item of the least class the group has anything in.
    fn take_next(&mut self) -> (r: Option<QueuedWork>)
        requires
            old(self).counted(),
        ensures
            final(self).counted(),
            final(self).ready_position == old(self).ready_position,
            match r {
                Some(item) => {
                    &&& old(self)@.queue.len() > 0
                    &&& item == old(self)@.queue.head()
                    &&& final(self)@ == (GroupState {
                        queue: old(self)@.queue.pop(),
                        ..old(self)@
                    })
                },
                None => old(self)@.queue.len() == 0 && final(self)@ == old(self)@,
            },
    {
        let popped = match self.control.pop_front() {
            Some(item) => Some(item),
            None => match self.command.pop_front() {
                Some(item) => Some(item),
                None => match self.snapshot.pop_front() {
                    Some(item) => Some(item),
                    None => self.bulk.pop_front(),
                },
            },
        };
        if popped.is_some() {
            self.queued = self.queued - 1;
            assert(self@.queue =~= old(self)@.queue.pop());
        } else {
            assert(self@.queue =~= old(self)@.queue);
        }
        popped
    }

    /// Applies one item and reports what it did.
    fn apply_work(&mut self, group: GroupId, item: QueuedWork) -> (r: ServiceRecord)
        requires
            old(self).counted(),
        ensures
            final(self)@ == old(self)@.applied(item),
            final(self).counted(),
            final(self).ready_position == old(self).ready_position,
            r == old(self)@.record_of(group, item),
    {
        let result = match item.work {
            Work::System { .. } => None,
            Work::Faulty { .. } => {
                self.poisoned = true;
                None
            },
            Work::Counter { request, command, .. } => {
                let (value, outcome) = apply_counter_command(self.counter, command);
                self.counter = value;
                if let Some(i) = session_index(&self.sessions, request.client_id) {
                    let session = self.sessions[i];
                    if session.epoch == request.session_epoch {
                        if let Some(queued) = session.outstanding {
                            if queued.work == item.id {
                                self.sessions.set(
                                    i,
                                    Session {
                                        client_id: session.client_id,
                                        epoch: session.epoch,
                                        outstanding: None,
                                        completed: Some(
                                            Completed {
                                                sequence: request.sequence,
                                                command,
                                                result: outcome,
                                            },
                                        ),
                                    },
                                );
                            }
                        }
                    }
                }
                Some(outcome)
            },
        };
        assert(self@ =~= old(self)@.applied(item));
        ServiceRecord { work: item.id, group, class: item.work.class(), result }
    }

    /// Takes one turn: services items in order until the quota is spent, the queue is empty, or
    /// the group's own work poisons it.
    fn take_turn(&mut self, group: GroupId, records: &mut Vec<ServiceRecord>) -> (r: (u32, u64))
        requires
            old(self).counted(),
            exists|config: SchedulerConfig, next_work: u64|
                #[trigger] group_ok(old(self)@, config, next_work),
            old(self)@.state.is_serviceable(),
        ensures
            final(self)@ == old(self)@.served(old(self)@.turn_len()),
            final(self).counted(),
            final(self).ready_position == old(self).ready_position,
            final(records)@ == old(records)@ + old(self)@.served_records(
                group,
                old(self)@.turn_len(),
            ),
            r.0 == old(self)@.turn_len(),
            r.1 == old(self)@.served_cost(old(self)@.turn_len()),
    {
        let ghost start = self@;
        let ghost (config, next_work) = choose|config: SchedulerConfig, next_work: u64|
            #[trigger] group_ok(start, config, next_work);
        let quota: u32 = self.quota.get();
        let mut serviced: u32 = 0;
        let mut cost: u64 = 0;
        let mut ended: bool = false;
        assert(old(records)@ + start.served_records(group, 0) =~= old(records)@);
        while !ended && serviced < quota
            invariant
                quota == start.quota@,
                self.counted(),
                self.ready_position == old(self).ready_position,
                group_ok(start, config, next_work),
                start.state.is_serviceable(),
                serviced <= quota,
                serviced <= start.queue.len(),
                self@ == start.served(serviced as nat),
                records@ == old(records)@ + start.served_records(group, serviced as nat),
                cost == start.served_cost(serviced as nat),
                cost <= serviced * 0xffff_ffff,
                start.turn_len() == start.turn_len_from(serviced as nat),
                ended ==> start.turn_ends(serviced as nat),
                !ended && serviced > 0 ==> !self.poisoned,
            decreases (if ended { 0int } else { quota - serviced + 1 }),
        {
            proof {
                lemma_served(start, group, serviced as nat, config, next_work);
            }
            let ghost before = self@;
            match self.take_next() {
                None => {
                    ended = true;
                },
                Some(item) => {
                    proof {
                        lemma_served_one(before, config, next_work);
                        assert(item.work.cost()@ <= 0xffff_ffff);
                        assert(!start.turn_ends(serviced as nat));
                        lemma_served(start, group, (serviced + 1) as nat, config, next_work);
                        assert(cost + item.work.cost()@ <= (serviced + 1) * 0xffff_ffff);
                        assert((serviced + 1) * 0xffff_ffff <= 0xffff_ffff * 0xffff_ffff)
                            by (nonlinear_arith)
                            requires
                                serviced + 1 <= 0xffff_ffff,
                        ;
                    }
                    cost = cost + item.work.cost().get() as u64;
                    serviced = serviced + 1;
                    let record = self.apply_work(group, item);
                    assert(start.served_records(group, serviced as nat) == start.served_records(
                        group,
                        (serviced - 1) as nat,
                    ).push(record));
                    records.push(record);
                    assert(records@ =~= old(records)@ + start.served_records(
                        group,
                        serviced as nat,
                    ));
                    if self.poisoned {
                        ended = true;
                    }
                },
            }
        }
        (serviced, cost)
    }
}

/// The plan a pass traverses: armed once from the ready set, never reordered, and retired only
/// when every entry has been offered.
#[derive(Clone, Debug, Eq, PartialEq)]
struct Plan {
    pass: PassIndex,
    entries: Vec<GroupId>,
    next: usize,
}

impl Plan {
    spec fn view(self) -> PlanState {
        PlanState { pass: self.pass, entries: self.entries@, next: self.next as nat }
    }
}

/// Identifiers are listed in strictly ascending order.
spec fn ascending(ids: Seq<GroupId>) -> bool {
    forall|i: int, j: int| 0 <= i < j < ids.len() ==> ids[i]@ < ids[j]@
}

/// Lists distinct identifiers in ascending order.
fn sorted_ids(ids: &Vec<GroupId>) -> (r: Vec<GroupId>)
    requires
        ids@.no_duplicates(),
    ensures
        ascending(r@),
        forall|id: GroupId| #[trigger] r@.contains(id) <==> ids@.contains(id),
{
    let mut sorted: Vec<GroupId> = Vec::new();
    let mut i: usize = 0;
    assert(ids@.take(0) =~= Seq::<GroupId>::empty());
    while i < ids.len()
        invariant
            i <= ids.len(),
            ids@.no_duplicates(),
            ascending(sorted@),
            forall|id: GroupId| #[trigger] sorted@.contains(id) <==> ids@.take(i as int).contains(id),
        decreases ids.len() - i,
    {
        let id = ids[i];
        assert(!ids@.take(i as int).contains(id)) by {
            if ids@.take(i as int).contains(id) {
                let k = choose|k: int| 0 <= k < i && ids@.take(i as int)[k] == id;
                assert(ids@[k] == id);
            }
        }
        assert(!sorted@.contains(id));
        let mut position: usize = sorted.len();
        while position > 0 && sorted[position - 1].get() > id.get()
            invariant
                position <= sorted.len(),
                ascending(sorted@),
                forall|j: int| position <= j < sorted.len() ==> sorted@[j]@ > id@,
            decreases position,
        {
            position = position - 1;
        }
        assert(position > 0 ==> sorted@[position - 1]@ < id@) by {
            if position > 0 {
                assert(sorted@.contains(sorted@[position - 1]));
            }
        }
        let ghost before = sorted@;
        sorted.insert(position, id);
        proof {
            let after = before.insert(position as int, id);
            assert forall|j: int, k: int| 0 <= j < k < after.len() implies after[j]@
                < after[k]@ by {
                if position > 0 && j < position {
                    assert(before[j]@ <= before[position - 1]@);
                }
            }
            let seen = ids@.take(i as int);
            let more = ids@.take(i + 1);
            assert(more =~= seen.push(id));
            assert forall|x: GroupId| #[trigger] after.contains(x) <==> more.contains(x) by {
                if before.contains(x) {
                    let k = choose|k: int| 0 <= k < before.len() && before[k] == x;
                    if k < position {
                        assert(after[k] == x);
                    } else {
                        assert(after[k + 1] == x);
                    }
                }
                assert(after[position as int] == id);
                if after.contains(x) && x != id {
                    let k = choose|k: int| 0 <= k < after.len() && after[k] == x;
                    if k < position {
                        assert(before[k] == x);
                    } else {
                        assert(before[k - 1] == x);
                    }
                    assert(before.contains(x));
                }
                if seen.contains(x) {
                    let k = choose|k: int| 0 <= k < i && seen[k] == x;
                    assert(more[k] == x);
                }
                assert(more[i as int] == id);
                if more.contains(x) && x != id {
                    let k = choose|k: int| 0 <= k < i + 1 && more[k] == x;
                    assert(seen[k] == x);
                    assert(seen.contains(x));
                }
            }
        }
        i = i + 1;
    }
    assert(ids@.take(ids.len() as int) =~= ids@);
    sorted
}

/// The slot table as the model sees it.
spec fn table(groups: Seq<Option<Group>>) -> Seq<Option<GroupState>> {
    groups.map_values(
        |slot: Option<Group>|
            match slot {
                Some(group) => Some(group@),
                None => None,
            },
    )
}

/// The group remembers position `i` of the ready list.
spec fn at_position(group: Group, i: int) -> bool {
    group.ready_position is Some && group.ready_position->0 == i
}

/// The ready list names each of its groups at the position the group remembers, and it names
/// exactly the ready groups, except that slot `skip` may be out of step.
spec fn listed(groups: Seq<Option<Group>>, ready: Seq<GroupId>, skip: int) -> bool {
    &&& forall|i: int|
        0 <= i < ready.len() ==> {
            &&& (#[trigger] ready[i])@ < groups.len()
            &&& groups[ready[i]@ as int] is Some
            &&& at_position(groups[ready[i]@ as int]->0, i)
        }
    &&& forall|id: int|
        0 <= id < groups.len() && (#[trigger] groups[id]) is Some ==> {
            &&& groups[id]->0.counted()
            &&& groups[id]->0.ready_position matches Some(p) ==> p < ready.len() && ready[p as int]@
                == id
            &&& id != skip ==> (groups[id]->0@.is_ready() <==> groups[id]->0.ready_position is Some)
        }
}

/// Deterministic managed scheduler over many independent counter groups.
///
/// The scheduler owns a lifecycle per group slot, a bounded queue of classified work per live
/// group, and a rotating pass over the ready set that hands each ready group exactly one turn. It
/// retains no history, so its size does not depend on how long it has run.
#[derive(Clone, Debug, Eq, PartialEq)]
pub struct ManagedScheduler {
    config: SchedulerConfig,
    groups: Vec<Option<Group>>,
    ready: Vec<GroupId>,
    workers: Vec<Option<Dispatch>>,
    plan: Option<Plan>,
    tick: TickIndex,
    next_pass: PassIndex,
    next_work: u64,
    cursor: u32,
    queued: u32,
    admitted: u64,
    serviced: u64,
    failed: u64,
}

impl ManagedScheduler {
    /// The scheduler's state in the mathematical model.
    pub closed spec fn state(&self) -> SchedulerState {
        SchedulerState {
            config: self.config,
            slots: table(self.groups@),
            workers: self.workers@,
            plan: match self.plan {
                Some(plan) => Some(plan@),
                None => None,
            },
            tick: self.tick@,
            next_pass: self.next_pass,
            next_work: self.next_work,
            cursor: self.cursor,
            queued: self.queued as nat,
            admitted: self.admitted as nat,
            serviced: self.serviced as nat,
            failed: self.failed as nat,
        }
    }

    /// The ready list is exact, except that slot `skip` may be out of step.
    closed spec fn shaped(&self, skip: int) -> bool {
        listed(self.groups@, self.ready@, skip)
    }

    /// What every scheduler satisfies between calls: its state is reachable and its ready list is
    /// exact.
    pub closed spec fn wf(&self) -> bool {
        self.shaped(-1) && inv(self.state())
    }

    /// Between calls a scheduler's books are consistent, whatever was asked of it.
    pub proof fn law_books_stay_consistent(&self)
        requires
            self.wf(),
        ensures
            inv(self.state()),
    {
    }

    /// Creates an empty scheduler with no groups and no work.
    pub fn new(config: SchedulerConfig) -> (r: Self)
        ensures
            r.wf(),
            r.state() == SchedulerState::initial(config),
    {
        let count: u32 = config.workers();
        let mut workers: Vec<Option<Dispatch>> = Vec::new();
        let mut made: u32 = 0;
        while made < count
            invariant
                made <= count,
                workers@.len() == made,
                forall|w: int| 0 <= w < workers@.len() ==> workers@[w] is None,
            decreases count - made,
        {
            workers.push(None);
            made = made + 1;
        }
        let scheduler = Self {
            config,
            groups: Vec::new(),
            ready: Vec::new(),
            workers,
            plan: None,
            tick: TickIndex::zero(),
            next_pass: PassIndex::first(),
            next_work: 1,
            cursor: 0,
            queued: 0,
            admitted: 0,
            serviced: 0,
            failed: 0,
        };
        assert(scheduler.state() =~= SchedulerState::initial(config));
        scheduler
    }

    /// Returns the configured bounds.
    pub fn config(&self) -> (r: SchedulerConfig)
        ensures
            r == self.state().config,
    {
        self.config
    }

    /// Returns the number of ticks the scheduler has taken.
    pub fn tick(&self) -> (r: TickIndex)
        ensures
            r@ == self.state().tick,
    {
        self.tick
    }

    /// Returns the pass a plan is currently open under, when one is open.
    pub fn open_pass(&self) -> (r: Option<PassIndex>)
        ensures
            r is Some <==> self.state().plan is Some,
            r is Some ==> r->0 == self.state().plan->0.pass,
    {
        match &self.plan {
            Some(plan) => Some(plan.pass),
            None => None,
        }
    }

    /// Brings the ready list back in step with one group's state, in constant time.
    fn refresh_ready(&mut self, group: GroupId)
        requires
            old(self).shaped(group@ as int),
            old(self).groups.len() <= u32::MAX,
        ensures
            final(self).shaped(-1),
            final(self).state() == old(self).state(),
    {
        let index: usize = group.get() as usize;
        if index >= self.groups.len() {
            return;
        }
        let (should_be_ready, position) = match &self.groups[index] {
            Some(state) => (state.is_ready(), state.ready_position),
            None => {
                return;
            },
        };
        let ghost before = self.groups@;
        let ghost listing = self.ready@;
        match position {
            None => {
                if should_be_ready {
                    let end: usize = self.ready.len();
                    self.ready.push(group);
                    if let Some(state) = self.groups[index].as_mut() {
                        state.ready_position = Some(end);
                    }
                    assert(table(self.groups@) =~= table(before));
                    assert forall|i: int| 0 <= i < self.ready.len() implies {
                        &&& (#[trigger] self.ready@[i])@ < self.groups.len()
                        &&& self.groups@[self.ready@[i]@ as int] is Some
                        &&& at_position(self.groups@[self.ready@[i]@ as int]->0, i)
                    } by {
                        if i < end {
                            assert(self.ready@[i] == listing[i]);
                            assert(at_position(before[listing[i]@ as int]->0, i));
                        }
                    }
                }
            },
            Some(at) => {
                if !should_be_ready {
                    let ghost last = listing.len() - 1;
                    self.ready.swap_remove(at);
                    if let Some(state) = self.groups[index].as_mut() {
                        state.ready_position = None;
                    }
                    let ghost middle = self.groups@;
                    assert(table(middle) =~= table(before));
                    if at < self.ready.len() {
                        let moved = self.ready[at];
                        let moved_index: usize = moved.get() as usize;
                        assert(moved == listing[last]);
                        assert(at_position(before[moved@ as int]->0, last));
                        assert(moved@ != group@);
                        if let Some(state) = self.groups[moved_index].as_mut() {
                            state.ready_position = Some(at);
                        }
                    }
                    assert(table(self.groups@) =~= table(before));
                    assert forall|i: int| 0 <= i < self.ready.len() implies {
                        &&& (#[trigger] self.ready@[i])@ < self.groups.len()
                        &&& self.groups@[self.ready@[i]@ as int] is Some
                        &&& at_position(self.groups@[self.ready@[i]@ as int]->0, i)
                    } by {
                        if i != at {
                            assert(self.ready@[i] == listing[i]);
                            assert(at_position(before[listing[i]@ as int]->0, i));
                        }
                    }
                }
            },
        }
    }

    /// The ready list names the ready groups, each once.
    proof fn lemma_ready_list(&self)
        requires
            self.shaped(-1),
            self.groups.len() <= u32::MAX,
        ensures
            self.ready@.no_duplicates(),
            forall|id: int|
                #![trigger self.state().ready(id)]
                self.state().ready(id) <==> 0 <= id <= u32::MAX && self.ready@.contains(
                    GroupId::at(id),
                ),
    {
        let s = self.state();
        assert forall|i: int, j: int|
            0 <= i < j < self.ready@.len() implies self.ready@[i] != self.ready@[j] by {
            assert(at_position(self.groups@[self.ready@[i]@ as int]->0, i));
            assert(at_position(self.groups@[self.ready@[j]@ as int]->0, j));
        }
        assert forall|id: int| #![trigger s.ready(id)]
            s.ready(id) <==> 0 <= id <= u32::MAX && self.ready@.contains(GroupId::at(id)) by {
            if s.ready(id) {
                let p = self.groups@[id]->0.ready_position->0;
                assert(self.ready@[p as int] == GroupId::at(id));
            }
            if 0 <= id <= u32::MAX && self.ready@.contains(GroupId::at(id)) {
                let i = choose|i: int|
                    0 <= i < self.ready@.len() && self.ready@[i] == GroupId::at(id);
                assert(self.ready@[i]@ == id);
                assert(at_position(self.groups@[id]->0, i));
            }
        }
    }

    /// Returns the ready set in group order.
    pub fn ready_groups(&self) -> (r: Vec<GroupId>)
        requires
            self.wf(),
        ensures
            r@ == self.state().ready_ids(),
    {
        proof {
            self.lemma_ready_list();
        }
        let sorted = sorted_ids(&self.ready);
        proof {
            let s = self.state();
            let pred = |id: int| s.ready(id);
            assert forall|i: int| 0 <= i < sorted.len() implies 0 <= (#[trigger] sorted@[i])@
                < s.slots.len() && pred(sorted@[i]@ as int) by {
                assert(sorted@.contains(sorted@[i]));
                assert(sorted@[i] == GroupId::at(sorted@[i]@ as int));
                assert(s.ready(sorted@[i]@ as int));
            }
            assert forall|id: int| 0 <= id < s.slots.len() && #[trigger] pred(
                id,
            ) implies sorted@.contains(GroupId::at(id)) by {
                assert(s.ready(id));
            }
            lemma_ids_unique(sorted@, 0, s.slots.len() as int, pred);
        }
        sorted
    }

    /// Returns one group's public view, when the slot has been created.
    pub fn group(&self, group: GroupId) -> (r: Option<GroupView>)
        requires
            self.wf(),
        ensures
            r is Some <==> self.state().slot(group) is Some,
            r is Some ==> r->0 == slot_view(group, self.state().slot(group)->0),
    {
        let index: usize = group.get() as usize;
        if index >= self.groups.len() {
            return None;
        }
        match &self.groups[index] {
            Some(state) => Some(group_view(group, state)),
            None => None,
        }
    }

    /// Returns one group's counter, when the slot holds one.
    pub fn counter(&self, group: GroupId) -> (r: Option<i64>)
        ensures
            r is Some <==> self.state().slot(group) is Some,
            r is Some ==> r->0 == self.state().slot(group)->0.counter,
    {
        let index: usize = group.get() as usize;
        if index >= self.groups.len() {
            return None;
        }
        match &self.groups[index] {
            Some(state) => Some(state.counter),
            None => None,
        }
    }

    /// Returns a canonical state view for differential assertions.
    pub fn view(&self) -> (r: SchedulerView)
        requires
            self.wf(),
        ensures
            r.groups@ == slot_views(self.state().slots),
            r.queued == self.state().queued,
    {
        let mut groups: Vec<GroupView> = Vec::new();
        let mut index: usize = 0;
        let ghost slots = self.state().slots;
        while index < self.groups.len()
            invariant
                self.wf(),
                slots == self.state().slots,
                index <= self.groups.len(),
                groups@ == slot_views(slots.take(index as int)),
            decreases self.groups.len() - index,
        {
            assert(slots.take(index + 1).drop_last() =~= slots.take(index as int));
            assert(slots.take(index + 1).last() == slots[index as int]);
            match &self.groups[index] {
                Some(state) => {
                    groups.push(group_view(GroupId::new(index as u32), state));
                    assert(groups@.last().group == GroupId::at(index as int));
                },
                None => {},
            }
            index = index + 1;
        }
        assert(slots.take(slots.len() as int) =~= slots);
        SchedulerView { groups, queued: self.queued }
    }

    /// Returns aggregate counts.
    pub fn summary(&self) -> (r: SchedulerSummary)
        requires
            self.wf(),
        ensures
            r.live_groups == count_slots(self.state().slots, |slot: GroupState| !departed(slot)),
            r.poisoned_groups == count_slots(self.state().slots, |slot: GroupState| slot.poisoned),
            r.ready_groups == self.state().ready_ids().len(),
            r.queued == self.state().queued,
            r.admitted == self.state().admitted,
            r.serviced == self.state().serviced,
            r.failed == self.state().failed,
    {
        let mut live: u32 = 0;
        let mut poisoned: u32 = 0;
        let mut index: usize = 0;
        let ghost slots = self.state().slots;
        let ghost is_live = |slot: GroupState| !departed(slot);
        let ghost is_poisoned = |slot: GroupState| slot.poisoned;
        while index < self.groups.len()
            invariant
                self.wf(),
                slots == self.state().slots,
                is_live == (|slot: GroupState| !departed(slot)),
                is_poisoned == (|slot: GroupState| slot.poisoned),
                index <= self.groups.len(),
                live == count_slots(slots.take(index as int), is_live),
                poisoned == count_slots(slots.take(index as int), is_poisoned),
                live <= index,
                poisoned <= index,
            decreases self.groups.len() - index,
        {
            assert(slots.take(index + 1).drop_last() =~= slots.take(index as int));
            assert(slots.take(index + 1).last() == slots[index as int]);
            match &self.groups[index] {
                Some(state) => {
                    if !matches!(state.state, GroupLifecycle::Removed | GroupLifecycle::Tombstoned)
                    {
                        live = live + 1;
                    }
                    if state.poisoned {
                        poisoned = poisoned + 1;
                    }
                },
                None => {},
            }
            index = index + 1;
        }
        assert(slots.take(slots.len() as int) =~= slots);
        let ready: usize = self.ready_groups().len();
        proof {
            let pred = |id: int| self.state().ready(id);
            lemma_ids_len(0, slots.len() as int, pred);
        }
        SchedulerSummary {
            live_groups: live,
            poisoned_groups: poisoned,
            ready_groups: ready as u32,
            queued: self.queued,
            admitted: self.admitted,
            serviced: self.serviced,
            failed: self.failed,
        }
    }
}

impl ManagedScheduler {
    /// Requests one administrative lifecycle transition.
    ///
    /// Administration addresses a slot, never an incarnation. Draining a poisoned group, also one
    /// that drains already, retires its queue item by item.
    pub fn lifecycle(&mut self, group: GroupId, request: LifecycleRequest) -> (r:
        LifecycleTransition)
        requires
            old(self).wf(),
        ensures
            final(self).wf(),
            final(self).state() == old(self).state().lifecycle(group, request).0,
            r.outcome == old(self).state().lifecycle(group, request).1,
            r.failed@ == old(self).state().lifecycle(group, request).2,
    {
        if !self.config.admits_group(group) {
            return LifecycleTransition::rejected(LifecycleRejection::GroupOutOfRange);
        }
        let mut failed: Vec<FailureRecord> = Vec::new();
        let outcome = match request {
            LifecycleRequest::Create { quota } => self.create(group, quota),
            LifecycleRequest::Recover => self.advance(
                group,
                GroupLifecycle::Creating,
                GroupLifecycle::Recovering,
            ),
            LifecycleRequest::Serve => self.advance(
                group,
                GroupLifecycle::Recovering,
                GroupLifecycle::Serving,
            ),
            LifecycleRequest::Drain => {
                let outcome = self.drain(group);
                if !matches!(outcome, LifecycleOutcome::Rejected(_)) {
                    proof {
                        lemma_drain_inv(old(self).state(), group);
                    }
                    failed = self.retire_poisoned_queue(group);
                }
                outcome
            },
            LifecycleRequest::Remove => self.remove(group),
            LifecycleRequest::Tombstone => self.advance(
                group,
                GroupLifecycle::Removed,
                GroupLifecycle::Tombstoned,
            ),
        };
        proof {
            lemma_lifecycle_inv(old(self).state(), group, request);
        }
        self.refresh_ready(group);
        LifecycleTransition { outcome, failed }
    }

    /// Grows the slot table until it holds `group`.
    fn grow(&mut self, group: GroupId)
        requires
            old(self).wf(),
            group@ < old(self).state().config.groups_bound(),
        ensures
            final(self).wf(),
            final(self).state() == old(self).state().grown(group),
            group@ < final(self).groups.len(),
    {
        let index: usize = group.get() as usize;
        let ghost before = self.groups@;
        while self.groups.len() <= index
            invariant
                index == group@,
                self.groups.len() >= before.len(),
                self.groups.len() > before.len() ==> self.groups.len() <= index + 1,
                forall|i: int| 0 <= i < before.len() ==> self.groups@[i] == before[i],
                forall|i: int| before.len() <= i < self.groups.len() ==> self.groups@[i] is None,
                *self == (ManagedScheduler { groups: self.groups, ..*old(self) }),
                before == old(self).groups@,
                old(self).shaped(-1),
                self.shaped(-1),
            decreases index + 1 - self.groups.len(),
        {
            self.groups.push(None);
        }
        assert(self.state() =~= old(self).state().grown(group));
        proof {
            lemma_grown(old(self).state(), group);
        }
    }

    fn create(&mut self, group: GroupId, quota: WorkQuota) -> (r: LifecycleOutcome)
        requires
            old(self).wf(),
            group@ < old(self).state().config.groups_bound(),
        ensures
            final(self).state() == old(self).state().create(group, quota).0,
            r == old(self).state().create(group, quota).1,
            final(self).shaped(group@ as int),
            final(self).groups.len() <= u32::MAX,
            quota.valid(),
    {
        proof {
            use_type_invariant(&quota);
        }
        self.grow(group);
        let index: usize = group.get() as usize;
        let ghost grown = self.state();
        let ghost before = self.groups@;
        let Some(state) = self.groups[index].as_mut() else {
            self.groups.set(index, Some(Group::new(GroupIncarnation::first(), quota)));
            assert(self.state() =~= old(self).state().create(group, quota).0);
            return LifecycleOutcome::Created { incarnation: GroupIncarnation::first() };
        };
        let outcome = match state.state {
            GroupLifecycle::Creating => {
                if state.quota == quota {
                    LifecycleOutcome::Idempotent {
                        state: state.state,
                        incarnation: state.incarnation,
                    }
                } else {
                    LifecycleOutcome::Rejected(
                        LifecycleRejection::QuotaConflict { current: state.quota },
                    )
                }
            },
            GroupLifecycle::Removed => {
                match state.incarnation.successor() {
                    None => LifecycleOutcome::Rejected(LifecycleRejection::IncarnationExhausted),
                    Some(next) => {
                        state.incarnation = next;
                        state.state = GroupLifecycle::Creating;
                        state.quota = quota;
                        state.clear();
                        LifecycleOutcome::Created { incarnation: next }
                    },
                }
            },
            GroupLifecycle::Tombstoned => {
                LifecycleOutcome::Rejected(LifecycleRejection::GroupTombstoned)
            },
            current => LifecycleOutcome::Rejected(
                LifecycleRejection::Conflict { current, requested: GroupLifecycle::Creating },
            ),
        };
        assert(self.state() =~= old(self).state().create(group, quota).0);
        outcome
    }

    /// Applies a transition that has exactly one legal predecessor.
    fn advance(&mut self, group: GroupId, from: GroupLifecycle, to: GroupLifecycle) -> (r:
        LifecycleOutcome)
        requires
            old(self).wf(),
        ensures
            final(self).state() == old(self).state().advance(group, from, to).0,
            r == old(self).state().advance(group, from, to).1,
            final(self).shaped(group@ as int),
            final(self).groups.len() <= u32::MAX,
    {
        let index: usize = group.get() as usize;
        if index >= self.groups.len() {
            return LifecycleOutcome::Rejected(LifecycleRejection::GroupUnknown);
        }
        let Some(state) = self.groups[index].as_mut() else {
            return LifecycleOutcome::Rejected(LifecycleRejection::GroupUnknown);
        };
        if state.state == to {
            return LifecycleOutcome::Idempotent { state: to, incarnation: state.incarnation };
        }
        if state.state == GroupLifecycle::Tombstoned {
            return LifecycleOutcome::Rejected(LifecycleRejection::GroupTombstoned);
        }
        if state.state != from {
            return LifecycleOutcome::Rejected(
                LifecycleRejection::Conflict { current: state.state, requested: to },
            );
        }
        state.state = to;
        let incarnation = state.incarnation;
        assert(self.state() =~= old(self).state().advance(group, from, to).0);
        LifecycleOutcome::Applied { from, to, incarnation }
    }

    /// Enters draining, which three states may do.
    fn drain(&mut self, group: GroupId) -> (r: LifecycleOutcome)
        requires
            old(self).wf(),
        ensures
            final(self).state() == old(self).state().drain(group).0,
            r == old(self).state().drain(group).1,
            final(self).shaped(group@ as int),
            final(self).groups.len() <= u32::MAX,
    {
        let index: usize = group.get() as usize;
        if index >= self.groups.len() {
            return LifecycleOutcome::Rejected(LifecycleRejection::GroupUnknown);
        }
        let Some(state) = self.groups[index].as_mut() else {
            return LifecycleOutcome::Rejected(LifecycleRejection::GroupUnknown);
        };
        let outcome = match state.state {
            GroupLifecycle::Draining => LifecycleOutcome::Idempotent {
                state: GroupLifecycle::Draining,
                incarnation: state.incarnation,
            },
            GroupLifecycle::Tombstoned => {
                LifecycleOutcome::Rejected(LifecycleRejection::GroupTombstoned)
            },
            GroupLifecycle::Removed => LifecycleOutcome::Rejected(
                LifecycleRejection::Conflict {
                    current: GroupLifecycle::Removed,
                    requested: GroupLifecycle::Draining,
                },
            ),
            current => {
                state.state = GroupLifecycle::Draining;
                LifecycleOutcome::Applied {
                    from: current,
                    to: GroupLifecycle::Draining,
                    incarnation: state.incarnation,
                }
            },
        };
        assert(self.state() =~= old(self).state().drain(group).0);
        outcome
    }

    /// Removes a drained slot; removal cannot outrun the queue.
    fn remove(&mut self, group: GroupId) -> (r: LifecycleOutcome)
        requires
            old(self).wf(),
        ensures
            final(self).state() == old(self).state().remove(group).0,
            r == old(self).state().remove(group).1,
            final(self).shaped(group@ as int),
            final(self).groups.len() <= u32::MAX,
    {
        let index: usize = group.get() as usize;
        if index >= self.groups.len() {
            return LifecycleOutcome::Rejected(LifecycleRejection::GroupUnknown);
        }
        let Some(state) = self.groups[index].as_mut() else {
            return LifecycleOutcome::Rejected(LifecycleRejection::GroupUnknown);
        };
        if state.state == GroupLifecycle::Draining {
            if state.queued > 0 {
                return LifecycleOutcome::Rejected(
                    LifecycleRejection::QueueNotDrained { pending: state.queued },
                );
            }
            state.state = GroupLifecycle::Removed;
            state.clear();
            let incarnation = state.incarnation;
            assert(self.state() =~= old(self).state().remove(group).0);
            return LifecycleOutcome::Applied {
                from: GroupLifecycle::Draining,
                to: GroupLifecycle::Removed,
                incarnation,
            };
        }
        assert(self.groups@ =~= old(self).groups@);
        self.advance(group, GroupLifecycle::Draining, GroupLifecycle::Removed)
    }

    /// Retires a poisoned group's queue, one failure record per item in service order.
    fn retire_poisoned_queue(&mut self, group: GroupId) -> (r: Vec<FailureRecord>)
        requires
            old(self).shaped(group@ as int),
            inv(old(self).state()),
        ensures
            final(self).state() == old(self).state().retire_poisoned(group).0,
            r@ == old(self).state().retire_poisoned(group).1,
            final(self).shaped(group@ as int),
            final(self).groups.len() <= u32::MAX,
    {
        let mut failed: Vec<FailureRecord> = Vec::new();
        let index: usize = group.get() as usize;
        if index >= self.groups.len() {
            return failed;
        }
        let ghost start = self.state();
        let Some(state) = self.groups[index].as_mut() else {
            return failed;
        };
        if !state.poisoned {
            return failed;
        }
        let ghost slot = state@;
        let ghost position = state.ready_position;
        let ghost order = slot.queue.service_order();
        let retired: u32 = state.queued;
        assert(failed@ =~= failure_records(group, order.take(0)));
        loop
            invariant
                state.counted(),
                state.ready_position == position,
                slot.queue.service_order() == order,
                state@ == (GroupState { queue: state@.queue, ..slot }),
                failed@.len() <= order.len(),
                failed@ == failure_records(group, order.take(failed@.len() as int)),
                state@.queue.service_order() == order.skip(failed@.len() as int),
            ensures
                state.counted(),
                state.ready_position == position,
                state@ == (GroupState { queue: ClassQueues::empty(), ..slot }),
                failed@ == failure_records(group, order),
            decreases order.len() - failed@.len(),
        {
            let ghost queue = state@.queue;
            proof {
                lemma_service_order(queue);
            }
            match state.take_next() {
                None => {
                    assert(queue =~= ClassQueues::empty());
                    assert(order.take(failed@.len() as int) =~= order);
                    break;
                },
                Some(item) => {
                    let ghost done = failed@.len() as int;
                    assert(order[done] == order.skip(done)[0]);
                    failed.push(
                        FailureRecord { work: item.id, group, reason: WorkFailure::GroupPoisoned },
                    );
                    assert(failed@ =~= failure_records(group, order.take(done + 1)));
                    assert(order.skip(done).drop_first() =~= order.skip(done + 1));
                },
            }
        }
        let mut i: usize = 0;
        let ghost sessions = slot.sessions;
        while i < state.sessions.len()
            invariant
                i <= state.sessions.len(),
                state.sessions.len() == sessions.len(),
                state.ready_position == position,
                state@ == (GroupState {
                    queue: ClassQueues::empty(),
                    sessions: state@.sessions,
                    ..slot
                }),
                state.counted(),
                forall|j: int| 0 <= j < i ==> state.sessions@[j] == abandoned(sessions)[j],
                forall|j: int| i <= j < sessions.len() ==> state.sessions@[j] == sessions[j],
            decreases state.sessions.len() - i,
        {
            let session = state.sessions[i];
            state.sessions.set(
                i,
                Session {
                    client_id: session.client_id,
                    epoch: session.epoch,
                    outstanding: None,
                    completed: session.completed,
                },
            );
            i = i + 1;
        }
        assert(state@.sessions =~= abandoned(sessions));
        proof {
            lemma_total_bounds(start.slots, index as int);
        }
        self.queued = self.queued - retired;
        self.failed = self.failed + retired as u64;
        assert(self.state() =~= start.retire_poisoned(group).0);
        failed
    }
}

/// Decides one counter submission against its client session: `Some` carries the answer the
/// caller must return, `None` lets the request proceed to the queue bounds as new work.
///
/// The completed cache answers before any queue bound is consulted, so an acknowledged request
/// stays confirmable while the queue is full.
pub(crate) fn admit_under_session(session: &Session, request: RequestIdentity, command: CounterCommand) -> (r:
    Option<AdmissionOutcome>)
    ensures
        r == session_answer(*session, request, command),
{
    if request.session_epoch.get() < session.epoch.get() {
        return Some(
            AdmissionOutcome::Rejected(AdmissionRejection::StaleSession { current: session.epoch }),
        );
    }
    if request.session_epoch.get() > session.epoch.get() {
        return Some(
            AdmissionOutcome::Rejected(
                AdmissionRejection::FutureSession { current: session.epoch },
            ),
        );
    }
    let recomputed = RequestFingerprint::of(&command);
    if request.fingerprint != recomputed {
        return Some(
            AdmissionOutcome::Rejected(
                AdmissionRejection::FingerprintMismatch { expected: recomputed },
            ),
        );
    }
    let mut expected = Sequence::first();
    if let Some(completed) = session.completed {
        if request.sequence.get() < completed.sequence.get() {
            return Some(
                AdmissionOutcome::Rejected(
                    AdmissionRejection::StaleSequence { highest: completed.sequence },
                ),
            );
        }
        if request.sequence == completed.sequence {
            return Some(
                if command == completed.command {
                    AdmissionOutcome::Replayed { result: completed.result }
                } else {
                    AdmissionOutcome::Rejected(AdmissionRejection::ConflictingRetry)
                },
            );
        }
        match completed.sequence.successor() {
            Some(successor) => {
                expected = successor;
            },
            None => {
                return Some(AdmissionOutcome::Rejected(AdmissionRejection::SequenceExhausted));
            },
        }
    }
    if let Some(outstanding) = session.outstanding {
        if request.sequence == outstanding.sequence {
            return Some(
                if command == outstanding.command {
                    AdmissionOutcome::AlreadyQueued { work: outstanding.work }
                } else {
                    AdmissionOutcome::Rejected(AdmissionRejection::ConflictingRetry)
                },
            );
        }
    }
    if request.sequence != expected {
        return Some(AdmissionOutcome::Rejected(AdmissionRejection::SequenceGap { expected }));
    }
    None
}

impl ManagedScheduler {
    /// Applies every gate that depends only on the addressed slot's identity.
    fn admit_group(&self, group: GroupId, incarnation: GroupIncarnation) -> (r: Option<
        AdmissionRejection,
    >)
        ensures
            r == self.state().address(group, incarnation),
            r is None ==> group@ < self.groups.len() && self.groups[group@ as int] is Some,
    {
        if !self.config.admits_group(group) {
            return Some(AdmissionRejection::GroupOutOfRange);
        }
        let index: usize = group.get() as usize;
        if index >= self.groups.len() {
            return Some(AdmissionRejection::GroupUnknown);
        }
        match &self.groups[index] {
            None => Some(AdmissionRejection::GroupUnknown),
            Some(state) => {
                if state.state == GroupLifecycle::Tombstoned {
                    Some(AdmissionRejection::GroupTombstoned)
                } else if incarnation.get() < state.incarnation.get() {
                    Some(AdmissionRejection::StaleIncarnation { current: state.incarnation })
                } else if incarnation.get() > state.incarnation.get() {
                    Some(AdmissionRejection::FutureIncarnation { current: state.incarnation })
                } else {
                    None
                }
            },
        }
    }

    /// Decides a session request: the answer, and the position of the client's session when it
    /// holds one.
    fn session_gate(
        &self,
        group: GroupId,
        incarnation: GroupIncarnation,
        client_id: ClientId,
        epoch: SessionEpoch,
    ) -> (r: (SessionOutcome, usize))
        ensures
            r.0 == self.state().session_outcome(group, incarnation, client_id, epoch),
            r.0 is Opened || r.0 is Replaced ==> group@ < self.groups.len()
                && self.groups[group@ as int] is Some,
            r.0 is Replaced ==> find_session(
                self.state().slot(group)->0.sessions,
                client_id,
            ) == Some(r.1 as int) && r.1 < self.state().slot(group)->0.sessions.len(),
    {
        if let Some(rejection) = self.admit_group(group, incarnation) {
            return (SessionOutcome::Rejected(rejection), 0);
        }
        let index: usize = group.get() as usize;
        let Some(state) = &self.groups[index] else {
            return (SessionOutcome::Rejected(AdmissionRejection::GroupUnknown), 0);
        };
        if !state.state.admits_sessions() {
            return (
                SessionOutcome::Rejected(
                    AdmissionRejection::GroupNotAcceptingSessions { state: state.state },
                ),
                0,
            );
        }
        if state.poisoned {
            return (SessionOutcome::Rejected(AdmissionRejection::GroupPoisoned), 0);
        }
        if !self.config.admits_client(client_id) {
            return (SessionOutcome::Rejected(AdmissionRejection::ClientOutOfRange), 0);
        }
        match session_index(&state.sessions, client_id) {
            None => (SessionOutcome::Opened { session_epoch: epoch }, 0),
            Some(i) => {
                let current = state.sessions[i].epoch;
                if epoch.get() < current.get() {
                    (SessionOutcome::Rejected(AdmissionRejection::StaleSession { current }), i)
                } else if epoch.get() == current.get() {
                    (SessionOutcome::AlreadyOpen { session_epoch: epoch }, i)
                } else {
                    (SessionOutcome::Replaced { session_epoch: epoch }, i)
                }
            },
        }
    }

    /// Opens or advances one client session inside one group.
    ///
    /// Session establishment is an admission-gate action rather than queued work. A greater epoch
    /// clears the slot's deduplication state and nothing else: work already admitted stays queued.
    pub fn open_session(
        &mut self,
        group: GroupId,
        incarnation: GroupIncarnation,
        client_id: ClientId,
        epoch: SessionEpoch,
    ) -> (r: SessionOutcome)
        requires
            old(self).wf(),
        ensures
            final(self).wf(),
            final(self).state() == old(self).state().open_session(
                group,
                incarnation,
                client_id,
                epoch,
            ),
            r == old(self).state().session_outcome(group, incarnation, client_id, epoch),
    {
        let (outcome, holder) = self.session_gate(group, incarnation, client_id, epoch);
        proof {
            lemma_open_session_inv(self.state(), group, incarnation, client_id, epoch);
        }
        let blank = Session { client_id, epoch, outstanding: None, completed: None };
        let index: usize = group.get() as usize;
        match outcome {
            SessionOutcome::Opened { .. } => {
                if let Some(state) = self.groups[index].as_mut() {
                    state.sessions.push(blank);
                }
                assert(self.state() =~= old(self).state().open_session(
                    group,
                    incarnation,
                    client_id,
                    epoch,
                ));
            },
            SessionOutcome::Replaced { .. } => {
                if let Some(state) = self.groups[index].as_mut() {
                    state.sessions.set(holder, blank);
                }
                assert(self.state() =~= old(self).state().open_session(
                    group,
                    incarnation,
                    client_id,
                    epoch,
                ));
            },
            _ => {},
        }
        outcome
    }

    /// Decides a submission: `Some` is the answer of one that takes no queue slot, `None` lets the
    /// work in. The position of the client's session comes with it, for a counter request.
    fn submit_gate(&self, group: GroupId, incarnation: GroupIncarnation, work: Work) -> (r: (
        Option<AdmissionOutcome>,
        usize,
    ))
        requires
            self.wf(),
        ensures
            ({
                let outcome = self.state().submit_outcome(group, incarnation, work);
                match r.0 {
                    Some(answer) => answer == outcome && !(outcome is Queued),
                    None => outcome is Queued && outcome->Queued_work@ == self.next_work,
                }
            }),
            r.0 is None ==> group@ < self.groups.len() && self.groups[group@ as int] is Some,
            r.0 is None && work is Counter ==> find_session(
                self.state().slot(group)->0.sessions,
                work->Counter_request.client_id,
            ) == Some(r.1 as int) && r.1 < self.state().slot(group)->0.sessions.len(),
    {
        if let Some(rejection) = self.admit_group(group, incarnation) {
            return (Some(AdmissionOutcome::Rejected(rejection)), 0);
        }
        let class = work.class();
        let index: usize = group.get() as usize;
        let Some(state) = &self.groups[index] else {
            return (Some(AdmissionOutcome::Rejected(AdmissionRejection::GroupUnknown)), 0);
        };
        if !state.state.admits(class) {
            return (
                Some(
                    AdmissionOutcome::Rejected(
                        AdmissionRejection::GroupNotAcceptingWork { state: state.state, class },
                    ),
                ),
                0,
            );
        }
        if state.poisoned {
            return (Some(AdmissionOutcome::Rejected(AdmissionRejection::GroupPoisoned)), 0);
        }
        let mut holder: usize = 0;
        if let Work::Counter { request, command, .. } = work {
            if !self.config.admits_client(request.client_id) {
                return (Some(AdmissionOutcome::Rejected(AdmissionRejection::ClientOutOfRange)), 0);
            }
            match session_index(&state.sessions, request.client_id) {
                None => {
                    return (
                        Some(AdmissionOutcome::Rejected(AdmissionRejection::SessionNotOpen)),
                        0,
                    );
                },
                Some(i) => {
                    let answer = admit_under_session(&state.sessions[i], request, command);
                    if answer.is_some() {
                        return (answer, i);
                    }
                    holder = i;
                },
            }
        }
        let group_limit: u32 = self.config.max_group_queue();
        if state.queued >= group_limit {
            return (
                Some(
                    AdmissionOutcome::Rejected(
                        AdmissionRejection::GroupQueueFull { limit: group_limit },
                    ),
                ),
                holder,
            );
        }
        let global_limit: u32 = self.config.max_global_queue();
        if self.queued >= global_limit {
            return (
                Some(
                    AdmissionOutcome::Rejected(
                        AdmissionRejection::GlobalQueueFull { limit: global_limit },
                    ),
                ),
                holder,
            );
        }
        (None, holder)
    }

    /// Submits one unit of work to one group incarnation.
    ///
    /// Identifiers are spent only by submissions that take a queue slot, so their sequence has no
    /// gaps.
    pub fn submit(&mut self, group: GroupId, incarnation: GroupIncarnation, work: Work) -> (r:
        AdmissionOutcome)
        requires
            old(self).wf(),
            old(self).state().submit_outcome(group, incarnation, work) is Queued
                ==> old(self).state().next_work < u64::MAX,
        ensures
            final(self).wf(),
            final(self).state() == old(self).state().submit(group, incarnation, work),
            r == old(self).state().submit_outcome(group, incarnation, work),
    {
        let (answer, holder) = self.submit_gate(group, incarnation, work);
        if let Some(answer) = answer {
            return answer;
        }
        let cost = work.cost();
        proof {
            use_type_invariant(&cost);
            lemma_submit_inv(self.state(), group, incarnation, work);
        }
        let id = match WorkId::new(self.next_work) {
            Some(id) => id,
            None => {
                return AdmissionOutcome::Rejected(AdmissionRejection::GroupUnknown);
            },
        };
        let index: usize = group.get() as usize;
        if let Some(state) = self.groups[index].as_mut() {
            state.enqueue(QueuedWork { id, work });
            if let Work::Counter { request, command, .. } = work {
                let session = state.sessions[holder];
                state.sessions.set(
                    holder,
                    Session {
                        client_id: session.client_id,
                        epoch: session.epoch,
                        outstanding: Some(
                            Outstanding { sequence: request.sequence, command, work: id },
                        ),
                        completed: session.completed,
                    },
                );
            }
        }
        self.next_work = self.next_work + 1;
        self.queued = self.queued + 1;
        self.admitted = self.admitted + 1;
        assert(self.state() =~= old(self).state().submit(group, incarnation, work));
        self.refresh_ready(group);
        AdmissionOutcome::Queued { work: id }
    }
}

/// Some worker before `bound` is due and serves `group`.
spec fn due_below(s: SchedulerState, bound: int, group: GroupId) -> bool {
    exists|v: int|
        0 <= v < bound && #[trigger] s.worker_due(v) && s.workers[v]->0.group == group
}

/// A report in the mathematical model.
spec fn report_state(report: TickReport) -> ReportState {
    ReportState {
        tick: report.tick@,
        pass: report.pass,
        armed: match report.armed {
            Some(entries) => Some(entries@),
            None => None,
        },
        offers: report.offers@,
        serviced: report.serviced@,
        released: report.released@,
        progress: report.progress,
    }
}

impl ManagedScheduler {
    /// Applies external readiness reports in order.
    fn apply_signals(&mut self, signals: &[ReadinessSignal])
        requires
            old(self).wf(),
        ensures
            final(self).wf(),
            final(self).state() == old(self).state().all_signalled(signals@),
    {
        let mut i: usize = 0;
        assert(signals@.take(0) =~= Seq::<ReadinessSignal>::empty());
        while i < signals.len()
            invariant
                i <= signals.len(),
                self.wf(),
                self.state() == old(self).state().all_signalled(signals@.take(i as int)),
            decreases signals.len() - i,
        {
            let signal = signals[i];
            let ghost before = self.state();
            proof {
                lemma_signalled_inv(before, signal);
                assert(signals@.take(i + 1).drop_last() =~= signals@.take(i as int));
                assert(signals@.take(i + 1).last() == signal);
            }
            let index: usize = signal.group.get() as usize;
            if self.config.admits_group(signal.group) && index < self.groups.len() {
                let stalled = matches!(signal.availability, GroupAvailability::Stalled);
                if let Some(state) = self.groups[index].as_mut() {
                    state.stalled = stalled;
                }
                assert(self.state() =~= before.signalled(signal));
                self.refresh_ready(signal.group);
            }
            assert(self.state() =~= before.signalled(signal));
            i = i + 1;
        }
        assert(signals@.take(signals.len() as int) =~= signals@);
    }

    /// Frees every worker whose cost is paid and lists the groups they served.
    fn free_due_workers(&mut self) -> (r: Vec<GroupId>)
        requires
            old(self).wf(),
        ensures
            final(self).shaped(-1),
            final(self).state() == (SchedulerState {
                workers: old(self).state().released().workers,
                ..old(self).state()
            }),
            r@ == old(self).state().due_ids(),
    {
        let ghost start = self.state();
        let now: u64 = self.tick.get();
        let mut released: Vec<GroupId> = Vec::new();
        let mut w: usize = 0;
        while w < self.workers.len()
            invariant
                start == old(self).state(),
                inv(start),
                now == start.tick,
                w <= self.workers.len(),
                self.workers.len() == start.workers.len(),
                *self == (ManagedScheduler { workers: self.workers, ..*old(self) }),
                forall|v: int| 0 <= v < w ==> self.workers@[v] == start.released().workers[v],
                forall|v: int| w <= v < self.workers.len() ==> self.workers@[v] == start.workers[v],
                released@.no_duplicates(),
                forall|v: int|
                    0 <= v < w && #[trigger] start.worker_due(v) ==> released@.contains(
                        start.workers[v]->0.group,
                    ),
                forall|i: int|
                    0 <= i < released.len() ==> due_below(start, w as int, #[trigger] released@[i]),
            decreases self.workers.len() - w,
        {
            let ghost before = released@;
            if let Some(dispatch) = self.workers[w] {
                if dispatch.busy_until.get() <= now {
                    assert(start.worker_due(w as int));
                    assert(!before.contains(dispatch.group)) by {
                        if before.contains(dispatch.group) {
                            let i = choose|i: int|
                                0 <= i < before.len() && before[i] == dispatch.group;
                            assert(due_below(start, w as int, before[i]));
                            let v = choose|v: int|
                                0 <= v < w && #[trigger] start.worker_due(v)
                                    && start.workers[v]->0.group == before[i];
                            assert(start.workers[v]->0.group@ != start.workers[w as int]->0.group@);
                        }
                    }
                    self.workers.set(w, None);
                    released.push(dispatch.group);
                    assert forall|v: int|
                        0 <= v < w + 1 && #[trigger] start.worker_due(v) implies released@.contains(
                        start.workers[v]->0.group,
                    ) by {
                        if v == w {
                            assert(released@[before.len() as int] == dispatch.group);
                        } else {
                            let i = choose|i: int|
                                0 <= i < before.len() && before[i] == start.workers[v]->0.group;
                            assert(released@[i] == start.workers[v]->0.group);
                        }
                    }
                    assert forall|i: int| 0 <= i < released.len() implies due_below(
                        start,
                        w + 1,
                        #[trigger] released@[i],
                    ) by {
                        if i < before.len() {
                            assert(due_below(start, w as int, before[i]));
                        }
                    }
                }
            }
            w = w + 1;
        }
        assert(self.workers@ =~= start.released().workers);
        assert(self.state() =~= (SchedulerState { workers: start.released().workers, ..start }));
        let sorted = sorted_ids(&released);
        proof {
            let pred = |id: int| start.group_due(id);
            assert forall|i: int| 0 <= i < sorted.len() implies 0 <= (#[trigger] sorted@[i])@
                < start.slots.len() && pred(sorted@[i]@ as int) by {
                assert(sorted@.contains(sorted@[i]));
                let k = choose|k: int| 0 <= k < released.len() && released@[k] == sorted@[i];
                assert(due_below(start, start.workers.len() as int, released@[k]));
                let v = choose|v: int|
                    #[trigger] start.worker_due(v) && start.workers[v]->0.group == released@[k];
                assert(start.group_due(sorted@[i]@ as int));
            }
            assert forall|id: int| 0 <= id < start.slots.len() && #[trigger] pred(
                id,
            ) implies sorted@.contains(GroupId::at(id)) by {
                let v = choose|v: int|
                    #[trigger] start.worker_due(v) && start.workers[v]->0.group@ == id;
                assert(start.workers[v]->0.group == GroupId::at(id));
            }
            lemma_ids_unique(sorted@, 0, start.slots.len() as int, pred);
        }
        sorted
    }

    /// Frees every worker whose cost is paid and releases the groups they served.
    fn release_workers(&mut self) -> (r: Vec<GroupId>)
        requires
            old(self).wf(),
        ensures
            final(self).wf(),
            final(self).state() == old(self).state().released(),
            r@ == old(self).state().due_ids(),
    {
        let ghost start = self.state();
        let released = self.free_due_workers();
        let ghost freed = self.state();
        let ghost pred = |id: int| start.group_due(id);
        proof {
            lemma_ids_where(0, start.slots.len() as int, pred);
        }
        let mut i: usize = 0;
        while i < released.len()
            invariant
                i <= released.len(),
                self.shaped(-1),
                inv(start),
                released@ == start.due_ids(),
                pred == (|id: int| start.group_due(id)),
                forall|k: int|
                    0 <= k < released.len() ==> 0 <= (#[trigger] released@[k])@
                        < start.slots.len(),
                forall|j: int, k: int| 0 <= j < k < released.len() ==> released@[j]@ < released@[k]@,
                freed == (SchedulerState { workers: start.released().workers, ..start }),
                self.state() == (SchedulerState { slots: self.state().slots, ..freed }),
                self.state().slots.len() == start.slots.len(),
                forall|k: int|
                    0 <= k < i ==> self.state().slots[(#[trigger] released@[k])@ as int]
                        == start.released().slots[released@[k]@ as int],
                forall|id: int|
                    0 <= id < start.slots.len() && !released@.take(i as int).contains(
                        GroupId::at(id),
                    ) ==> #[trigger] self.state().slots[id] == start.slots[id],
            decreases released.len() - i,
        {
            let group = released[i];
            let index: usize = group.get() as usize;
            let ghost before = self.state();
            proof {
                assert(!released@.take(i as int).contains(GroupId::at(group@ as int))) by {
                    if released@.take(i as int).contains(GroupId::at(group@ as int)) {
                        let k = choose|k: int|
                            0 <= k < i && released@.take(i as int)[k] == GroupId::at(group@ as int);
                        assert(released@[k]@ < released@[i as int]@);
                    }
                }
                lemma_ids_where(0, start.slots.len() as int, pred);
                assert(pred(released@[i as int]@ as int));
                let w = choose|w: int|
                    #[trigger] start.worker_due(w) && start.workers[w]->0.group@ == group@;
                assert(start.workers[w] is Some);
                assert(start.slots[group@ as int] is Some);
                assert(before.slots[group@ as int] == start.slots[group@ as int]);
                assert(start.group_due(group@ as int));
            }
            if let Some(state) = self.groups[index].as_mut() {
                state.servicing = false;
            }
            assert(self.groups@[index as int]->0@ =~= (GroupState {
                servicing: false,
                ..start.slots[index as int]->0
            }));
            assert(self.state().slots =~= before.slots.update(
                index as int,
                start.released().slots[index as int],
            ));
            self.refresh_ready(group);
            proof {
                let seen = released@.take(i as int);
                let more = released@.take(i + 1);
                assert(more =~= seen.push(group));
                assert forall|id: int| 0 <= id < start.slots.len() && !more.contains(
                    GroupId::at(id),
                ) implies #[trigger] self.state().slots[id] == start.slots[id] by {
                    assert(more[i as int] == group);
                    if seen.contains(GroupId::at(id)) {
                        let k = choose|k: int| 0 <= k < seen.len() && seen[k] == GroupId::at(id);
                        assert(more[k] == GroupId::at(id));
                    }
                    if id == group@ {
                        assert(more[i as int] == GroupId::at(id));
                    }
                }
            }
            i = i + 1;
        }
        proof {
            assert(released@.take(released.len() as int) =~= released@);
            lemma_ids_where(0, start.slots.len() as int, pred);
            assert forall|id: int| 0 <= id < start.slots.len() implies #[trigger] self.state().slots[id]
                == start.released().slots[id] by {
                if pred(id) {
                    assert(released@.contains(GroupId::at(id)));
                    let k = choose|k: int| 0 <= k < released.len() && released@[k] == GroupId::at(id);
                    assert(released@[k]@ == id);
                } else {
                    if released@.contains(GroupId::at(id)) {
                        let k = choose|k: int|
                            0 <= k < released.len() && released@[k] == GroupId::at(id);
                        assert(pred(released@[k]@ as int));
                    }
                }
            }
            assert(self.state().slots =~= start.released().slots);
            assert(self.state() =~= start.released());
            lemma_released_inv(start);
        }
        released
    }

    /// Takes an ordered snapshot of the ready set, starting at the cursor.
    fn arm(&self) -> (r: Vec<GroupId>)
        requires
            self.wf(),
        ensures
            r@ == self.state().plan_order(),
    {
        let ready = self.ready_groups();
        let ghost s = self.state();
        let ghost pred = |id: int| s.ready(id);
        proof {
            lemma_ids_where(0, s.slots.len() as int, pred);
        }
        let mut entries: Vec<GroupId> = Vec::new();
        let mut split: usize = 0;
        while split < ready.len() && ready[split].get() < self.cursor
            invariant
                split <= ready.len(),
                forall|i: int| 0 <= i < split ==> (#[trigger] ready@[i])@ < self.cursor,
            decreases ready.len() - split,
        {
            split = split + 1;
        }
        let mut i: usize = split;
        while i < ready.len()
            invariant
                split <= i <= ready.len(),
                entries@ =~= ready@.subrange(split as int, i as int),
            decreases ready.len() - i,
        {
            entries.push(ready[i]);
            i = i + 1;
        }
        let mut j: usize = 0;
        while j < split
            invariant
                j <= split <= ready.len(),
                entries@ =~= ready@.subrange(split as int, ready.len() as int) + ready@.subrange(
                    0,
                    j as int,
                ),
            decreases split - j,
        {
            entries.push(ready[j]);
            j = j + 1;
        }
        proof {
            let high = ready@.subrange(split as int, ready.len() as int);
            let low = ready@.subrange(0, split as int);
            let bound = if s.cursor < s.slots.len() {
                s.cursor as int
            } else {
                s.slots.len() as int
            };
            assert forall|k: int| 0 <= k < high.len() implies s.cursor <= (#[trigger] high[k])@
                < s.slots.len() && pred(high[k]@ as int) by {
                assert(high[k] == ready@[split + k]);
                if k > 0 {
                    assert(ready@[split as int]@ < ready@[split + k]@);
                }
            }
            assert forall|id: int| s.cursor <= id < s.slots.len() && #[trigger] pred(
                id,
            ) implies high.contains(GroupId::at(id)) by {
                assert(ready@.contains(GroupId::at(id)));
                let k = choose|k: int| 0 <= k < ready.len() && ready@[k] == GroupId::at(id);
                assert(ready@[k]@ == id);
                assert(high[k - split] == GroupId::at(id));
            }
            lemma_ids_unique(high, s.cursor as int, s.slots.len() as int, pred);
            assert forall|k: int| 0 <= k < low.len() implies 0 <= (#[trigger] low[k])@ < bound
                && pred(low[k]@ as int) by {
                assert(low[k] == ready@[k]);
            }
            assert forall|id: int| 0 <= id < bound && #[trigger] pred(id) implies low.contains(
                GroupId::at(id),
            ) by {
                assert(ready@.contains(GroupId::at(id)));
                let k = choose|k: int| 0 <= k < ready.len() && ready@[k] == GroupId::at(id);
                assert(ready@[k]@ == id);
                if k >= split {
                    assert(high[k - split] == ready@[k]);
                }
                assert(low[k] == GroupId::at(id));
            }
            lemma_ids_unique(low, 0, bound, pred);
        }
        entries
    }

    /// Returns the first free worker.
    fn free_worker(&self) -> (r: Option<usize>)
        ensures
            match r {
                Some(w) => first_free(self.state().workers, 0) == Some(w as int) && w
                    < self.workers.len() && self.workers[w as int] is None,
                None => first_free(self.state().workers, 0) is None,
            },
    {
        let mut w: usize = 0;
        while w < self.workers.len()
            invariant
                w <= self.workers.len(),
                first_free(self.workers@, 0) == first_free(self.workers@, w as int),
            decreases self.workers.len() - w,
        {
            if self.workers[w].is_none() {
                return Some(w);
            }
            w = w + 1;
        }
        None
    }

    /// Offers one planned group its turn on a free worker.
    fn offer(
        &mut self,
        group: GroupId,
        worker: usize,
        records: &mut Vec<ServiceRecord>,
        Ghost(plan): Ghost<PlanState>,
    ) -> (r: OfferOutcome)
        requires
            old(self).shaped(-1),
            core_inv(old(self).state()),
            plan_ok(old(self).state(), plan),
            plan.next < plan.entries.len(),
            group == plan.entries[plan.next as int],
            worker < old(self).state().workers.len(),
            old(self).state().workers[worker as int] is None,
        ensures
            final(self).shaped(-1),
            final(self).state() == old(self).state().offered(group, worker as int),
            r == old(self).state().offer_outcome(group),
            final(records)@ == old(records)@ + old(self).state().offer_records(group),
    {
        let ghost s = self.state();
        let ghost slot = s.slot(group)->0;
        proof {
            lemma_offered(s, plan, worker as int);
            assert(owed(slot));
            assert(group_ok(slot, s.config, s.next_work));
            assert(old(records)@ + Seq::<ServiceRecord>::empty() =~= old(records)@);
        }
        let index: usize = group.get() as usize;
        let now: u64 = self.tick.get();
        let mut serviced: u32 = 0;
        let mut cost: u64 = 0;
        let mut stalled: bool = false;
        if let Some(state) = self.groups[index].as_mut() {
            if state.stalled {
                stalled = true;
            } else {
                let turn = state.take_turn(group, records);
                serviced = turn.0;
                cost = turn.1;
                state.servicing = true;
            }
        }
        if stalled {
            assert(self.groups@ =~= old(self).groups@);
            return OfferOutcome::Skipped(SkipReason::Stalled);
        }
        self.serviced = self.serviced + serviced as u64;
        self.queued = self.queued - serviced;
        self.workers.set(
            worker,
            Some(Dispatch { group, busy_until: TickIndex::new(now.saturating_add(cost)) }),
        );
        assert(self.state() =~= s.offered(group, worker as int));
        self.refresh_ready(group);
        OfferOutcome::Dispatched { serviced, cost }
    }

    /// Resumes the open plan, or arms a new one over the current ready set. `None` is an idle
    /// tick: nothing was ready.
    fn resume_or_arm(&mut self, report: &mut TickReport) -> (r: Option<Plan>)
        requires
            old(self).wf(),
            old(self).state().plan is None ==> old(self).state().next_pass@ < u64::MAX,
        ensures
            final(self).shaped(-1),
            core_inv(final(self).state()),
            ({
                let s = old(self).state();
                match r {
                    Some(plan) => {
                        &&& plan_ok(final(self).state(), plan@)
                        &&& plan@.next < plan@.entries.len()
                        &&& final(self).state().plan is None
                        &&& match s.plan {
                            Some(open) => {
                                &&& plan@ == open
                                &&& final(self).state() == (SchedulerState { plan: None, ..s })
                                &&& report_state(*final(report)) == report_state(*old(report))
                            },
                            None => {
                                &&& plan@ == (PlanState {
                                    pass: s.next_pass,
                                    entries: s.plan_order(),
                                    next: 0,
                                })
                                &&& final(self).state() == (SchedulerState {
                                    next_pass: PassIndex::at(s.next_pass@ + 1),
                                    ..s
                                })
                                &&& report_state(*final(report)) == (ReportState {
                                    armed: Some(s.plan_order()),
                                    ..report_state(*old(report))
                                })
                            },
                        }
                    },
                    None => {
                        &&& s.plan is None
                        &&& s.plan_order().len() == 0
                        &&& final(self).state() == s
                        &&& report_state(*final(report)) == report_state(*old(report))
                    },
                }
            }),
    {
        let ghost s = self.state();
        if let Some(open) = self.plan.take() {
            proof {
                let idle = SchedulerState { plan: None, ..s };
                lemma_core_frame(s, idle);
                assert(self.state() =~= idle);
                assert(open@ == s.plan->0);
                assert(plan_ok(self.state(), open@));
            }
            return Some(open);
        }
        assert(self.state() =~= s);
        let entries = self.arm();
        if entries.len() == 0 {
            return None;
        }
        let pass = self.next_pass;
        match pass.successor() {
            Some(next) => {
                self.next_pass = next;
            },
            None => {
                return None;
            },
        }
        proof {
            lemma_armed(s);
            assert(self.state() =~= (SchedulerState {
                next_pass: PassIndex::at(s.next_pass@ + 1),
                ..s
            }));
        }
        let listed = entries.clone();
        assert(listed@ =~= entries@);
        report.armed = Some(listed);
        Some(Plan { pass, entries, next: 0 })
    }

    /// Advances the scheduler by one tick.
    ///
    /// Readiness reports are applied before a plan is armed, so a stall reported at this tick keeps
    /// its group out of a plan armed at this tick, and strands it only in a plan armed earlier.
    pub fn step(&mut self, signals: &[ReadinessSignal]) -> (r: TickReport)
        requires
            old(self).wf(),
            old(self).state().tick < u64::MAX,
            old(self).state().plan is None ==> old(self).state().next_pass@ < u64::MAX,
        ensures
            final(self).wf(),
            final(self).state() == old(self).state().stepped(signals@).0,
            r.tick@ == old(self).state().stepped(signals@).1.tick,
            r.pass == old(self).state().stepped(signals@).1.pass,
            r.armed is Some <==> old(self).state().stepped(signals@).1.armed is Some,
            r.armed is Some ==> r.armed->0@ == old(self).state().stepped(signals@).1.armed->0,
            r.offers@ == old(self).state().stepped(signals@).1.offers,
            r.serviced@ == old(self).state().stepped(signals@).1.serviced,
            r.released@ == old(self).state().stepped(signals@).1.released,
            r.progress == old(self).state().stepped(signals@).1.progress,
    {
        let ghost start = self.state();
        let ghost ticked = SchedulerState { tick: (start.tick + 1) as u64, ..start };
        proof {
            lemma_stepped_inv(start, signals@);
            lemma_awake_inv(start, signals@);
            lemma_core_frame(start, ticked);
        }
        self.tick = TickIndex::new(self.tick.get() + 1);
        assert(self.state() =~= ticked);
        self.apply_signals(signals);
        let released = self.release_workers();
        let mut report = TickReport {
            tick: self.tick,
            pass: None,
            armed: None,
            offers: Vec::new(),
            serviced: Vec::new(),
            released,
            progress: PassProgress::Idle,
        };
        let ghost awake = self.state();
        assert(awake == start.awake(signals@));
        assert(report_state(report) =~= start.opening_report(signals@)) by {
            lemma_all_signalled_inv(ticked, signals@);
        }
        let Some(resumed) = self.resume_or_arm(&mut report) else {
            return report;
        };
        let mut plan = resumed;
        report.pass = Some(plan.pass);
        let ghost goal = start.stepped(signals@);
        assert(goal == self.state().traversed(plan@, report_state(report)));
        while plan.next < plan.entries.len()
            invariant
                self.shaped(-1),
                core_inv(self.state()),
                self.state().plan is None,
                plan_ok(self.state(), plan@),
                inv(goal.0),
                goal == self.state().traversed(plan@, report_state(report)),
                goal == old(self).state().stepped(signals@),
            decreases plan.entries.len() - plan.next,
        {
            proof {
                lemma_first_free(self.state().workers, 0);
            }
            let Some(worker) = self.free_worker() else {
                report.progress = PassProgress::Suspended(PassSuspension::NoFreeWorker);
                let ghost before = self.state();
                self.plan = Some(plan);
                assert(self.state() =~= (SchedulerState { plan: Some(plan@), ..before }));
                return report;
            };
            let group = plan.entries[plan.next];
            let ghost before = self.state();
            let ghost report_before = report_state(report);
            proof {
                lemma_offered(before, plan@, worker as int);
            }
            let ghost planned = plan@;
            let outcome = self.offer(group, worker, &mut report.serviced, Ghost(planned));
            report.offers.push(Offer { group, outcome });
            plan.next = plan.next + 1;
            assert(plan@ =~= (PlanState { next: planned.next + 1, ..planned }));
            assert(report_state(report) =~= (ReportState {
                offers: report_before.offers.push(
                    Offer { group, outcome: before.offer_outcome(group) },
                ),
                serviced: report_before.serviced + before.offer_records(group),
                ..report_before
            }));
        }
        let first: u32 = plan.entries[0].get();
        let ghost before = self.state();
        self.cursor = if first >= self.config.max_groups() - 1 {
            0
        } else {
            first + 1
        };
        report.progress = PassProgress::Completed;
        assert(self.state() =~= (SchedulerState {
            plan: None,
            cursor: before.cursor_after(plan.entries@[0]),
            ..before
        }));
        report
    }
}

/// Public view of one slot.
fn group_view(group: GroupId, state: &Group) -> (r: GroupView)
    requires
        state.counted(),
    ensures
        r == slot_view(group, state@),
{
    GroupView {
        group,
        incarnation: state.incarnation,
        state: state.state,
        poisoned: state.poisoned,
        stalled: state.stalled,
        counter: state.counter,
        queued: state.queued,
        quota: state.quota,
        servicing: state.servicing,
    }
}

} // verus!
