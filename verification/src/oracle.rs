//! Structurally independent judge of recorded histories.
//!
//! The judge schedules nothing. It keeps an append-only history and answers every question by
//! folding it: it folds what callers asked for and what the scheduler decided, and never what a
//! caller concluded.

pub mod faults;
pub mod fold;
pub mod gaps;
pub mod laws;
pub mod ledger;
pub mod report;
pub mod site;
pub mod sound;

use vstd::prelude::*;

use std::collections::VecDeque;

use crate::history::{HistoryEvent, Operation, OperationOutcome};
use crate::model::state::{abandoned, failure_records, Completed, Outstanding, QueuedWork, Session};
use crate::model::{admit_under_session, session_index};
use crate::oracle::fold::{
    by_priority, count_groups, distinct, find_entry, find_item, first_overdue, fold_views, is_entry,
    is_item, least, lemma_entry_found, lemma_item_found, of_class, overdue, owed_items, rank_of,
    settled_workers, widest_denial, without, worst_gap, FoldState, Gap, GroupFold, Occupancy,
    OpenPass, Turn,
};
use crate::oracle::site::{FaultSite, SchedulingViolation};
use crate::oracle::sound::{
    entry_ok, event_ok, fold_ok, lemma_absorbed_ok, lemma_entry_replaced, lemma_later,
    lemma_owed_len, lemma_plan_judged, lemma_queued_bounds, lemma_reached_ok, lemma_settled_ok,
    turn_ok,
};
use crate::types::{
    apply_counter_command, AdmissionOutcome, AdmissionRejection, ClientId, FailureRecord,
    GroupAvailability, GroupId, GroupIncarnation, GroupLifecycle, GroupView, LifecycleOutcome,
    LifecycleRejection, LifecycleRequest, OfferOutcome, PassIndex, SchedulerConfig,
    SchedulerSummary, SchedulerView, ServiceRecord, SessionEpoch, SessionOutcome, TickIndex, Work,
    WorkClass, WorkFailure, WorkId, WorkQuota,
};

verus! {

/// Evidence that the recorded decisions kept the scheduling contract.
#[derive(Clone, Copy, Debug, Eq, PartialEq, Structural)]
pub struct FairnessReport {
    /// Plans armed over the history.
    pub passes_armed: u64,
    /// Plans that retired.
    pub passes_completed: u64,
    /// Turns handed out.
    pub opportunities: u64,
    /// Items the recorded turns serviced: the floor a fairness claim needs, since plans are free.
    pub serviced: u64,
    /// Largest plan armed.
    pub widest_plan: u32,
    /// Longest run of armed plans any group went without a turn it was owed.
    pub widest_gap: u32,
}

/// Everything one replay of a recorded history derives.
#[derive(Debug, Eq, PartialEq)]
pub struct Replay {
    /// State the history implies.
    pub view: SchedulerView,
    /// Aggregate counts the history implies.
    pub summary: SchedulerSummary,
    /// Outcome each invoked operation should have produced, in invocation order.
    pub outcomes: Vec<OperationOutcome>,
    /// Service records the recorded dispatches should have produced, in order.
    pub services: Vec<ServiceRecord>,
    /// Failure records the recorded drains should have produced, in order.
    pub failures: Vec<FailureRecord>,
    /// Whether the recorded decisions kept the scheduling contract.
    pub fairness: Result<FairnessReport, SchedulingViolation>,
    /// The check that reported the violation, when there is one.
    pub fault: Option<FaultSite>,
}

/// The view states exactly what the finished fold `s` implies.
pub open(crate) spec fn shows(view: SchedulerView, s: FoldState) -> bool {
    &&& view.groups@ == fold_views(s)
    &&& view.queued == s.queued
}

/// The summary counts exactly what the finished fold `s` implies.
pub open(crate) spec fn sums(summary: SchedulerSummary, s: FoldState) -> bool {
    let n = s.groups.len() as int;
    &&& summary.live_groups == count_groups(
        s.groups,
        n,
        |g: GroupFold| !(g.state is Removed || g.state is Tombstoned),
    )
    &&& summary.poisoned_groups == count_groups(s.groups, n, |g: GroupFold| g.poisoned)
    &&& summary.ready_groups == count_groups(s.groups, n, |g: GroupFold| s.is_ready(g.group))
    &&& summary.queued == s.queued
    &&& summary.admitted == s.admitted
    &&& summary.serviced == s.serviced
    &&& summary.failed == s.failed
}

/// The judgement is exactly the verdict of the finished fold `s`.
pub open(crate) spec fn judges(
    fairness: Result<FairnessReport, SchedulingViolation>,
    s: FoldState,
) -> bool {
    match s.verdict() {
        Some(fault) => fairness == Err::<FairnessReport, SchedulingViolation>(fault.1),
        None => {
            &&& fairness is Ok
            &&& fairness->Ok_0.passes_armed == s.passes_armed
            &&& fairness->Ok_0.passes_completed == s.passes_completed
            &&& fairness->Ok_0.opportunities == s.opportunities
            &&& fairness->Ok_0.serviced == s.serviced
            &&& fairness->Ok_0.widest_plan == s.widest_plan
            &&& fairness->Ok_0.widest_gap == worst_gap(s.groups)
        },
    }
}

/// The replay states exactly what the finished fold `s` implies.
pub open(crate) spec fn replays(r: Replay, s: FoldState) -> bool {
    &&& shows(r.view, s)
    &&& sums(r.summary, s)
    &&& r.outcomes@ == s.outcomes
    &&& r.services@ == s.services
    &&& r.failures@ == s.failures
    &&& judges(r.fairness, s)
    &&& r.fault == match s.verdict() {
        Some(fault) => Some(fault.0),
        None => None,
    }
}

/// One group as the history implies it.
#[derive(Clone, Debug, Eq, PartialEq)]
struct DerivedGroup {
    group: GroupId,
    incarnation: GroupIncarnation,
    state: GroupLifecycle,
    poisoned: bool,
    stalled: bool,
    restored: bool,
    counter: i64,
    quota: WorkQuota,
    queue: Vec<QueuedWork>,
    sessions: Vec<Session>,
    occupancy: Option<Occupancy>,
    gap: Denials,
}

/// Appends the items of one class to `order`, oldest first.
fn push_class(queue: &Vec<QueuedWork>, class: WorkClass, order: &mut Vec<QueuedWork>)
    ensures
        final(order)@ == old(order)@ + of_class(queue@, class),
{
    let ghost pred = |item: QueuedWork| item.work.class() == class;
    let ghost start = order@;
    let mut i: usize = 0;
    proof {
        assert(queue@.take(0) =~= Seq::<QueuedWork>::empty());
        reveal(Seq::filter);
        assert(start + queue@.take(0).filter(pred) =~= start);
    }
    while i < queue.len()
        invariant
            i <= queue.len(),
            pred == (|item: QueuedWork| item.work.class() == class),
            order@ == start + queue@.take(i as int).filter(pred),
        decreases queue.len() - i,
    {
        let ghost seen = queue@.take(i as int);
        let ghost more = queue@.take(i + 1);
        proof {
            assert(more.drop_last() =~= seen);
            assert(more.last() == queue@[i as int]);
            reveal(Seq::filter);
        }
        if queue[i].work.class() == class {
            order.push(queue[i]);
            assert(order@ =~= start + more.filter(pred));
        }
        i = i + 1;
    }
    assert(queue@.take(queue.len() as int) =~= queue@);
}

/// Lists queued items by class, and by arrival within a class.
fn prioritized(queue: &Vec<QueuedWork>) -> (r: Vec<QueuedWork>)
    ensures
        r@ == by_priority(queue@),
{
    let mut order: Vec<QueuedWork> = Vec::new();
    push_class(queue, WorkClass::Control, &mut order);
    push_class(queue, WorkClass::Command, &mut order);
    push_class(queue, WorkClass::Snapshot, &mut order);
    push_class(queue, WorkClass::Bulk, &mut order);
    assert(order@ =~= by_priority(queue@));
    order
}

/// Finds an item by identifier.
fn item_index(queue: &Vec<QueuedWork>, id: WorkId) -> (r: Option<usize>)
    ensures
        match r {
            Some(i) => find_item(queue@, id) == Some(i as int) && is_item(queue@, id, i as int),
            None => find_item(queue@, id) is None,
        },
{
    let mut i: usize = 0;
    while i < queue.len()
        invariant
            i <= queue.len(),
            forall|j: int| 0 <= j < i ==> queue@[j].id != id,
        decreases queue.len() - i,
    {
        if queue[i].id == id {
            proof {
                lemma_item_found(queue@, id, i as int);
            }
            return Some(i);
        }
        i = i + 1;
    }
    None
}

/// How long one group has gone without a turn it was owed, counted in armed plans.
#[derive(Clone, Copy, Debug, Eq, PartialEq)]
struct Denials {
    run: u64,
    run_from: Option<PassIndex>,
    worst: u64,
    worst_from: Option<PassIndex>,
}

impl Denials {
    spec fn view(self) -> Gap {
        Gap {
            run: self.run as nat,
            run_from: self.run_from,
            worst: self.worst as nat,
            worst_from: self.worst_from,
        }
    }

    fn deny(&mut self, pass: PassIndex)
        requires
            old(self).run < u64::MAX,
        ensures
            final(self)@ == old(self)@.denied(pass),
    {
        if self.run == 0 {
            self.run_from = Some(pass);
        }
        self.run = self.run + 1;
        if self.run > self.worst {
            self.worst = self.run;
            self.worst_from = self.run_from;
        }
    }

    fn satisfy(&mut self)
        ensures
            final(self)@ == old(self)@.satisfied(),
    {
        self.run = 0;
        self.run_from = None;
    }
}

impl DerivedGroup {
    spec fn view(self) -> GroupFold {
        GroupFold {
            group: self.group,
            incarnation: self.incarnation,
            state: self.state,
            poisoned: self.poisoned,
            stalled: self.stalled,
            restored: self.restored,
            counter: self.counter,
            quota: self.quota,
            queue: self.queue@,
            sessions: self.sessions@,
            occupancy: self.occupancy,
            gap: self.gap@,
        }
    }

    fn new(group: GroupId, quota: WorkQuota) -> (r: Self)
        ensures
            r@ == GroupFold::fresh(group, quota),
    {
        let fresh = Self {
            group,
            incarnation: GroupIncarnation::first(),
            state: GroupLifecycle::Creating,
            poisoned: false,
            stalled: false,
            restored: false,
            counter: 0,
            quota,
            queue: Vec::new(),
            sessions: Vec::new(),
            occupancy: None,
            gap: Denials { run: 0, run_from: None, worst: 0, worst_from: None },
        };
        assert(fresh@ =~= GroupFold::fresh(group, quota));
        fresh
    }

    fn clear(&mut self)
        ensures
            final(self)@ == old(self)@.cleared(),
    {
        self.counter = 0;
        self.sessions.clear();
        self.queue.clear();
        self.poisoned = false;
        self.stalled = false;
        self.restored = false;
        assert(self@ =~= old(self)@.cleared());
    }

    fn is_dispatchable_but_for_availability(&self) -> (r: bool)
        ensures
            r == self@.dispatchable_but_for_availability(),
    {
        self.state.is_serviceable() && !self.poisoned && self.queue.len() > 0
    }

    fn is_dispatchable(&self) -> (r: bool)
        ensures
            r == self@.dispatchable(),
    {
        self.is_dispatchable_but_for_availability() && !self.stalled
    }

    /// Returns the exact items an opportunity is offered against, in order.
    fn expected_dispatch(&self) -> (r: VecDeque<WorkId>)
        ensures
            r@ == self@.owed(),
            r@.len() <= self.quota@,
    {
        let order = prioritized(&self.queue);
        let quota: u32 = self.quota.get();
        let mut expected: VecDeque<WorkId> = VecDeque::new();
        let mut i: usize = 0;
        let mut ended: bool = false;
        proof {
            lemma_owed_len(order@, quota as nat);
            assert(order@.skip(0) =~= order@);
            assert(Seq::<WorkId>::empty() + owed_items(order@, quota as nat) =~= owed_items(
                order@,
                quota as nat,
            ));
        }
        while !ended && i < order.len() && (i as u64) < quota as u64
            invariant
                i <= order.len(),
                i <= quota,
                ended ==> expected@ == owed_items(order@, quota as nat),
                !ended ==> expected@ + owed_items(order@.skip(i as int), (quota - i) as nat)
                    == owed_items(order@, quota as nat),
            decreases (if ended { 0int } else { order.len() - i + 1 }),
        {
            let item = order[i];
            let ghost rest = order@.skip(i as int);
            let ghost before = expected@;
            proof {
                assert(rest[0] == item);
                assert(rest.drop_first() =~= order@.skip(i + 1));
            }
            expected.push_back(item.id);
            if matches!(item.work, Work::Faulty { .. }) {
                ended = true;
                assert(expected@ =~= before + seq![item.id]);
            } else {
                assert(expected@ + owed_items(rest.drop_first(), (quota - i - 1) as nat) =~= before
                    + (seq![item.id] + owed_items(rest.drop_first(), (quota - i - 1) as nat)));
            }
            i = i + 1;
        }
        if !ended {
            assert(expected@ + Seq::<WorkId>::empty() =~= expected@);
        }
        expected
    }

    /// Recomputes what servicing the item at position `i` does to the group.
    fn service(&mut self, i: usize) -> (r: ServiceRecord)
        requires
            i < old(self).queue.len(),
        ensures
            final(self)@ == old(self)@.serviced(i as int),
            r == old(self)@.record_of(i as int),
    {
        let item = self.queue.remove(i);
        let result = match item.work {
            Work::System { .. } => None,
            Work::Faulty { .. } => {
                self.poisoned = true;
                None
            },
            Work::Counter { request, command, .. } => {
                let (value, outcome) = apply_counter_command(self.counter, command);
                self.counter = value;
                if let Some(k) = session_index(&self.sessions, request.client_id) {
                    let session = self.sessions[k];
                    if session.epoch == request.session_epoch {
                        if let Some(queued) = session.outstanding {
                            if queued.work == item.id {
                                self.sessions.set(
                                    k,
                                    Session {
                                        client_id: session.client_id,
                                        epoch: session.epoch,
                                        outstanding: None,
                                        completed: Some(
                                            Completed {
                                                sequence: request.sequence,
                                                command,
                                                result: outcome,
                                            },
                                        ),
                                    },
                                );
                            }
                        }
                    }
                }
                Some(outcome)
            },
        };
        assert(self@ =~= old(self)@.serviced(i as int));
        ServiceRecord { work: item.id, group: self.group, class: item.work.class(), result }
    }
}

/// The plan a pass is still working through.
#[derive(Clone, Debug, Eq, PartialEq)]
struct PlanInProgress {
    pass: PassIndex,
    pending: Vec<GroupId>,
    offered: Vec<GroupId>,
}

impl PlanInProgress {
    spec fn view(self) -> OpenPass {
        OpenPass { pass: self.pass, pending: self.pending@, offered: self.offered@ }
    }
}

/// One turn while its work is still being recorded.
#[derive(Clone, Debug, Eq, PartialEq)]
struct TurnInProgress {
    pass: PassIndex,
    tick: TickIndex,
    group: GroupId,
    owed: VecDeque<WorkId>,
    owed_total: u32,
    serviced: u32,
    price: u64,
    reported_serviced: u32,
    reported_cost: u64,
}

impl TurnInProgress {
    spec fn view(self) -> Turn {
        Turn {
            pass: self.pass,
            tick: self.tick,
            group: self.group,
            owed: self.owed@,
            owed_total: self.owed_total,
            serviced: self.serviced as nat,
            price: self.price as nat,
            reported_serviced: self.reported_serviced,
            reported_cost: self.reported_cost,
        }
    }
}

/// Whether an identifier is listed.
fn lists(groups: &Vec<GroupId>, group: GroupId) -> (r: bool)
    ensures
        r == groups@.contains(group),
{
    let mut i: usize = 0;
    while i < groups.len()
        invariant
            i <= groups.len(),
            forall|j: int| 0 <= j < i ==> groups@[j] != group,
        decreases groups.len() - i,
    {
        if groups[i] == group {
            return true;
        }
        i = i + 1;
    }
    false
}

/// The table as the fold's model sees it.
spec fn entries(groups: Seq<DerivedGroup>) -> Seq<GroupFold> {
    groups.map_values(|group: DerivedGroup| group@)
}

/// One traversal of a history, and everything that history implies. It is built fresh for every
/// replay, so a replay is a function of the events alone.
struct Fold {
    config: SchedulerConfig,
    groups: Vec<DerivedGroup>,
    next_work: u64,
    admitted: u64,
    serviced: u64,
    failed: u64,
    queued: u32,
    outcomes: Vec<OperationOutcome>,
    services: Vec<ServiceRecord>,
    failures: Vec<FailureRecord>,
    open: Option<PlanInProgress>,
    next_pass: PassIndex,
    passes_armed: u64,
    passes_completed: u64,
    opportunities: u64,
    widest_plan: u32,
    recording: Option<TurnInProgress>,
    tick: TickIndex,
    last_armed: Option<TickIndex>,
    last_retired: Option<TickIndex>,
    violation: Option<(FaultSite, SchedulingViolation)>,
}

impl Fold {
    spec fn view(self) -> FoldState {
        FoldState {
            config: self.config,
            groups: entries(self.groups@),
            next_work: self.next_work as nat,
            admitted: self.admitted as nat,
            serviced: self.serviced as nat,
            failed: self.failed as nat,
            queued: self.queued as nat,
            outcomes: self.outcomes@,
            services: self.services@,
            failures: self.failures@,
            open: match self.open {
                Some(open) => Some(open@),
                None => None,
            },
            next_pass: self.next_pass,
            passes_armed: self.passes_armed as nat,
            passes_completed: self.passes_completed as nat,
            opportunities: self.opportunities as nat,
            widest_plan: self.widest_plan,
            recording: match self.recording {
                Some(turn) => Some(turn@),
                None => None,
            },
            tick: self.tick@,
            last_armed: self.last_armed,
            last_retired: self.last_retired,
            violation: self.violation,
        }
    }

    fn new(config: SchedulerConfig) -> (r: Self)
        ensures
            r@ == FoldState::initial(config),
            fold_ok(r@, 0),
    {
        proof {
            use_type_invariant(&config);
        }
        let fold = Self {
            config,
            groups: Vec::new(),
            next_work: 1,
            admitted: 0,
            serviced: 0,
            failed: 0,
            queued: 0,
            outcomes: Vec::new(),
            services: Vec::new(),
            failures: Vec::new(),
            open: None,
            next_pass: PassIndex::first(),
            passes_armed: 0,
            passes_completed: 0,
            opportunities: 0,
            widest_plan: 0,
            recording: None,
            tick: TickIndex::zero(),
            last_armed: None,
            last_retired: None,
            violation: None,
        };
        assert(fold@ =~= FoldState::initial(config));
        fold
    }

    /// Records the first structural fault, with the check that caught it.
    fn fault(&mut self, site: FaultSite, violation: SchedulingViolation)
        ensures
            final(self)@ == old(self)@.faulted(site, violation),
    {
        if self.violation.is_none() {
            self.violation = Some((site, violation));
        }
    }

    fn index_of(&self, group: GroupId) -> (r: Option<usize>)
        ensures
            match r {
                Some(i) => i < self.groups.len() && find_entry(self@.groups, group) == Some(
                    i as int,
                ) && is_entry(self@.groups, group, i as int),
                None => find_entry(self@.groups, group) is None,
            },
    {
        let mut i: usize = 0;
        while i < self.groups.len()
            invariant
                i <= self.groups.len(),
                forall|j: int| 0 <= j < i ==> self@.groups[j].group != group,
            decreases self.groups.len() - i,
        {
            if self.groups[i].group == group {
                proof {
                    lemma_entry_found(self@.groups, group, i as int);
                }
                return Some(i);
            }
            i = i + 1;
        }
        None
    }

    /// Reports whether a recorded tick may be believed, and faults when it walks the clock
    /// backwards.
    fn monotone(&mut self, tick: TickIndex) -> (r: bool)
        ensures
            r == (tick@ >= old(self)@.tick),
            final(self)@ == old(self)@.judged(
                !r,
                FaultSite::ClockWalkedBackwards,
                old(self)@.backwards(tick),
            ),
    {
        if tick.get() < self.tick.get() {
            self.fault(
                FaultSite::ClockWalkedBackwards,
                SchedulingViolation::TickWentBackwards { current: self.tick, observed: tick },
            );
            return false;
        }
        true
    }

    /// Advances the clock to a recorded tick and calls in every worker occupancy whose cost was
    /// paid before it.
    fn reach(&mut self, tick: TickIndex)
        ensures
            final(self)@ == old(self)@.reached(tick),
    {
        let ghost start = self@;
        if !self.monotone(tick) {
            return;
        }
        self.tick = tick;
        let mut first: Option<(PassIndex, GroupId, TickIndex)> = None;
        let mut i: usize = 0;
        while i < self.groups.len()
            invariant
                i <= self.groups.len(),
                self.groups.len() == start.groups.len(),
                self@ == (FoldState { tick: tick@, groups: self@.groups, ..start }),
                forall|j: int| 0 <= j < i ==> self@.groups[j] == called_in(start.groups[j], tick@),
                forall|j: int| i <= j < start.groups.len() ==> self@.groups[j] == start.groups[j],
                match first {
                    Some(found) => first_overdue(start.groups, tick@, 0) is Some && ({
                        let k = first_overdue(start.groups, tick@, 0)->0;
                        &&& 0 <= k < i
                        &&& found.0 == start.groups[k].occupancy->0.pass
                        &&& found.1 == start.groups[k].group
                        &&& found.2 == start.groups[k].occupancy->0.due
                    }),
                    None => first_overdue(start.groups, tick@, 0) == first_overdue(
                        start.groups,
                        tick@,
                        i as int,
                    ),
                },
            decreases self.groups.len() - i,
        {
            assert(self@.groups[i as int] == start.groups[i as int]);
            let ghost before = self@;
            if let Some(occupancy) = self.groups[i].occupancy {
                if occupancy.due.get() < tick.get() {
                    if first.is_none() {
                        first = Some((occupancy.pass, self.groups[i].group, occupancy.due));
                    }
                    self.groups[i].occupancy = None;
                }
            }
            assert(self@.groups =~= before.groups.update(
                i as int,
                called_in(start.groups[i as int], tick@),
            ));
            i = i + 1;
        }
        let ghost moved = FoldState {
            tick: tick@,
            groups: Seq::new(
                start.groups.len(),
                |i: int|
                    if overdue(start.groups[i], tick@) {
                        GroupFold { occupancy: None, ..start.groups[i] }
                    } else {
                        start.groups[i]
                    },
            ),
            ..start
        };
        assert(self@ =~= moved);
        if let Some((pass, group, due)) = first {
            self.fault(
                FaultSite::OccupancyOutlivedItsCost,
                SchedulingViolation::WorkerHeldPastCost { pass, group, due, observed: tick },
            );
        }
    }

    /// Returns whether a group is holding a worker whose cost is unpaid.
    fn occupied(&self, group: GroupId) -> (r: bool)
        ensures
            r == self@.occupied(group),
    {
        if let Some(turn) = &self.recording {
            if turn.group == group {
                return true;
            }
        }
        match self.index_of(group) {
            Some(i) => match self.groups[i].occupancy {
                Some(occupancy) => occupancy.due.get() > self.tick.get(),
                None => false,
            },
            None => false,
        }
    }

    /// Returns how many workers of the pool are held right now.
    fn workers_held(&self) -> (r: u64)
        requires
            fold_ok(self@, u64::MAX as nat),
        ensures
            r == self@.workers_held(),
    {
        let mut held: u64 = 0;
        let mut i: usize = 0;
        let ghost groups = self@.groups;
        while i < self.groups.len()
            invariant
                i <= self.groups.len(),
                groups == self@.groups,
                held == settled_workers(groups.take(i as int), self@.tick),
                held <= i,
                fold_ok(self@, u64::MAX as nat),
            decreases self.groups.len() - i,
        {
            proof {
                assert(groups.take(i + 1).drop_last() =~= groups.take(i as int));
                assert(groups.take(i + 1).last() == groups[i as int]);
                lemma_ascending_index(groups, i as int);
                assert(entry_ok(groups[i as int], self@.config, self@.passes_armed));
            }
            if let Some(occupancy) = self.groups[i].occupancy {
                if occupancy.due.get() > self.tick.get() {
                    held = held + 1;
                }
            }
            i = i + 1;
        }
        proof {
            assert(groups.take(groups.len() as int) =~= groups);
            if groups.len() > 0 {
                lemma_ascending_index(groups, groups.len() - 1);
                assert(entry_ok(groups[groups.len() - 1], self@.config, self@.passes_armed));
            }
        }
        if self.recording.is_some() {
            held = held + 1;
        }
        held
    }

    fn is_ready(&self, group: GroupId) -> (r: bool)
        ensures
            r == self@.is_ready(group),
    {
        match self.index_of(group) {
            Some(i) => self.groups[i].is_dispatchable() && !self.occupied(group),
            None => false,
        }
    }

    fn is_owed(&self, group: GroupId) -> (r: bool)
        ensures
            r == self@.is_owed(group),
    {
        match self.index_of(group) {
            Some(i) => self.groups[i].is_dispatchable_but_for_availability() && (
            !self.groups[i].stalled || self.groups[i].restored) && !self.occupied(group),
            None => false,
        }
    }

    /// Returns whether the open pass has more of its plan left than the pool has free workers.
    fn exhausted_mid_traversal(&self) -> (r: bool)
        requires
            fold_ok(self@, u64::MAX as nat),
        ensures
            r == self@.exhausted_mid_traversal(),
    {
        match &self.open {
            Some(open) => {
                let workers: u64 = self.config.workers() as u64;
                let held: u64 = self.workers_held();
                let free: u64 = if held < workers {
                    workers - held
                } else {
                    0
                };
                open.pending.len() as u64 > free
            },
            None => false,
        }
    }

    /// Records an external availability report.
    fn report_availability(&mut self, group: GroupId, availability: GroupAvailability)
        requires
            fold_ok(old(self)@, u64::MAX as nat),
        ensures
            final(self)@ == old(self)@.availability(group, availability),
    {
        let ghost start = self@;
        if let Some(i) = self.index_of(group) {
            match availability {
                GroupAvailability::Stalled => {
                    self.groups[i].stalled = true;
                },
                GroupAvailability::Available => {
                    let restorable = !self.exhausted_mid_traversal() && !self.occupied(group)
                        && self.groups[i].stalled
                        && self.groups[i].is_dispatchable_but_for_availability();
                    self.groups[i].stalled = false;
                    if restorable {
                        self.groups[i].restored = true;
                    }
                },
            }
            assert(self@ =~= start.availability(group, availability));
        }
    }

    /// Ends one worker occupancy, and judges the release against the cost that opened it.
    fn release(&mut self, tick: TickIndex, group: GroupId)
        ensures
            final(self)@ == old(self)@.release(tick, group),
    {
        let ghost start = self@;
        let mut held: Option<Occupancy> = None;
        if let Some(i) = self.index_of(group) {
            held = self.groups[i].occupancy;
            self.groups[i].occupancy = None;
            assert(self@ =~= start.with_entry(
                group,
                GroupFold { occupancy: None, ..start.entry(group)->0 },
            ));
            if held.is_none() {
                assert(self@.groups =~= start.groups);
            }
        }
        match held {
            None => {
                self.fault(
                    FaultSite::ReleaseWithoutOccupancy,
                    SchedulingViolation::SpuriousWorkerRelease { tick, group },
                );
            },
            Some(occupancy) => {
                if tick.get() < occupancy.due.get() {
                    self.fault(
                        FaultSite::ReleaseBeforeDue,
                        SchedulingViolation::WorkerReleasedEarly {
                            pass: occupancy.pass,
                            group,
                            due: occupancy.due,
                            observed: tick,
                        },
                    );
                } else if tick.get() > occupancy.due.get() {
                    self.fault(
                        FaultSite::ReleaseAfterDue,
                        SchedulingViolation::WorkerHeldPastCost {
                            pass: occupancy.pass,
                            group,
                            due: occupancy.due,
                            observed: tick,
                        },
                    );
                }
            },
        }
    }
}

/// A group whose overdue occupancy has been called in.
spec fn called_in(group: GroupFold, tick: u64) -> GroupFold {
    if overdue(group, tick) {
        GroupFold { occupancy: None, ..group }
    } else {
        group
    }
}

/// In an ascending table, an identifier is at least its position.
proof fn lemma_ascending_index(groups: Seq<GroupFold>, i: int)
    requires
        0 <= i < groups.len(),
        forall|i: int, j: int| 0 <= i < j < groups.len() ==> groups[i].group@ < groups[j].group@,
    ensures
        i <= groups[i].group@,
    decreases i,
{
    if i > 0 {
        lemma_ascending_index(groups, i - 1);
        assert(groups[i - 1].group@ < groups[i].group@);
    }
}

/// The most events a replay is bounded for.
spec fn replayable() -> nat {
    0xffff_ffff_ffff_fffe
}

impl DerivedGroup {
    /// Retires the queue of a poisoned group, one failure record per item in service order.
    fn retire(&mut self, failures: &mut Vec<FailureRecord>)
        ensures
            final(self)@ == (GroupFold {
                queue: Seq::empty(),
                sessions: abandoned(old(self)@.sessions),
                ..old(self)@
            }),
            final(failures)@ == old(failures)@ + failure_records(
                old(self).group,
                by_priority(old(self)@.queue),
            ),
    {
        let ghost start = self@;
        let order = prioritized(&self.queue);
        proof {
            lemma_by_priority_len(self.queue@);
        }
        let ghost records = failure_records(self.group, order@);
        let ghost before = failures@;
        let mut i: usize = 0;
        while i < order.len()
            invariant
                i <= order.len(),
                self@ == start,
                records == failure_records(self.group, order@),
                failures@ == before + records.take(i as int),
            decreases order.len() - i,
        {
            failures.push(
                FailureRecord {
                    work: order[i].id,
                    group: self.group,
                    reason: WorkFailure::GroupPoisoned,
                },
            );
            i = i + 1;
            assert(failures@ =~= before + records.take(i as int));
        }
        assert(records.take(i as int) =~= records);
        self.queue.clear();
        let ghost sessions = self.sessions@;
        let ghost emptied = self@;
        let mut k: usize = 0;
        while k < self.sessions.len()
            invariant
                k <= self.sessions.len(),
                self.sessions.len() == sessions.len(),
                self@ == (GroupFold { sessions: self.sessions@, ..emptied }),
                forall|j: int| 0 <= j < k ==> self.sessions@[j] == abandoned(sessions)[j],
                forall|j: int| k <= j < sessions.len() ==> self.sessions@[j] == sessions[j],
            decreases self.sessions.len() - k,
        {
            let session = self.sessions[k];
            self.sessions.set(
                k,
                Session {
                    client_id: session.client_id,
                    epoch: session.epoch,
                    outstanding: None,
                    completed: session.completed,
                },
            );
            k = k + 1;
        }
        assert(self@ =~= (GroupFold {
            queue: Seq::empty(),
            sessions: abandoned(start.sessions),
            ..start
        }));
    }
}

/// Every queued item has one class.
proof fn lemma_by_priority_len(queue: Seq<QueuedWork>)
    ensures
        by_priority(queue).len() == queue.len(),
    decreases queue.len(),
{
    reveal(Seq::filter);
    if queue.len() > 0 {
        lemma_by_priority_len(queue.drop_last());
    }
}

impl Fold {
    /// Retires a poisoned group's queue.
    fn retire_poisoned(&mut self, group: GroupId)
        requires
            fold_ok(old(self)@, replayable()),
        ensures
            final(self)@ == old(self)@.retire_poisoned(group),
    {
        let ghost start = self@;
        if let Some(i) = self.index_of(group) {
            if self.groups[i].poisoned {
                proof {
                    lemma_queued_bounds(self@.groups, i as int);
                    assert(entry_ok(self@.groups[i as int], self@.config, self@.passes_armed));
                }
                let retired: u32 = self.groups[i].queue.len() as u32;
                self.groups[i].retire(&mut self.failures);
                self.queued = self.queued - retired;
                self.failed = self.failed + retired as u64;
                assert(self@ =~= start.retire_poisoned(group));
            }
        }
    }

    /// Answers a lifecycle request from the state the history implies.
    fn lifecycle_gate(&self, group: GroupId, request: LifecycleRequest) -> (r: LifecycleOutcome)
        requires
            fold_ok(self@, replayable()),
        ensures
            r == self@.lifecycle_outcome(group, request),
    {
        let target = request.target();
        if group.get() >= self.config.max_groups() {
            return LifecycleOutcome::Rejected(LifecycleRejection::GroupOutOfRange);
        }
        let Some(i) = self.index_of(group) else {
            return match request {
                LifecycleRequest::Create { .. } => LifecycleOutcome::Created {
                    incarnation: GroupIncarnation::first(),
                },
                _ => LifecycleOutcome::Rejected(LifecycleRejection::GroupUnknown),
            };
        };
        proof {
            assert(entry_ok(self@.groups[i as int], self@.config, self@.passes_armed));
        }
        let state = self.groups[i].state;
        let incarnation = self.groups[i].incarnation;
        if state == GroupLifecycle::Tombstoned {
            return if target == GroupLifecycle::Tombstoned {
                LifecycleOutcome::Idempotent { state: GroupLifecycle::Tombstoned, incarnation }
            } else {
                LifecycleOutcome::Rejected(LifecycleRejection::GroupTombstoned)
            };
        }
        if let LifecycleRequest::Create { quota } = request {
            return match state {
                GroupLifecycle::Creating => if self.groups[i].quota == quota {
                    LifecycleOutcome::Idempotent { state: GroupLifecycle::Creating, incarnation }
                } else {
                    LifecycleOutcome::Rejected(
                        LifecycleRejection::QuotaConflict { current: self.groups[i].quota },
                    )
                },
                GroupLifecycle::Removed => match incarnation.successor() {
                    Some(next) => LifecycleOutcome::Created { incarnation: next },
                    None => LifecycleOutcome::Rejected(LifecycleRejection::IncarnationExhausted),
                },
                _ => LifecycleOutcome::Rejected(
                    LifecycleRejection::Conflict {
                        current: state,
                        requested: GroupLifecycle::Creating,
                    },
                ),
            };
        }
        if state == target {
            return LifecycleOutcome::Idempotent { state: target, incarnation };
        }
        let legal = match request {
            LifecycleRequest::Recover => state == GroupLifecycle::Creating,
            LifecycleRequest::Serve => state == GroupLifecycle::Recovering,
            LifecycleRequest::Drain => state == GroupLifecycle::Creating || state
                == GroupLifecycle::Recovering || state == GroupLifecycle::Serving,
            LifecycleRequest::Remove => state == GroupLifecycle::Draining,
            LifecycleRequest::Tombstone => state == GroupLifecycle::Removed,
            LifecycleRequest::Create { .. } => false,
        };
        if !legal {
            return LifecycleOutcome::Rejected(
                LifecycleRejection::Conflict { current: state, requested: target },
            );
        }
        if request == LifecycleRequest::Remove && self.groups[i].queue.len() > 0 {
            return LifecycleOutcome::Rejected(
                LifecycleRejection::QueueNotDrained { pending: self.groups[i].queue.len() as u32 },
            );
        }
        LifecycleOutcome::Applied { from: state, to: target, incarnation }
    }

    /// Position a new slot belongs at in ascending order.
    fn rank(&self, group: GroupId) -> (r: usize)
        requires
            fold_ok(self@, replayable()),
        ensures
            r == rank_of(self@.groups, group),
            r <= self.groups.len(),
    {
        let mut m: usize = self.groups.len();
        let ghost groups = self@.groups;
        proof {
            assert(groups.take(groups.len() as int) =~= groups);
        }
        while m > 0 && self.groups[m - 1].group.get() >= group.get()
            invariant
                m <= self.groups.len(),
                groups == self@.groups,
                rank_of(groups, group) == rank_of(groups.take(m as int), group),
            decreases m,
        {
            proof {
                assert(groups.take(m as int).drop_last() =~= groups.take(m - 1));
                assert(groups.take(m as int).last() == groups[m - 1]);
            }
            m = m - 1;
        }
        proof {
            if m > 0 {
                assert(groups.take(m as int).last() == groups[m - 1]);
            }
        }
        m
    }

    /// Applies a lifecycle request to the state the history implies.
    fn lifecycle(&mut self, group: GroupId, request: LifecycleRequest) -> (r: LifecycleOutcome)
        requires
            fold_ok(old(self)@, replayable()),
        ensures
            r == old(self)@.lifecycle_outcome(group, request),
            final(self)@ == old(self)@.lifecycle(group, request),
    {
        let ghost start = self@;
        let outcome = self.lifecycle_gate(group, request);
        let target = request.target();
        match outcome {
            LifecycleOutcome::Rejected(_) => {},
            LifecycleOutcome::Created { incarnation } => {
                if let LifecycleRequest::Create { quota } = request {
                    match self.index_of(group) {
                        None => {
                            let at: usize = self.rank(group);
                            self.groups.insert(at, DerivedGroup::new(group, quota));
                            assert(self@ =~= start.lifecycle(group, request));
                        },
                        Some(i) => {
                            self.groups[i].incarnation = incarnation;
                            self.groups[i].state = GroupLifecycle::Creating;
                            self.groups[i].quota = quota;
                            self.groups[i].clear();
                            assert(self@ =~= start.lifecycle(group, request));
                        },
                    }
                }
            },
            LifecycleOutcome::Idempotent { .. } => {
                if target == GroupLifecycle::Draining {
                    self.retire_poisoned(group);
                }
            },
            LifecycleOutcome::Applied { .. } => {
                if let Some(i) = self.index_of(group) {
                    proof {
                        lemma_queued_bounds(self@.groups, i as int);
                        assert(entry_ok(self@.groups[i as int], self@.config, self@.passes_armed));
                    }
                    self.groups[i].state = target;
                    let ghost moved = GroupFold { state: target, ..start.groups[i as int] };
                    assert(self@ =~= start.with_entry(group, moved));
                    if target == GroupLifecycle::Removed {
                        self.groups[i].clear();
                        assert(self@ =~= start.lifecycle(group, request));
                    } else if target == GroupLifecycle::Draining {
                        proof {
                            lemma_entry_replaced(start, group, moved, replayable());
                        }
                        self.retire_poisoned(group);
                    }
                }
            },
        }
        outcome
    }

    /// Refuses a request addressed to a slot that cannot take it.
    fn address(&self, group: GroupId, incarnation: GroupIncarnation) -> (r: Result<
        usize,
        AdmissionRejection,
    >)
        ensures
            match r {
                Ok(i) => self@.address(group, incarnation) is None && i < self.groups.len()
                    && find_entry(self@.groups, group) == Some(i as int) && is_entry(
                    self@.groups,
                    group,
                    i as int,
                ),
                Err(rejection) => self@.address(group, incarnation) == Some(rejection),
            },
    {
        if group.get() >= self.config.max_groups() {
            return Err(AdmissionRejection::GroupOutOfRange);
        }
        let Some(i) = self.index_of(group) else {
            return Err(AdmissionRejection::GroupUnknown);
        };
        let current = self.groups[i].incarnation;
        if self.groups[i].state == GroupLifecycle::Tombstoned {
            Err(AdmissionRejection::GroupTombstoned)
        } else if incarnation.get() < current.get() {
            Err(AdmissionRejection::StaleIncarnation { current })
        } else if incarnation.get() > current.get() {
            Err(AdmissionRejection::FutureIncarnation { current })
        } else {
            Ok(i)
        }
    }

    /// Answers a session request from the state the history implies.
    fn session_gate(
        &self,
        group: GroupId,
        incarnation: GroupIncarnation,
        client: ClientId,
        epoch: SessionEpoch,
    ) -> (r: SessionOutcome)
        ensures
            r == self@.session_outcome(group, incarnation, client, epoch),
    {
        let i: usize = match self.address(group, incarnation) {
            Ok(i) => i,
            Err(rejection) => {
                return SessionOutcome::Rejected(rejection);
            },
        };
        let state = self.groups[i].state;
        if !state.admits_sessions() {
            return SessionOutcome::Rejected(
                AdmissionRejection::GroupNotAcceptingSessions { state },
            );
        }
        if self.groups[i].poisoned {
            return SessionOutcome::Rejected(AdmissionRejection::GroupPoisoned);
        }
        if client.get() >= self.config.max_clients_per_group() {
            return SessionOutcome::Rejected(AdmissionRejection::ClientOutOfRange);
        }
        match session_index(&self.groups[i].sessions, client) {
            None => SessionOutcome::Opened { session_epoch: epoch },
            Some(k) => {
                let current = self.groups[i].sessions[k].epoch;
                if epoch.get() < current.get() {
                    SessionOutcome::Rejected(AdmissionRejection::StaleSession { current })
                } else if epoch.get() == current.get() {
                    SessionOutcome::AlreadyOpen { session_epoch: epoch }
                } else {
                    SessionOutcome::Replaced { session_epoch: epoch }
                }
            },
        }
    }

    /// Applies a session request to the state the history implies.
    fn open_session(
        &mut self,
        group: GroupId,
        incarnation: GroupIncarnation,
        client: ClientId,
        epoch: SessionEpoch,
    ) -> (r: SessionOutcome)
        ensures
            r == old(self)@.session_outcome(group, incarnation, client, epoch),
            final(self)@ == old(self)@.open_session(group, incarnation, client, epoch),
    {
        let ghost start = self@;
        let outcome = self.session_gate(group, incarnation, client, epoch);
        let blank = Session { client_id: client, epoch, outstanding: None, completed: None };
        match outcome {
            SessionOutcome::Opened { .. } => {
                if let Some(i) = self.index_of(group) {
                    self.groups[i].sessions.push(blank);
                    assert(self@ =~= start.open_session(group, incarnation, client, epoch));
                }
            },
            SessionOutcome::Replaced { .. } => {
                if let Some(i) = self.index_of(group) {
                    if let Some(k) = session_index(&self.groups[i].sessions, client) {
                        self.groups[i].sessions.set(k, blank);
                        assert(self@ =~= start.open_session(group, incarnation, client, epoch));
                    }
                }
            },
            _ => {},
        }
        outcome
    }

    /// What a counter submission's client session answers.
    fn client_answer(&self, i: usize, work: Work) -> (r: Option<AdmissionOutcome>)
        requires
            i < self.groups.len(),
        ensures
            r == self@.client_answer(self@.groups[i as int], work),
    {
        match work {
            Work::Counter { request, command, .. } => {
                if request.client_id.get() >= self.config.max_clients_per_group() {
                    return Some(AdmissionOutcome::Rejected(AdmissionRejection::ClientOutOfRange));
                }
                match session_index(&self.groups[i].sessions, request.client_id) {
                    None => Some(AdmissionOutcome::Rejected(AdmissionRejection::SessionNotOpen)),
                    Some(k) => admit_under_session(&self.groups[i].sessions[k], request, command),
                }
            },
            _ => None,
        }
    }

    /// Answers a submission from the state the history implies.
    fn submit_gate(&self, group: GroupId, incarnation: GroupIncarnation, work: Work) -> (r:
        AdmissionOutcome)
        requires
            fold_ok(self@, replayable()),
        ensures
            r == self@.submit_outcome(group, incarnation, work),
    {
        let i: usize = match self.address(group, incarnation) {
            Ok(i) => i,
            Err(rejection) => {
                return AdmissionOutcome::Rejected(rejection);
            },
        };
        let state = self.groups[i].state;
        let class = work.class();
        if !state.admits(class) {
            return AdmissionOutcome::Rejected(
                AdmissionRejection::GroupNotAcceptingWork { state, class },
            );
        }
        if self.groups[i].poisoned {
            return AdmissionOutcome::Rejected(AdmissionRejection::GroupPoisoned);
        }
        if let Some(answer) = self.client_answer(i, work) {
            return answer;
        }
        proof {
            assert(entry_ok(self@.groups[i as int], self@.config, self@.passes_armed));
        }
        if self.groups[i].queue.len() as u64 >= self.config.max_group_queue() as u64 {
            return AdmissionOutcome::Rejected(
                AdmissionRejection::GroupQueueFull { limit: self.config.max_group_queue() },
            );
        }
        if self.queued >= self.config.max_global_queue() {
            return AdmissionOutcome::Rejected(
                AdmissionRejection::GlobalQueueFull { limit: self.config.max_global_queue() },
            );
        }
        AdmissionOutcome::Queued { work: WorkId(self.next_work) }
    }

    /// Applies a submission to the state the history implies.
    fn submit(&mut self, group: GroupId, incarnation: GroupIncarnation, work: Work) -> (r:
        AdmissionOutcome)
        requires
            fold_ok(old(self)@, replayable()),
        ensures
            r == old(self)@.submit_outcome(group, incarnation, work),
            final(self)@ == old(self)@.submit(group, incarnation, work),
    {
        let ghost start = self@;
        let outcome = self.submit_gate(group, incarnation, work);
        if let AdmissionOutcome::Queued { work: id } = outcome {
            if let Some(i) = self.index_of(group) {
                if let Work::Counter { request, command, .. } = work {
                    if let Some(k) = session_index(&self.groups[i].sessions, request.client_id) {
                        let session = self.groups[i].sessions[k];
                        self.groups[i].sessions.set(
                            k,
                            Session {
                                client_id: session.client_id,
                                epoch: session.epoch,
                                outstanding: Some(
                                    Outstanding { sequence: request.sequence, command, work: id },
                                ),
                                completed: session.completed,
                            },
                        );
                    }
                }
                self.groups[i].queue.push(QueuedWork { id, work });
                self.next_work = self.next_work + 1;
                self.queued = self.queued + 1;
                self.admitted = self.admitted + 1;
                assert(self@ =~= start.submit(group, incarnation, work));
            }
        }
        outcome
    }

    /// Derives one invocation and records the answer it should have produced.
    fn invoke(&mut self, operation: Operation)
        requires
            fold_ok(old(self)@, replayable()),
        ensures
            final(self)@ == old(self)@.invoked(operation),
    {
        let outcome = match operation {
            Operation::Lifecycle { group, request } => OperationOutcome::Lifecycle(
                self.lifecycle(group, request),
            ),
            Operation::OpenSession { group, incarnation, client_id, session_epoch } => {
                OperationOutcome::Session(
                    self.open_session(group, incarnation, client_id, session_epoch),
                )
            },
            Operation::Submit { group, incarnation, work } => OperationOutcome::Admission(
                self.submit(group, incarnation, work),
            ),
        };
        self.outcomes.push(outcome);
        assert(self@ =~= old(self)@.invoked(operation));
    }
}

/// Lists the groups other than `group`, in order.
fn all_but(groups: &Vec<GroupId>, group: GroupId) -> (r: Vec<GroupId>)
    ensures
        r@ == without(groups@, group),
{
    let mut rest: Vec<GroupId> = Vec::new();
    let mut i: usize = 0;
    proof {
        reveal(Seq::filter);
        assert(groups@.take(0) =~= Seq::<GroupId>::empty());
        assert(without(groups@.take(0), group) =~= Seq::<GroupId>::empty());
    }
    while i < groups.len()
        invariant
            i <= groups.len(),
            rest@ == without(groups@.take(i as int), group),
        decreases groups.len() - i,
    {
        let ghost more = groups@.take(i + 1);
        proof {
            assert(more.drop_last() =~= groups@.take(i as int));
            assert(more.last() == groups@[i as int]);
            reveal(Seq::filter);
        }
        if groups[i] != group {
            rest.push(groups[i]);
        }
        i = i + 1;
    }
    assert(groups@.take(groups.len() as int) =~= groups@);
    rest
}

/// Returns the least identifier of a nonempty list.
fn lowest(groups: &Vec<GroupId>) -> (r: GroupId)
    requires
        groups.len() > 0,
    ensures
        r == least(groups@),
{
    let mut low = groups[0];
    let mut i: usize = 1;
    while i < groups.len()
        invariant
            1 <= i <= groups.len(),
            low == least(groups@.take(i as int)),
        decreases groups.len() - i,
    {
        let ghost more = groups@.take(i + 1);
        proof {
            assert(more.drop_last() =~= groups@.take(i as int));
            assert(more.last() == groups@[i as int]);
        }
        if groups[i].get() < low.get() {
            low = groups[i];
        }
        i = i + 1;
    }
    assert(groups@.take(groups.len() as int) =~= groups@);
    low
}

/// Listing each identifier once loses none.
proof fn lemma_distinct(plan: Seq<GroupId>, group: GroupId)
    ensures
        distinct(plan).contains(group) <==> plan.contains(group),
    decreases plan.len(),
{
    if plan.len() > 0 {
        let rest = plan.drop_last();
        lemma_distinct(rest, group);
        assert(plan =~= rest.push(plan.last()));
        if plan.contains(group) && group != plan.last() {
            let i = plan.index_of(group);
            assert(rest[i] == group);
        }
        if rest.contains(group) {
            let i = rest.index_of(group);
            assert(plan[i] == group);
        }
        let before = distinct(rest);
        if rest.contains(plan.last()) {
        } else {
            let after = before.push(plan.last());
            if before.contains(group) {
                let i = before.index_of(group);
                assert(after[i] == group);
            }
            if after.contains(group) && group != plan.last() {
                let i = after.index_of(group);
                assert(before[i] == group);
            }
            assert(after[before.len() as int] == plan.last());
        }
        assert(plan[plan.len() - 1] == plan.last());
    }
}

/// What readiness rests on, and what a first fault does not touch.
proof fn lemma_ready_frame(s: FoldState, t: FoldState, group: GroupId)
    requires
        t == (FoldState { violation: t.violation, ..s }),
    ensures
        t.is_ready(group) == s.is_ready(group),
        t.is_owed(group) == s.is_owed(group),
{
}

impl Fold {
    /// Judges an armed plan entry by entry, and lists each group it names once.
    fn judge_plan(&mut self, pass: PassIndex, plan: &Vec<GroupId>) -> (r: Vec<GroupId>)
        ensures
            final(self)@ == old(self)@.plan_judged(pass, plan@, plan@.len()),
            r@ == distinct(plan@),
    {
        let ghost ordered = self@;
        let mut pending: Vec<GroupId> = Vec::new();
        let mut i: usize = 0;
        while i < plan.len()
            invariant
                i <= plan.len(),
                self@ == ordered.plan_judged(pass, plan@, i as nat),
                pending@ == distinct(plan@.take(i as int)),
            decreases plan.len() - i,
        {
            let group = plan[i];
            let ghost seen = plan@.take(i as int);
            let ghost more = plan@.take(i + 1);
            let ghost before = self@;
            proof {
                assert(more.drop_last() =~= seen);
                assert(more.last() == group);
                lemma_distinct(seen, group);
                lemma_plan_judged(ordered, pass, plan@, i as nat);
                lemma_ready_frame(ordered, self@, group);
            }
            let ready = self.is_ready(group);
            if lists(&pending, group) {
                self.fault(
                    FaultSite::PlanRepeatedAGroup,
                    SchedulingViolation::PlanRepeatedGroup { pass, group },
                );
            } else {
                pending.push(group);
            }
            if !ready {
                self.fault(
                    FaultSite::PlanNamedAnUnreadyGroup,
                    SchedulingViolation::PlanIncludedUnreadyGroup { pass, group },
                );
            }
            i = i + 1;
        }
        assert(plan@.take(plan.len() as int) =~= plan@);
        pending
    }

    /// Decides, slot by slot, whether a plan left out a group it owed a turn.
    fn denials(&self, plan: &Vec<GroupId>) -> (r: Vec<bool>)
        ensures
            r.len() == self.groups.len(),
            forall|i: int|
                0 <= i < r.len() ==> r@[i] == (self@.is_owed(self@.groups[i].group)
                    && !plan@.contains(self@.groups[i].group)),
    {
        let mut denied: Vec<bool> = Vec::new();
        let mut i: usize = 0;
        while i < self.groups.len()
            invariant
                i <= self.groups.len(),
                denied.len() == i,
                forall|j: int|
                    0 <= j < i ==> denied@[j] == (self@.is_owed(self@.groups[j].group)
                        && !plan@.contains(self@.groups[j].group)),
            decreases self.groups.len() - i,
        {
            let group = self.groups[i].group;
            assert(self@.groups[i as int].group == group);
            denied.push(self.is_owed(group) && !lists(plan, group));
            i = i + 1;
        }
        denied
    }

    /// Settles every slot's account of an armed plan.
    fn settle_accounts(&mut self, pass: PassIndex, denied: &Vec<bool>)
        requires
            denied.len() == old(self).groups.len(),
            forall|i: int|
                0 <= i < old(self)@.groups.len() ==> (#[trigger] old(self)@.groups[i]).gap.run
                    < u64::MAX,
        ensures
            final(self)@ == (FoldState {
                groups: Seq::new(
                    old(self)@.groups.len(),
                    |i: int|
                        if denied@[i] {
                            GroupFold {
                                gap: old(self)@.groups[i].gap.denied(pass),
                                ..old(self)@.groups[i]
                            }
                        } else {
                            GroupFold {
                                gap: old(self)@.groups[i].gap.satisfied(),
                                restored: false,
                                ..old(self)@.groups[i]
                            }
                        },
                ),
                ..old(self)@
            }),
    {
        let ghost start = self@;
        let ghost target = Seq::new(
            start.groups.len(),
            |i: int|
                if denied@[i] {
                    GroupFold { gap: start.groups[i].gap.denied(pass), ..start.groups[i] }
                } else {
                    GroupFold {
                        gap: start.groups[i].gap.satisfied(),
                        restored: false,
                        ..start.groups[i]
                    }
                },
        );
        let mut i: usize = 0;
        while i < self.groups.len()
            invariant
                i <= self.groups.len(),
                self.groups.len() == start.groups.len(),
                denied.len() == start.groups.len(),
                target.len() == start.groups.len(),
                forall|j: int|
                    0 <= j < start.groups.len() ==> (#[trigger] start.groups[j]).gap.run
                        < u64::MAX,
                forall|j: int|
                    0 <= j < target.len() ==> #[trigger] target[j] == if denied@[j] {
                        GroupFold { gap: start.groups[j].gap.denied(pass), ..start.groups[j] }
                    } else {
                        GroupFold {
                            gap: start.groups[j].gap.satisfied(),
                            restored: false,
                            ..start.groups[j]
                        }
                    },
                self@ == (FoldState { groups: self@.groups, ..start }),
                forall|j: int| 0 <= j < i ==> self@.groups[j] == target[j],
                forall|j: int| i <= j < start.groups.len() ==> self@.groups[j] == start.groups[j],
            decreases self.groups.len() - i,
        {
            let ghost before = self@;
            proof {
                assert(self@.groups[i as int] == start.groups[i as int]);
            }
            if denied[i] {
                self.groups[i].gap.deny(pass);
            } else {
                self.groups[i].gap.satisfy();
                self.groups[i].restored = false;
            }
            assert(self@.groups =~= before.groups.update(i as int, target[i as int]));
            i = i + 1;
        }
        assert(self@.groups =~= target);
    }

    /// Judges an armed plan and adopts it.
    fn arm(&mut self, pass: PassIndex, tick: TickIndex, plan: &Vec<GroupId>)
        requires
            fold_ok(old(self)@, replayable()),
        ensures
            final(self)@ == old(self)@.armed(pass, tick, plan@),
    {
        let ghost start = self@;
        if let Some(open) = &self.open {
            let open = open.pass;
            self.fault(
                FaultSite::ArmedOverAnOpenPass,
                SchedulingViolation::PassArmedWhileOpen { open, armed: pass },
            );
        }
        if pass != self.next_pass {
            self.fault(
                FaultSite::ArmedOutOfOrder,
                SchedulingViolation::PassOutOfOrder { expected: self.next_pass, observed: pass },
            );
        }
        if let Some(last) = self.last_armed {
            if tick.get() <= last.get() {
                self.fault(
                    FaultSite::ArmedTickReused,
                    SchedulingViolation::PassBoundaryReused { pass, tick },
                );
            }
        }
        let ghost ordered = self@;
        let denied = self.denials(plan);
        let pending = self.judge_plan(pass, plan);
        proof {
            lemma_plan_judged(ordered, pass, plan@, plan@.len());
            assert forall|i: int| 0 <= i < start.groups.len() implies denied@[i] == (start.is_owed(
                start.groups[i].group,
            ) && !plan@.contains(start.groups[i].group)) by {
                lemma_ready_frame(start, ordered, start.groups[i].group);
            }
        }
        let ghost judged = self@;
        self.last_armed = Some(tick);
        if let Some(next) = pass.successor() {
            self.next_pass = next;
        } else {
            self.next_pass = pass;
        }
        self.passes_armed = self.passes_armed + 1;
        let wide: u32 = if plan.len() as u64 > u32::MAX as u64 {
            u32::MAX
        } else {
            plan.len() as u32
        };
        if wide > self.widest_plan {
            self.widest_plan = wide;
        }
        self.open = Some(PlanInProgress { pass, pending, offered: Vec::new() });
        proof {
            assert(self@.groups =~= start.groups);
        }
        self.settle_accounts(pass, &denied);
        proof {
            let goal = start.armed(pass, tick, plan@);
            assert(self@.groups =~= goal.groups);
            assert(self@.open->0 =~= goal.open->0);
            assert(self@ =~= goal);
        }
    }

    /// Judges an offered turn.
    fn offer(&mut self, pass: PassIndex, tick: TickIndex, group: GroupId, outcome: OfferOutcome)
        requires
            fold_ok(old(self)@, replayable()),
        ensures
            final(self)@ == old(self)@.offered(pass, tick, group, outcome),
    {
        let ghost start = self@;
        self.opportunities = self.opportunities + 1;
        let mut planned: bool = false;
        let mut repeated: bool = false;
        if let Some(open) = &self.open {
            repeated = lists(&open.offered, group);
            planned = open.pass == pass && (repeated || lists(&open.pending, group));
        }
        if !planned {
            self.fault(
                FaultSite::OfferOutsideThePlan,
                SchedulingViolation::OfferOutsidePlan { pass, group },
            );
            return;
        }
        if repeated {
            self.fault(
                FaultSite::OfferedTwiceInOnePass,
                SchedulingViolation::GroupOfferedTwice { pass, group },
            );
            return;
        }
        if let Some(open) = self.open.as_mut() {
            let rest = all_but(&open.pending, group);
            open.pending = rest;
            open.offered.push(group);
        }
        let ghost taken = self@;
        proof {
            let open = start.open->0;
            assert(taken.open->0 =~= (OpenPass {
                pending: without(open.pending, group),
                offered: open.offered.push(group),
                ..open
            }));
            assert(taken =~= (FoldState {
                open: Some(
                    OpenPass {
                        pending: without(open.pending, group),
                        offered: open.offered.push(group),
                        ..open
                    },
                ),
                opportunities: start.opportunities + 1,
                ..start
            }));
        }
        let Some(i) = self.index_of(group) else {
            self.fault(
                FaultSite::OfferedAnUnknownGroup,
                SchedulingViolation::DispatchedUnreadyGroup { pass, group },
            );
            return;
        };
        match outcome {
            OfferOutcome::Skipped(_) => {
                if !self.groups[i].stalled {
                    self.fault(
                        FaultSite::SkippedWhileAvailable,
                        SchedulingViolation::SkippedAvailableGroup { pass, group },
                    );
                }
            },
            OfferOutcome::Dispatched { serviced, cost } => {
                if !self.is_ready(group) {
                    self.fault(
                        FaultSite::DispatchedWhileUnready,
                        SchedulingViolation::DispatchedUnreadyGroup { pass, group },
                    );
                    return;
                }
                let quota: u32 = self.groups[i].quota.get();
                let owed = self.groups[i].expected_dispatch();
                let ghost entry = start.groups[i as int];
                assert(entry == self@.groups[i as int]);
                if serviced > quota {
                    self.fault(
                        FaultSite::DispatchOverQuota,
                        SchedulingViolation::QuotaExceeded { pass, group, serviced, quota },
                    );
                }
                let owed_total: u32 = owed.len() as u32;
                self.recording = Some(
                    TurnInProgress {
                        pass,
                        tick,
                        group,
                        owed,
                        owed_total,
                        serviced: 0,
                        price: 0,
                        reported_serviced: serviced,
                        reported_cost: cost,
                    },
                );
                proof {
                    assert(self@.recording->0 =~= (Turn {
                        pass,
                        tick,
                        group,
                        owed: entry.owed(),
                        owed_total: entry.owed().len() as u32,
                        serviced: 0,
                        price: 0,
                        reported_serviced: serviced,
                        reported_cost: cost,
                    }));
                    assert(fold_ok(self@, u64::MAX as nat));
                }
                if self.workers_held() > self.config.workers() as u64 {
                    self.fault(
                        FaultSite::DispatchOverWorkerPool,
                        SchedulingViolation::WorkerCountExceeded {
                            pass,
                            group,
                            workers: self.config.workers(),
                        },
                    );
                }
                assert(self@ =~= start.offered(pass, tick, group, outcome));
            },
        }
    }

    /// Ends the turn whose services were still arriving, and prices it.
    fn settle(&mut self)
        requires
            fold_ok(old(self)@, u64::MAX as nat),
        ensures
            final(self)@ == old(self)@.settled(),
    {
        let ghost start = self@;
        let Some(turn) = self.recording.take() else {
            assert(self@ =~= start);
            return;
        };
        proof {
            assert(turn_ok(turn@));
            assert(self@ =~= (FoldState { recording: None, ..start }));
        }
        if turn.owed.len() > 0 {
            self.fault(
                FaultSite::TurnLeftWorkQueued,
                SchedulingViolation::DispatchLeftWorkUnserviced {
                    pass: turn.pass,
                    group: turn.group,
                    owed: turn.owed_total,
                    serviced: turn.serviced,
                },
            );
        }
        if turn.serviced != turn.reported_serviced {
            self.fault(
                FaultSite::TurnMiscountedItsWork,
                SchedulingViolation::ServiceCountMismatch {
                    pass: turn.pass,
                    group: turn.group,
                    expected: turn.serviced,
                    observed: turn.reported_serviced,
                },
            );
        }
        if turn.price != turn.reported_cost {
            self.fault(
                FaultSite::TurnMispricedItsWork,
                SchedulingViolation::DispatchCostMismatch {
                    pass: turn.pass,
                    group: turn.group,
                    expected: turn.price,
                    observed: turn.reported_cost,
                },
            );
        }
        let ghost closed = self@;
        if let Some(i) = self.index_of(turn.group) {
            let due = TickIndex::new(turn.tick.get().saturating_add(turn.price));
            self.groups[i].occupancy = Some(Occupancy { pass: turn.pass, due });
            assert(self@ =~= start.settled());
        }
    }

    /// Applies one recorded service to its group.
    fn apply(&mut self, group: GroupId, work: WorkId)
        requires
            fold_ok(old(self)@, u64::MAX as nat),
        ensures
            final(self)@ == old(self)@.applied(group, work),
    {
        let ghost start = self@;
        let Some(i) = self.index_of(group) else {
            return;
        };
        let Some(k) = item_index(&self.groups[i].queue, work) else {
            return;
        };
        proof {
            lemma_queued_bounds(self@.groups, i as int);
        }
        let record = self.groups[i].service(k);
        self.queued = self.queued - 1;
        self.serviced = self.serviced + 1;
        self.services.push(record);
        assert(self@ =~= start.applied(group, work));
    }

    /// Judges one recorded service and applies it.
    fn service(&mut self, pass: PassIndex, group: GroupId, work: WorkId)
        requires
            fold_ok(old(self)@, replayable()),
        ensures
            final(self)@ == old(self)@.service(pass, group, work),
    {
        let ghost start = self@;
        let mut within: bool = false;
        let mut expected: Option<WorkId> = None;
        let mut owed: u32 = 0;
        if let Some(turn) = &self.recording {
            within = turn.group == group && turn.pass == pass;
            owed = turn.owed_total;
            if turn.owed.len() > 0 {
                expected = Some(turn.owed[0]);
            }
        }
        if !within {
            self.fault(
                FaultSite::ServiceOutsideATurn,
                SchedulingViolation::ServiceOutsideDispatch { pass, group },
            );
            return;
        }
        let Some(expected) = expected else {
            self.fault(
                FaultSite::ServicePastTheTurnsWork,
                SchedulingViolation::DispatchServicedBeyondItsWork { pass, group, owed, work },
            );
            return;
        };
        let price: u64 = self.price_of(group, work);
        if expected != work {
            self.fault(
                FaultSite::ServiceOutOfOrder,
                SchedulingViolation::ServiceOrderViolation {
                    pass,
                    group,
                    expected,
                    observed: work,
                },
            );
        }
        let ghost judged = self@;
        proof {
            assert(turn_ok(start.recording->0));
        }
        if let Some(turn) = self.recording.as_mut() {
            let _ = turn.owed.pop_front();
            turn.serviced = turn.serviced + 1;
            turn.price = turn.price + price;
        }
        proof {
            let before = start.recording->0;
            let after = Turn {
                owed: before.owed.drop_first(),
                serviced: before.serviced + 1,
                price: before.price + price as nat,
                ..before
            };
            assert(self@.recording->0 =~= after);
            assert(self@ =~= (FoldState { recording: Some(after), ..judged }));
            assert(fold_ok(self@, u64::MAX as nat));
        }
        self.apply(group, work);
    }

    /// Worker occupancy an item is worth.
    fn price_of(&self, group: GroupId, work: WorkId) -> (r: u64)
        ensures
            r == match self@.entry(group) {
                Some(entry) => entry.price_of(work),
                None => 0,
            },
            r <= u32::MAX,
    {
        match self.index_of(group) {
            Some(i) => match item_index(&self.groups[i].queue, work) {
                Some(k) => self.groups[i].queue[k].work.cost().get() as u64,
                None => 0,
            },
            None => 0,
        }
    }

    /// Judges a retired plan.
    fn complete(&mut self, pass: PassIndex, tick: TickIndex)
        requires
            fold_ok(old(self)@, replayable()),
        ensures
            final(self)@ == old(self)@.completed(pass, tick),
    {
        let ghost start = self@;
        if let Some(last) = self.last_retired {
            if tick.get() <= last.get() {
                self.fault(
                    FaultSite::RetiredTickReused,
                    SchedulingViolation::PassBoundaryReused { pass, tick },
                );
            }
        }
        self.last_retired = Some(tick);
        let Some(open) = self.open.take() else {
            self.fault(
                FaultSite::RetiredWithNoPassOpen,
                SchedulingViolation::PassOutOfOrder { expected: self.next_pass, observed: pass },
            );
            assert(self@ =~= start.completed(pass, tick));
            return;
        };
        if open.pass != pass {
            self.fault(
                FaultSite::RetiredADifferentPass,
                SchedulingViolation::PassOutOfOrder { expected: open.pass, observed: pass },
            );
        }
        if open.pending.len() > 0 {
            self.fault(
                FaultSite::RetiredWithATurnOwing,
                SchedulingViolation::PassCompletedWithUnofferedGroup {
                    pass,
                    group: lowest(&open.pending),
                },
            );
        }
        self.passes_completed = self.passes_completed + 1;
        assert(self@ =~= start.completed(pass, tick));
    }

    /// Whether an event is part of the turn being recorded.
    fn continues_turn(&self, event: &HistoryEvent) -> (r: bool)
        ensures
            r == self@.continues(*event),
    {
        match event {
            HistoryEvent::WorkServiced { group, .. } => match &self.recording {
                Some(turn) => turn.group == *group,
                None => false,
            },
            HistoryEvent::Completed { .. } => true,
            HistoryEvent::Unknown { .. } => true,
            HistoryEvent::NotAdmitted { .. } => true,
            _ => false,
        }
    }

    /// Folds one more event.
    fn absorb(&mut self, event: &HistoryEvent)
        requires
            fold_ok(old(self)@, replayable()),
        ensures
            final(self)@ == old(self)@.absorbed(*event),
            event_ok(*event),
    {
        let ghost start = self@;
        proof {
            lemma_settled_ok(start, replayable());
            lemma_later(start, replayable(), u64::MAX as nat);
        }
        if !self.continues_turn(event) {
            self.settle();
        }
        match event {
            HistoryEvent::Invoked { operation, .. } => {
                self.invoke(*operation);
                if let Operation::Lifecycle { request, .. } = operation {
                    if let LifecycleRequest::Create { quota } = request {
                        let quota: WorkQuota = *quota;
                        proof {
                            use_type_invariant(&quota);
                        }
                    }
                }
            },
            HistoryEvent::AvailabilityReported { tick, group, availability } => {
                proof {
                    lemma_reached_ok(self@, *tick, replayable());
                }
                self.reach(*tick);
                assert(fold_ok(self@, u64::MAX as nat));
                self.report_availability(*group, *availability);
            },
            HistoryEvent::WorkerReleased { tick, group } => {
                let ghost before = self@;
                if self.monotone(*tick) {
                    self.release(*tick, *group);
                    self.reach(*tick);
                }
            },
            HistoryEvent::PassArmed { pass, tick, plan } => {
                proof {
                    lemma_reached_ok(self@, *tick, replayable());
                }
                self.reach(*tick);
                self.arm(*pass, *tick, plan);
            },
            HistoryEvent::GroupOffered { pass, tick, group, outcome } => {
                proof {
                    lemma_reached_ok(self@, *tick, replayable());
                }
                self.reach(*tick);
                self.offer(*pass, *tick, *group, *outcome);
            },
            HistoryEvent::WorkServiced { pass, group, work } => {
                self.service(*pass, *group, *work);
            },
            HistoryEvent::PassCompleted { pass, tick } => {
                proof {
                    lemma_reached_ok(self@, *tick, replayable());
                }
                self.reach(*tick);
                self.complete(*pass, *tick);
            },
            HistoryEvent::Completed { .. } => {},
            HistoryEvent::Unknown { .. } => {},
            HistoryEvent::NotAdmitted { .. } => {},
        }
    }
}

impl Fold {
    /// Finds the group denied the longest run of turns, and how long that run was.
    fn widest_gap(&self) -> (r: (Option<SchedulingViolation>, u32))
        requires
            worst_gap(self@.groups) <= u32::MAX,
        ensures
            r.1 == worst_gap(self@.groups),
            r.0 == match widest_denial(self@.groups, self@.groups.len() as int) {
                Some(i) => Some(
                    SchedulingViolation::OpportunityGap {
                        group: self@.groups[i].group,
                        from_pass: match self@.groups[i].gap.worst_from {
                            Some(pass) => pass,
                            None => PassIndex::at(1),
                        },
                        denied_passes: self@.groups[i].gap.worst as u32,
                    },
                ),
                None => None,
            },
    {
        let mut best: Option<usize> = None;
        let mut bar: u64 = 0;
        let mut i: usize = 0;
        let ghost groups = self@.groups;
        while i < self.groups.len()
            invariant
                i <= self.groups.len(),
                groups == self@.groups,
                match best {
                    Some(k) => k < i && widest_denial(groups, i as int) == Some(k as int) && bar
                        == groups[k as int].gap.worst,
                    None => widest_denial(groups, i as int) is None && bar == 0,
                },
            decreases self.groups.len() - i,
        {
            assert(groups[i as int].gap == self.groups@[i as int].gap@);
            if self.groups[i].gap.worst > bar {
                bar = self.groups[i].gap.worst;
                best = Some(i);
            }
            i = i + 1;
        }
        match best {
            None => (None, 0),
            Some(k) => {
                let denied_passes: u32 = bar as u32;
                let from_pass = match self.groups[k].gap.worst_from {
                    Some(pass) => pass,
                    None => PassIndex::first(),
                };
                (
                    Some(
                        SchedulingViolation::OpportunityGap {
                            group: self.groups[k].group,
                            from_pass,
                            denied_passes,
                        },
                    ),
                    denied_passes,
                )
            },
        }
    }

    /// Lists the public view of every slot, and counts the live, poisoned and ready ones.
    fn survey(&self) -> (r: (Vec<GroupView>, u32, u32, u32))
        requires
            fold_ok(self@, u64::MAX as nat),
        ensures
            r.0@ == fold_views(self@),
            r.1 == count_groups(
                self@.groups,
                self@.groups.len() as int,
                |g: GroupFold| !(g.state is Removed || g.state is Tombstoned),
            ),
            r.2 == count_groups(
                self@.groups,
                self@.groups.len() as int,
                |g: GroupFold| g.poisoned,
            ),
            r.3 == count_groups(
                self@.groups,
                self@.groups.len() as int,
                |g: GroupFold| self@.is_ready(g.group),
            ),
    {
        let mut views: Vec<GroupView> = Vec::new();
        let mut live: u32 = 0;
        let mut poisoned: u32 = 0;
        let mut ready: u32 = 0;
        let mut i: usize = 0;
        let ghost groups = self@.groups;
        while i < self.groups.len()
            invariant
                i <= self.groups.len(),
                groups == self@.groups,
                fold_ok(self@, u64::MAX as nat),
                views@ == fold_views(self@).take(i as int),
                live <= i,
                poisoned <= i,
                ready <= i,
                live == count_groups(
                    groups,
                    i as int,
                    |g: GroupFold| !(g.state is Removed || g.state is Tombstoned),
                ),
                poisoned == count_groups(groups, i as int, |g: GroupFold| g.poisoned),
                ready == count_groups(groups, i as int, |g: GroupFold| self@.is_ready(g.group)),
            decreases self.groups.len() - i,
        {
            let group = self.groups[i].group;
            proof {
                lemma_ascending_index(groups, i as int);
                assert(entry_ok(groups[i as int], self@.config, self@.passes_armed));
                assert(groups[i as int] == self.groups@[i as int]@);
            }
            let state = self.groups[i].state;
            views.push(
                GroupView {
                    group,
                    incarnation: self.groups[i].incarnation,
                    state,
                    poisoned: self.groups[i].poisoned,
                    stalled: self.groups[i].stalled,
                    counter: self.groups[i].counter,
                    queued: self.groups[i].queue.len() as u32,
                    quota: self.groups[i].quota,
                    servicing: self.occupied(group),
                },
            );
            if state != GroupLifecycle::Removed && state != GroupLifecycle::Tombstoned {
                live = live + 1;
            }
            if self.groups[i].poisoned {
                poisoned = poisoned + 1;
            }
            if self.is_ready(group) {
                ready = ready + 1;
            }
            i = i + 1;
            assert(views@ =~= fold_views(self@).take(i as int));
        }
        assert(fold_views(self@).take(i as int) =~= fold_views(self@));
        (views, live, poisoned, ready)
    }

    /// Settles whatever the record left open.
    fn close(self) -> (r: Self)
        requires
            fold_ok(self@, u64::MAX as nat),
        ensures
            r@ == self@.finished(),
            fold_ok(r@, u64::MAX as nat),
    {
        let mut fold = self;
        fold.settle();
        proof {
            lemma_settled_ok(self@, u64::MAX as nat);
        }
        if fold.queued as u64 + fold.serviced + fold.failed != fold.admitted {
            let queued: u32 = fold.queued;
            fold.fault(
                FaultSite::WorkUnaccountedFor,
                SchedulingViolation::WorkNotConserved {
                    admitted: fold.admitted,
                    serviced: fold.serviced,
                    failed: fold.failed,
                    queued,
                },
            );
        }
        fold
    }

    /// States every slot that the record implies.
    fn show(&self) -> (r: SchedulerView)
        requires
            fold_ok(self@, u64::MAX as nat),
        ensures
            shows(r, self@),
    {
        let (groups, _, _, _) = self.survey();
        SchedulerView { groups, queued: self.queued }
    }

    /// States the counts that the record implies.
    fn sum(&self) -> (r: SchedulerSummary)
        requires
            fold_ok(self@, u64::MAX as nat),
        ensures
            sums(r, self@),
    {
        let (_, live_groups, poisoned_groups, ready_groups) = self.survey();
        SchedulerSummary {
            live_groups,
            poisoned_groups,
            ready_groups,
            queued: self.queued,
            admitted: self.admitted,
            serviced: self.serviced,
            failed: self.failed,
        }
    }

    /// States everything that a closed record implies.
    fn report(self) -> (r: Replay)
        requires
            fold_ok(self@, u64::MAX as nat),
            worst_gap(self@.groups) <= u32::MAX,
        ensures
            replays(r, self@),
    {
        let (gap, widest_gap) = self.widest_gap();
        let fault = match self.violation {
            Some(fault) => Some(fault),
            None => match gap {
                Some(violation) => Some((FaultSite::WidestOpportunityGap, violation)),
                None => None,
            },
        };
        assert(fault == self@.verdict());
        let fairness = match fault {
            Some((_, violation)) => Err(violation),
            None => Ok(
                FairnessReport {
                    passes_armed: self.passes_armed,
                    passes_completed: self.passes_completed,
                    opportunities: self.opportunities,
                    serviced: self.serviced,
                    widest_plan: self.widest_plan,
                    widest_gap,
                },
            ),
        };
        let view = self.show();
        let summary = self.sum();
        Replay {
            view,
            summary,
            outcomes: self.outcomes,
            services: self.services,
            failures: self.failures,
            fairness,
            fault: match fault {
                Some((site, _)) => Some(site),
                None => None,
            },
        }
    }
}

/// One more event of a history folds onto what came before it.
proof fn lemma_folded_step(config: SchedulerConfig, log: Seq<HistoryEvent>, i: int)
    requires
        0 <= i < log.len(),
        fold_ok(FoldState::folded(config, log.take(i)), i as nat),
        event_ok(log[i]),
    ensures
        FoldState::folded(config, log.take(i + 1)) == FoldState::folded(
            config,
            log.take(i),
        ).absorbed(log[i]),
        fold_ok(FoldState::folded(config, log.take(i + 1)), (i + 1) as nat),
{
    assert(log.take(i + 1).drop_last() =~= log.take(i));
    assert(log.take(i + 1).last() == log[i]);
    lemma_absorbed_ok(FoldState::folded(config, log.take(i)), log[i], i as nat);
}

/// Folds a whole history.
#[verifier::spinoff_prover]
#[verifier::rlimit(40)]
fn fold_history(config: SchedulerConfig, log: &Vec<HistoryEvent>) -> (r: Fold)
    ensures
        r@ == FoldState::folded(config, log@),
        fold_ok(r@, u64::MAX as nat),
{
    let mut fold = Fold::new(config);
    let mut i: usize = 0;
    while i < log.len()
        invariant
            i <= log.len(),
            fold@ == FoldState::folded(config, log@.take(i as int)),
            fold_ok(fold@, i as nat),
        decreases log.len() - i,
    {
        proof {
            lemma_later(fold@, i as nat, replayable());
        }
        fold.absorb(&log[i]);
        proof {
            lemma_folded_step(config, log@, i as int);
        }
        i = i + 1;
    }
    proof {
        assert(log@.take(i as int) =~= log@);
        lemma_later(fold@, i as nat, u64::MAX as nat);
    }
    fold
}

/// Append-only judge of one recorded history.
///
/// It holds the history and nothing derived from it, so every answer is a function of what was
/// observed.
#[derive(Debug)]
pub struct ReferenceScheduler {
    config: SchedulerConfig,
    log: Vec<HistoryEvent>,
}

impl ReferenceScheduler {
    /// Bounds the history is judged against.
    pub closed spec fn bounds(self) -> SchedulerConfig {
        self.config
    }

    /// The recorded history, in order.
    pub closed spec fn recorded(self) -> Seq<HistoryEvent> {
        self.log@
    }

    /// A history that is held in memory has no more events than memory can number.
    pub(crate) proof fn lemma_recorded_fits(self)
        ensures
            self.recorded().len() <= usize::MAX,
    {
        assert(self.log@.len() == self.log.len());
    }

    /// What the recorded history implies.
    pub open(crate) spec fn implied(self) -> FoldState {
        FoldState::folded(self.bounds(), self.recorded()).finished()
    }

    /// Creates a judge with an empty history.
    pub fn new(config: SchedulerConfig) -> (r: Self)
        ensures
            r.bounds() == config,
            r.recorded() == Seq::<HistoryEvent>::empty(),
    {
        Self { config, log: Vec::new() }
    }

    /// Appends one observed event.
    pub fn observe(&mut self, event: HistoryEvent)
        ensures
            final(self).bounds() == old(self).bounds(),
            final(self).recorded() == old(self).recorded().push(event),
    {
        self.log.push(event);
    }

    /// Appends a recorded history.
    pub fn observe_all(&mut self, events: Vec<HistoryEvent>)
        ensures
            final(self).bounds() == old(self).bounds(),
            final(self).recorded() == old(self).recorded() + events@,
    {
        let mut events = events;
        self.log.append(&mut events);
    }

    /// Returns the recorded history in order.
    pub fn history(&self) -> (r: &[HistoryEvent])
        ensures
            r@ == self.recorded(),
    {
        self.log.as_slice()
    }

    /// Returns the number of recorded events.
    pub fn len(&self) -> (r: usize)
        ensures
            r == self.recorded().len(),
    {
        self.log.len()
    }

    /// Returns whether nothing has been recorded.
    pub fn is_empty(&self) -> (r: bool)
        ensures
            r == (self.recorded().len() == 0),
    {
        self.log.len() == 0
    }

    /// Folds the whole history into everything it implies. The longest run of plans that denied one
    /// group a turn has to fit the count that states it.
    pub fn replay(&self) -> (r: Replay)
        requires
            worst_gap(self.implied().groups) <= u32::MAX,
        ensures
            replays(r, self.implied()),
    {
        fold_history(self.config, &self.log).close().report()
    }

    /// Folds the history and returns only the state it implies.
    pub fn view(&self) -> (r: SchedulerView)
        ensures
            shows(r, self.implied()),
    {
        fold_history(self.config, &self.log).close().show()
    }

    /// Folds the history and returns only the aggregate counts it implies.
    pub fn summary(&self) -> (r: SchedulerSummary)
        ensures
            sums(r, self.implied()),
    {
        fold_history(self.config, &self.log).close().sum()
    }

    /// Folds the history and judges the scheduling decisions in it: the first structural violation,
    /// or the widest opportunity gap when the decisions were structurally sound but unfair. The
    /// longest run of plans that denied one group a turn has to fit the count that states it.
    pub fn audit(&self) -> (r: Result<FairnessReport, SchedulingViolation>)
        requires
            worst_gap(self.implied().groups) <= u32::MAX,
        ensures
            judges(r, self.implied()),
    {
        self.replay().fairness
    }
}

} // verus!
