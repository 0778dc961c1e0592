//! Independent pass-event audit for the process scheduler.
//!
//! The audit keeps its own shadow of every group's queue from what it observed, and derives from
//! that shadow alone which groups a plan has to name.

use vstd::prelude::*;

use crate::table::{lemma_contents_determine_rows, lemma_key_count, lemma_row, Row, Table};
use crate::types::{GroupId, WorkClass};

pub mod laws;

verus! {

/// Multiplier of the evidence digests.
pub const DIGEST_PRIME: u64 = 0x0000_0100_0000_01b3;

/// One item of a dispatch.
#[derive(Clone, Copy, Debug, Eq, PartialEq, Structural)]
pub struct DispatchedItem {
    /// Work that was dispatched.
    pub work_id: u64,
    /// Its class.
    pub class: WorkClass,
}

/// A dispatch as the audit observes it.
#[derive(Clone, Debug)]
pub struct ObservedDispatch {
    /// Pass it belongs to.
    pub pass_id: u64,
    /// Its own identity.
    pub dispatch_id: u64,
    /// Group whose turn it is.
    pub group_id: GroupId,
    /// Work of the turn.
    pub items: Vec<DispatchedItem>,
}

/// Why a planned group got no turn.
#[derive(Clone, Copy, Debug, Eq, PartialEq, Structural)]
pub enum SkipReason {
    /// The group is not available.
    Unavailable,
    /// The group still has work in flight.
    InFlight,
    /// Nothing is queued.
    Empty,
}

/// End of a pass as the scheduler reports it.
#[derive(Clone, Copy, Debug, Eq, PartialEq, Structural)]
pub struct ObservedCompletion {
    /// The pass.
    pub pass_id: u64,
    /// Groups it planned.
    pub planned: usize,
    /// Turns it dispatched.
    pub dispatched: usize,
    /// Turns it skipped.
    pub skipped: usize,
}

#[derive(Debug)]
struct ShadowGroup {
    available: bool,
    queued: Table<WorkClass>,
    in_flight: Table<()>,
}

#[derive(Debug)]
struct OpenPass {
    pass_id: u64,
    planned: Table<()>,
    terminal: Table<()>,
    dispatched: usize,
    skipped: usize,
}

/// Independent evidence on the scheduler's passes.
#[derive(Debug)]
pub struct Audit {
    plans: u64,
    opportunities: u64,
    passes_completed: u64,
    certified_passes: u64,
    invalid_plans: u64,
    invalid_turns: u64,
    plan_digest: u64,
    turn_digest: u64,
    per_group: Table<u64>,
    groups: Table<ShadowGroup>,
    open: Option<OpenPass>,
}

/// What the audit believes of one group.
#[verifier::ext_equal]
pub struct ShadowView {
    /// Turns may be planned.
    pub available: bool,
    /// Work that waits, with its class.
    pub queued: Map<u64, WorkClass>,
    /// Work of a turn that has not ended.
    pub in_flight: Set<u64>,
}

/// A pass that has not ended.
#[verifier::ext_equal]
pub struct OpenView {
    /// The pass.
    pub pass_id: u64,
    /// Groups it planned.
    pub planned: Set<u64>,
    /// Groups whose opportunity was used.
    pub terminal: Set<u64>,
    /// Turns dispatched.
    pub dispatched: nat,
    /// Turns skipped.
    pub skipped: nat,
}

/// Everything the audit holds.
#[verifier::ext_equal]
pub struct AuditState {
    /// Plans observed.
    pub plans: nat,
    /// Opportunities observed.
    pub opportunities: nat,
    /// Passes that ended.
    pub passes_completed: nat,
    /// Passes that ended as the shadow says they should.
    pub certified_passes: nat,
    /// Plans the shadow contradicts.
    pub invalid_plans: nat,
    /// Events the shadow contradicts.
    pub invalid_turns: nat,
    /// Digest of the plans.
    pub plan_digest: u64,
    /// Digest of the turns.
    pub turn_digest: u64,
    /// Turns dispatched to each group.
    pub per_group: Map<u64, u64>,
    /// The shadow groups.
    pub groups: Map<u64, ShadowView>,
    /// Pass that has not ended.
    pub open: Option<OpenView>,
}

/// A value mixed into a digest.
pub open spec fn mixed(digest: u64, value: u64) -> u64 {
    (digest ^ value).wrapping_mul(DIGEST_PRIME)
}

/// Code of a class in the digest.
pub open spec fn class_code(class: WorkClass) -> u64 {
    match class {
        WorkClass::Control => 1,
        WorkClass::Command => 2,
        WorkClass::Snapshot => 3,
        WorkClass::Bulk => 4,
    }
}

/// Code of a skip in the digest.
pub open spec fn skip_code(reason: SkipReason) -> u64 {
    match reason {
        SkipReason::Unavailable => 11,
        SkipReason::InFlight => 12,
        SkipReason::Empty => 13,
    }
}

/// Digest of groups, in order.
pub open(crate) spec fn mixed_groups(digest: u64, groups: Seq<GroupId>) -> u64
    decreases groups.len(),
{
    if groups.len() == 0 {
        digest
    } else {
        mixed(mixed_groups(digest, groups.drop_last()), groups.last()@ as u64)
    }
}

/// Digest of dispatched items, in order.
pub open spec fn mixed_items(digest: u64, items: Seq<DispatchedItem>) -> u64
    decreases items.len(),
{
    if items.len() == 0 {
        digest
    } else {
        mixed(
            mixed(mixed_items(digest, items.drop_last()), items.last().work_id),
            class_code(items.last().class),
        )
    }
}

impl ShadowView {
    /// The group has to be in the next plan.
    pub open spec fn ready(self) -> bool {
        self.available && self.in_flight == Set::<u64>::empty() && exists|work: u64|
            self.queued.contains_key(work)
    }

    /// Reason the group has to be skipped for.
    pub open spec fn skip_reason(self) -> SkipReason {
        if !self.available {
            SkipReason::Unavailable
        } else if self.in_flight != Set::<u64>::empty() {
            SkipReason::InFlight
        } else {
            SkipReason::Empty
        }
    }

    /// The group after an item was dispatched. Only work that waited in this class goes into
    /// flight.
    pub open spec fn dispatch(self, item: DispatchedItem) -> ShadowView {
        let queued = self.queued.remove(item.work_id);
        if self.queued.contains_key(item.work_id) && self.queued[item.work_id] == item.class {
            ShadowView { queued, in_flight: self.in_flight.insert(item.work_id), ..self }
        } else {
            ShadowView { queued, ..self }
        }
    }

    /// The item contradicts the shadow.
    pub open spec fn contradicts(self, item: DispatchedItem) -> bool {
        !(self.queued.contains_key(item.work_id) && self.queued[item.work_id] == item.class)
            || self.in_flight.contains(item.work_id)
    }

    /// The group after items were dispatched in order.
    pub open spec fn dispatch_all(self, items: Seq<DispatchedItem>) -> ShadowView
        decreases items.len(),
    {
        if items.len() == 0 {
            self
        } else {
            self.dispatch_all(items.drop_last()).dispatch(items.last())
        }
    }

    /// Items that contradict the shadow when they are dispatched in order.
    pub open spec fn contradictions(self, items: Seq<DispatchedItem>) -> nat
        decreases items.len(),
    {
        if items.len() == 0 {
            0
        } else {
            self.contradictions(items.drop_last()) + if self.dispatch_all(
                items.drop_last(),
            ).contradicts(items.last()) {
                1nat
            } else {
                0nat
            }
        }
    }

    /// The group after waiting work was failed.
    pub open spec fn fail_all(self, work: Seq<u64>) -> ShadowView
        decreases work.len(),
    {
        if work.len() == 0 {
            self
        } else {
            let before = self.fail_all(work.drop_last());
            ShadowView { queued: before.queued.remove(work.last()), ..before }
        }
    }

    /// Failed work that did not wait.
    pub open spec fn not_waiting(self, work: Seq<u64>) -> nat
        decreases work.len(),
    {
        if work.len() == 0 {
            0
        } else {
            self.not_waiting(work.drop_last()) + if self.fail_all(
                work.drop_last(),
            ).queued.contains_key(work.last()) {
                0nat
            } else {
                1nat
            }
        }
    }

    /// The group after work in flight ended.
    pub open spec fn end_all(self, work: Seq<u64>) -> ShadowView
        decreases work.len(),
    {
        if work.len() == 0 {
            self
        } else {
            let before = self.end_all(work.drop_last());
            ShadowView { in_flight: before.in_flight.remove(work.last()), ..before }
        }
    }

    /// Ended work that was not in flight.
    pub open spec fn not_in_flight(self, work: Seq<u64>) -> nat
        decreases work.len(),
    {
        if work.len() == 0 {
            0
        } else {
            self.not_in_flight(work.drop_last()) + if self.end_all(
                work.drop_last(),
            ).in_flight.contains(work.last()) {
                0nat
            } else {
                1nat
            }
        }
    }
}

/// The items stand in the order of their classes.
pub open spec fn classes_in_order(items: Seq<DispatchedItem>) -> bool {
    forall|i: int, j: int|
        0 <= i < j < items.len() ==> (#[trigger] items[i]).class.rank() <= (
        #[trigger] items[j]).class.rank()
}

/// Groups in strictly ascending order.
pub open(crate) spec fn ascending(groups: Seq<GroupId>) -> bool {
    forall|i: int, j: int| 0 <= i < j < groups.len() ==> #[trigger] groups[i]@ < #[trigger] groups[j]@
}

/// The groups are named.
pub open(crate) spec fn names(groups: Seq<GroupId>, group: u64) -> bool {
    exists|i: int| 0 <= i < groups.len() && #[trigger] groups[i]@ == group
}

impl AuditState {
    /// The state with more events that the shadow contradicts.
    pub open spec fn blame(self, turns: nat) -> AuditState {
        AuditState { invalid_turns: self.invalid_turns + turns, ..self }
    }

    /// The state with one group replaced.
    pub open spec fn with(self, group: u64, view: ShadowView) -> AuditState {
        AuditState { groups: self.groups.insert(group, view), ..self }
    }

    /// The group has to be in the next plan.
    pub open spec fn is_ready(self, group: u64) -> bool {
        self.groups.contains_key(group) && self.groups[group].ready()
    }

    /// The plan is the one that the shadow expects: with no pass open, every ready group and no
    /// other, in order.
    pub open(crate) spec fn expects(self, groups: Seq<GroupId>) -> bool {
        &&& self.open is None
        &&& groups.len() > 0
        &&& ascending(groups)
        &&& forall|group: u64| #[trigger] names(groups, group) <==> self.is_ready(group)
    }

    /// A group registered.
    pub open spec fn register(self, group: u64) -> AuditState {
        let blamed = if self.groups.contains_key(group) {
            self.blame(1)
        } else {
            self
        };
        let per_group = if self.per_group.contains_key(group) {
            self.per_group
        } else {
            self.per_group.insert(group, 0)
        };
        AuditState {
            groups: self.groups.insert(
                group,
                ShadowView {
                    available: false,
                    queued: Map::empty(),
                    in_flight: Set::empty(),
                },
            ),
            per_group,
            ..blamed
        }
    }

    /// A group became available or not.
    pub open spec fn set_availability(self, group: u64, available: bool) -> AuditState {
        if self.groups.contains_key(group) {
            self.with(group, ShadowView { available, ..self.groups[group] })
        } else {
            self.blame(1)
        }
    }

    /// A group left.
    pub open spec fn remove(self, group: u64) -> AuditState {
        if self.groups.contains_key(group) {
            let view = self.groups[group];
            let left = AuditState { groups: self.groups.remove(group), ..self };
            if view.queued == Map::<u64, WorkClass>::empty() && view.in_flight == Set::<
                u64,
            >::empty() {
                left
            } else {
                left.blame(1)
            }
        } else {
            self.blame(1)
        }
    }

    /// Work was admitted.
    pub open spec fn queue(self, group: u64, work: u64, class: WorkClass) -> AuditState {
        if self.groups.contains_key(group) {
            let view = self.groups[group];
            let admitted = self.with(
                group,
                ShadowView { queued: view.queued.insert(work, class), ..view },
            );
            if view.queued.contains_key(work) || view.in_flight.contains(work) {
                admitted.blame(1)
            } else {
                admitted
            }
        } else {
            self.blame(1)
        }
    }

    /// Waiting work was failed.
    pub open spec fn fail_queued(self, group: u64, work: Seq<u64>) -> AuditState {
        if self.groups.contains_key(group) {
            let view = self.groups[group];
            self.with(group, view.fail_all(work)).blame(view.not_waiting(work))
        } else {
            self.blame(1)
        }
    }

    /// A plan was armed.
    pub open(crate) spec fn plan(self, pass: u64, groups: Seq<GroupId>) -> AuditState {
        AuditState {
            plans: self.plans + 1,
            invalid_plans: self.invalid_plans + if self.expects(groups) {
                0nat
            } else {
                1nat
            },
            plan_digest: mixed_groups(mixed(self.plan_digest, pass), groups),
            per_group: Map::new(
                |group: u64| self.per_group.contains_key(group) || names(groups, group),
                |group: u64|
                    if self.per_group.contains_key(group) {
                        self.per_group[group]
                    } else {
                        0u64
                    },
            ),
            open: Some(
                OpenView {
                    pass_id: pass,
                    planned: Set::new(|group: u64| names(groups, group)),
                    terminal: Set::empty(),
                    dispatched: 0,
                    skipped: 0,
                },
            ),
            ..self
        }
    }

    /// A planned opportunity was used.
    pub open spec fn terminal(self, pass: u64, group: u64, dispatched: bool) -> AuditState {
        let seen = AuditState {
            opportunities: self.opportunities + 1,
            turn_digest: mixed(mixed(self.turn_digest, pass), group),
            ..self
        };
        match self.open {
            None => seen.blame(1),
            Some(open) => if open.pass_id != pass || !open.planned.contains(group)
                || open.terminal.contains(group) {
                seen.blame(1)
            } else {
                let terminal = open.terminal.insert(group);
                let open = if dispatched {
                    OpenView { terminal, dispatched: open.dispatched + 1, ..open }
                } else {
                    OpenView { terminal, skipped: open.skipped + 1, ..open }
                };
                AuditState { open: Some(open), ..seen }
            },
        }
    }

    /// A turn was dispatched.
    pub open(crate) spec fn dispatch(self, dispatch: ObservedDispatch) -> AuditState {
        let group = dispatch.group_id@ as u64;
        let items = dispatch.items@;
        let judged = if classes_in_order(items) {
            self
        } else {
            self.blame(1)
        };
        if !self.groups.contains_key(group) {
            judged.blame(1).terminal(dispatch.pass_id, group, true)
        } else {
            let view = self.groups[group];
            let expected = view.available && view.in_flight == Set::<u64>::empty() && items.len()
                > 0;
            let turned = judged.with(group, view.dispatch_all(items)).blame(
                view.contradictions(items) + if expected {
                    0nat
                } else {
                    1nat
                },
            ).terminal(dispatch.pass_id, group, true);
            let count = if turned.per_group.contains_key(group) {
                turned.per_group[group]
            } else {
                0
            };
            AuditState {
                turn_digest: mixed_items(mixed(turned.turn_digest, dispatch.dispatch_id), items),
                per_group: turned.per_group.insert(group, (count + 1) as u64),
                ..turned
            }
        }
    }

    /// A planned group was skipped.
    pub open spec fn skip(self, pass: u64, group: u64, reason: SkipReason) -> AuditState {
        let expected = if self.groups.contains_key(group) {
            self.groups[group].skip_reason()
        } else {
            SkipReason::Unavailable
        };
        let judged = if reason == expected {
            self
        } else {
            self.blame(1)
        };
        let used = judged.terminal(pass, group, false);
        AuditState { turn_digest: mixed(used.turn_digest, skip_code(reason)), ..used }
    }

    /// A turn ended.
    pub open spec fn end_dispatch(self, group: u64, work: Seq<u64>, poisoned: bool) -> AuditState {
        if self.groups.contains_key(group) {
            let view = self.groups[group];
            let ended = view.end_all(work);
            let ended = if poisoned {
                ShadowView { available: false, ..ended }
            } else {
                ended
            };
            self.with(group, ended).blame(view.not_in_flight(work))
        } else {
            self.blame(1)
        }
    }

    /// The reported end is the one that was observed.
    pub open spec fn certifies(self, completion: ObservedCompletion) -> bool {
        match self.open {
            None => false,
            Some(open) => {
                &&& open.pass_id == completion.pass_id
                &&& open.planned.len() == completion.planned
                &&& open.terminal == open.planned
                &&& open.dispatched == completion.dispatched
                &&& open.skipped == completion.skipped
                &&& completion.planned == completion.dispatched + completion.skipped
            },
        }
    }

    /// A pass ended.
    pub open spec fn complete(self, completion: ObservedCompletion) -> AuditState {
        let ended = AuditState {
            passes_completed: self.passes_completed + 1,
            open: None,
            ..self
        };
        if self.certifies(completion) {
            AuditState { certified_passes: self.certified_passes + 1, ..ended }
        } else {
            AuditState { invalid_plans: self.invalid_plans + 1, ..ended }
        }
    }

    /// Groups with at least one turn.
    pub open spec fn covered(self) -> Set<u64> {
        Set::new(|group: u64| self.per_group.contains_key(group) && self.per_group[group] != 0)
    }

    /// The widest difference between the turns of two covered groups.
    pub open spec fn is_widest_gap(self, gap: u64) -> bool {
        if self.covered() == Set::<u64>::empty() {
            gap == 0
        } else {
            exists|most: u64, least: u64| #[trigger]
                self.spans(most, least) && gap == self.per_group[most] - self.per_group[least]
        }
    }

    /// No covered group has more turns than `most` or fewer than `least`.
    pub open spec fn spans(self, most: u64, least: u64) -> bool {
        &&& self.covered().contains(most)
        &&& self.covered().contains(least)
        &&& forall|group: u64| #[trigger]
            self.covered().contains(group) ==> self.per_group[least] <= self.per_group[group]
                <= self.per_group[most]
    }

    /// Every counter can take `n` more.
    pub open spec fn room(self, n: nat) -> bool {
        &&& self.plans + n <= u64::MAX
        &&& self.opportunities + n <= u64::MAX
        &&& self.passes_completed + n <= u64::MAX
        &&& self.certified_passes + n <= u64::MAX
        &&& self.invalid_plans + n <= u64::MAX
        &&& self.invalid_turns + n <= u64::MAX
    }
}


fn mix(digest: u64, value: u64) -> (r: u64)
    ensures
        r == mixed(digest, value),
{
    (digest ^ value).wrapping_mul(DIGEST_PRIME)
}

impl ShadowGroup {
    /// What the group stands for.
    spec fn shows(self) -> ShadowView {
        ShadowView {
            available: self.available,
            queued: self.queued@,
            in_flight: self.in_flight@.dom(),
        }
    }

    /// Its tables are in order.
    spec fn wf(self) -> bool {
        self.queued.wf() && self.in_flight.wf()
    }

    fn is_idle(&self) -> (r: bool)
        requires
            self.wf(),
        ensures
            r == (self.shows().in_flight == Set::<u64>::empty()),
    {
        proof {
            lemma_emptiness(self.in_flight);
        }
        self.in_flight.len() == 0
    }

    fn is_waiting(&self) -> (r: bool)
        requires
            self.wf(),
        ensures
            r == exists|work: u64| self.shows().queued.contains_key(work),
            r == (self.shows().queued != Map::<u64, WorkClass>::empty()),
    {
        proof {
            lemma_emptiness(self.queued);
            self.queued.lemma_rows();
            if self.queued.count() > 0 {
                assert(self.shows().queued.contains_key(self.queued.key(0)));
            } else {
                assert forall|work: u64| !self.queued@.contains_key(work) by {}
                assert(self.queued@ =~= Map::<u64, WorkClass>::empty());
            }
        }
        self.queued.len() > 0
    }
}

/// A table without rows is the empty one.
proof fn lemma_emptiness<V>(table: Table<V>)
    requires
        table.wf(),
    ensures
        table.count() == 0 <==> table@.dom() == Set::<u64>::empty(),
{
    table.lemma_rows();
    if table.count() > 0 {
        assert(table@.dom().contains(table.key(0)));
    } else {
        assert forall|key: u64| !table@.dom().contains(key) by {}
        assert(table@.dom() =~= Set::<u64>::empty());
    }
}

/// Tables without values are the same when they have the same keys.
fn same_keys(a: &Table<()>, b: &Table<()>) -> (r: bool)
    requires
        a.wf(),
        b.wf(),
    ensures
        r == (a@.dom() == b@.dom()),
{
    proof {
        if a@.dom() == b@.dom() {
            assert(a@ =~= b@);
            lemma_contents_determine_rows(a.all(), b.all());
        }
    }
    if a.len() != b.len() {
        return false;
    }
    let mut i: usize = 0;
    while i < a.len()
        invariant
            a.wf(),
            b.wf(),
            i <= a.count(),
            a.count() == b.count(),
            forall|k: int| 0 <= k < i ==> a.key(k) == b.key(k),
            a@.dom() == b@.dom() ==> a.all() == b.all(),
        decreases a.count() - i,
    {
        if a.row_ref(i).key != b.row_ref(i).key {
            return false;
        }
        i = i + 1;
    }
    proof {
        assert(a.all() =~= b.all()) by {
            assert forall|k: int| 0 <= k < a.count() implies a.all()[k] == b.all()[k] by {
                assert(a.key(k) == b.key(k));
                assert(a.all()[k].value == b.all()[k].value);
            }
        }
    }
    true
}

impl OpenPass {
    spec fn shows(self) -> OpenView {
        OpenView {
            pass_id: self.pass_id,
            planned: self.planned@.dom(),
            terminal: self.terminal@.dom(),
            dispatched: self.dispatched as nat,
            skipped: self.skipped as nat,
        }
    }

    spec fn wf(self) -> bool {
        &&& self.planned.wf()
        &&& self.terminal.wf()
        &&& self.dispatched + self.skipped == self.terminal.count()
    }
}

impl Audit {
    /// Everything the audit holds.
    pub closed spec fn state(self) -> AuditState {
        AuditState {
            plans: self.plans as nat,
            opportunities: self.opportunities as nat,
            passes_completed: self.passes_completed as nat,
            certified_passes: self.certified_passes as nat,
            invalid_plans: self.invalid_plans as nat,
            invalid_turns: self.invalid_turns as nat,
            plan_digest: self.plan_digest,
            turn_digest: self.turn_digest,
            per_group: self.per_group@,
            groups: self.groups@.map_values(|group: ShadowGroup| group.shows()),
            open: match self.open {
                Some(open) => Some(open.shows()),
                None => None,
            },
        }
    }

    /// The tables are in order, and no group has more turns than there were opportunities.
    pub closed spec fn wf(self) -> bool {
        &&& self.per_group.wf()
        &&& self.groups.wf()
        &&& forall|group: u64| #[trigger]
            self.groups@.contains_key(group) ==> self.groups@[group].wf()
        &&& match self.open {
            Some(open) => open.wf(),
            None => true,
        }
        &&& forall|group: u64| #[trigger]
            self.per_group@.contains_key(group) ==> self.per_group@[group] <= self.opportunities
    }

    /// Creates an audit that has observed nothing.
    pub fn new() -> (r: Self)
        ensures
            r.wf(),
            r.state() == (AuditState {
                plans: 0,
                opportunities: 0,
                passes_completed: 0,
                certified_passes: 0,
                invalid_plans: 0,
                invalid_turns: 0,
                plan_digest: 0,
                turn_digest: 0,
                per_group: Map::empty(),
                groups: Map::empty(),
                open: None,
            }),
    {
        let audit = Self {
            plans: 0,
            opportunities: 0,
            passes_completed: 0,
            certified_passes: 0,
            invalid_plans: 0,
            invalid_turns: 0,
            plan_digest: 0,
            turn_digest: 0,
            per_group: Table::new(),
            groups: Table::new(),
            open: None,
        };
        assert(audit.state().groups =~= Map::<u64, ShadowView>::empty());
        audit
    }

    /// Returns whether every counter can take `n` more.
    pub fn has_room(&self, n: u64) -> (r: bool)
        ensures
            r == self.state().room(n as nat),
    {
        self.plans <= u64::MAX - n && self.opportunities <= u64::MAX - n && self.passes_completed
            <= u64::MAX - n && self.certified_passes <= u64::MAX - n && self.invalid_plans
            <= u64::MAX - n && self.invalid_turns <= u64::MAX - n
    }

    /// Returns the plans observed.
    pub fn plans(&self) -> (r: u64)
        ensures
            r == self.state().plans,
    {
        self.plans
    }

    /// Returns the opportunities observed.
    pub fn opportunities(&self) -> (r: u64)
        ensures
            r == self.state().opportunities,
    {
        self.opportunities
    }

    /// Returns the passes that ended.
    pub fn passes_completed(&self) -> (r: u64)
        ensures
            r == self.state().passes_completed,
    {
        self.passes_completed
    }

    /// Returns the passes that ended as the shadow says they should.
    pub fn certified_passes(&self) -> (r: u64)
        ensures
            r == self.state().certified_passes,
    {
        self.certified_passes
    }

    /// Returns the plans that the shadow contradicts.
    pub fn invalid_plans(&self) -> (r: u64)
        ensures
            r == self.state().invalid_plans,
    {
        self.invalid_plans
    }

    /// Returns the events that the shadow contradicts.
    pub fn invalid_turns(&self) -> (r: u64)
        ensures
            r == self.state().invalid_turns,
    {
        self.invalid_turns
    }

    /// Returns the digest of the plans.
    pub fn plan_digest(&self) -> (r: u64)
        ensures
            r == self.state().plan_digest,
    {
        self.plan_digest
    }

    /// Returns the digest of the turns.
    pub fn turn_digest(&self) -> (r: u64)
        ensures
            r == self.state().turn_digest,
    {
        self.turn_digest
    }

    /// Observes that a group registered.
    pub fn register_group(&mut self, group_id: GroupId)
        requires
            old(self).wf(),
            old(self).state().room(1),
        ensures
            final(self).wf(),
            final(self).state() == old(self).state().register(group_id@ as u64),
    {
        let key: u64 = group_id.get() as u64;
        let group = ShadowGroup {
            available: false,
            queued: Table::new(),
            in_flight: Table::new(),
        };
        let ghost shown = group.shows();
        assert(shown.in_flight =~= Set::<u64>::empty());
        if self.groups.peek(key).is_some() {
            self.invalid_turns = self.invalid_turns + 1;
        }
        self.groups.insert(key, group);
        if self.per_group.get(key).is_none() {
            self.per_group.insert(key, 0);
        }
        assert(self.state() =~= old(self).state().register(key)) by {
            assert(self.state().groups =~= old(self).state().groups.insert(key, shown));
        }
    }

    /// Observes that a group became available or not.
    pub fn set_available(&mut self, group_id: GroupId, available: bool)
        requires
            old(self).wf(),
            old(self).state().room(1),
        ensures
            final(self).wf(),
            final(self).state() == old(self).state().set_availability(group_id@ as u64, available),
    {
        let key: u64 = group_id.get() as u64;
        match self.groups.remove(key) {
            None => {
                self.invalid_turns = self.invalid_turns + 1;
                assert(self.groups@ =~= old(self).groups@);
            },
            Some(mut group) => {
                group.available = available;
                let ghost shown = group.shows();
                self.groups.insert(key, group);
                assert(self.state().groups =~= old(self).state().groups.insert(key, shown));
            },
        }
        assert(self.state() =~= old(self).state().set_availability(key, available));
    }

    /// Observes that a group left.
    pub fn remove_group(&mut self, group_id: GroupId)
        requires
            old(self).wf(),
            old(self).state().room(1),
        ensures
            final(self).wf(),
            final(self).state() == old(self).state().remove(group_id@ as u64),
    {
        let key: u64 = group_id.get() as u64;
        match self.groups.remove(key) {
            None => {
                self.invalid_turns = self.invalid_turns + 1;
                assert(self.groups@ =~= old(self).groups@);
            },
            Some(group) => {
                if group.is_waiting() || !group.is_idle() {
                    self.invalid_turns = self.invalid_turns + 1;
                }
                assert(self.state().groups =~= old(self).state().groups.remove(key));
            },
        }
        assert(self.state() =~= old(self).state().remove(key));
    }

    /// Observes that work was admitted.
    pub fn observe_admission(&mut self, group_id: GroupId, work_id: u64, class: WorkClass)
        requires
            old(self).wf(),
            old(self).state().room(1),
        ensures
            final(self).wf(),
            final(self).state() == old(self).state().queue(group_id@ as u64, work_id, class),
    {
        let key: u64 = group_id.get() as u64;
        match self.groups.remove(key) {
            None => {
                self.invalid_turns = self.invalid_turns + 1;
                assert(self.groups@ =~= old(self).groups@);
            },
            Some(mut group) => {
                let known = group.queued.get(work_id).is_some() || group.in_flight.get(
                    work_id,
                ).is_some();
                group.queued.insert(work_id, class);
                if known {
                    self.invalid_turns = self.invalid_turns + 1;
                }
                let ghost shown = group.shows();
                self.groups.insert(key, group);
                assert(self.state().groups =~= old(self).state().groups.insert(key, shown));
            },
        }
        assert(self.state() =~= old(self).state().queue(key, work_id, class));
    }

    /// Observes that waiting work was failed.
    pub fn observe_failed_queued(&mut self, group_id: GroupId, work_ids: &Vec<u64>)
        requires
            old(self).wf(),
            old(self).state().room(work_ids@.len() + 1),
        ensures
            final(self).wf(),
            final(self).state() == old(self).state().fail_queued(group_id@ as u64, work_ids@),
    {
        let key: u64 = group_id.get() as u64;
        match self.groups.remove(key) {
            None => {
                self.invalid_turns = self.invalid_turns + 1;
                assert(self.groups@ =~= old(self).groups@);
            },
            Some(mut group) => {
                let ghost start = group.shows();
                let ghost turns = self.invalid_turns;
                let mut invalid: u64 = self.invalid_turns;
                let mut i: usize = 0;
                assert(work_ids@.take(0) =~= Seq::empty());
                while i < work_ids.len()
                    invariant
                        i <= work_ids@.len(),
                        group.wf(),
                        group.shows() == start.fail_all(work_ids@.take(i as int)),
                        invalid == turns + start.not_waiting(work_ids@.take(i as int)),
                        invalid <= turns + i,
                        turns + work_ids@.len() <= u64::MAX,
                    decreases work_ids@.len() - i,
                {
                    let ghost more = work_ids@.take(i + 1);
                    assert(more.drop_last() =~= work_ids@.take(i as int));
                    if group.queued.remove(work_ids[i]).is_none() {
                        invalid = invalid + 1;
                    }
                    assert(group.shows() =~= start.fail_all(more));
                    i = i + 1;
                }
                assert(work_ids@.take(i as int) =~= work_ids@);
                self.invalid_turns = invalid;
                let ghost shown = group.shows();
                self.groups.insert(key, group);
                assert(self.state().groups =~= old(self).state().groups.insert(key, shown));
            },
        }
        assert(self.state() =~= old(self).state().fail_queued(key, work_ids@));
    }

    /// Observes that a turn ended.
    pub fn observe_dispatch_completion(
        &mut self,
        group_id: GroupId,
        work_ids: &Vec<u64>,
        poisoned: bool,
    )
        requires
            old(self).wf(),
            old(self).state().room(work_ids@.len() + 1),
        ensures
            final(self).wf(),
            final(self).state() == old(self).state().end_dispatch(
                group_id@ as u64,
                work_ids@,
                poisoned,
            ),
    {
        let key: u64 = group_id.get() as u64;
        match self.groups.remove(key) {
            None => {
                self.invalid_turns = self.invalid_turns + 1;
                assert(self.groups@ =~= old(self).groups@);
            },
            Some(mut group) => {
                let ghost start = group.shows();
                let ghost turns = self.invalid_turns;
                let mut invalid: u64 = self.invalid_turns;
                let mut i: usize = 0;
                assert(work_ids@.take(0) =~= Seq::empty());
                while i < work_ids.len()
                    invariant
                        i <= work_ids@.len(),
                        group.wf(),
                        group.shows() == start.end_all(work_ids@.take(i as int)),
                        invalid == turns + start.not_in_flight(work_ids@.take(i as int)),
                        invalid <= turns + i,
                        turns + work_ids@.len() <= u64::MAX,
                    decreases work_ids@.len() - i,
                {
                    let ghost more = work_ids@.take(i + 1);
                    assert(more.drop_last() =~= work_ids@.take(i as int));
                    if group.in_flight.remove(work_ids[i]).is_none() {
                        invalid = invalid + 1;
                    }
                    assert(group.shows() =~= start.end_all(more));
                    i = i + 1;
                }
                assert(work_ids@.take(i as int) =~= work_ids@);
                self.invalid_turns = invalid;
                if poisoned {
                    group.available = false;
                }
                let ghost shown = group.shows();
                self.groups.insert(key, group);
                assert(self.state().groups =~= old(self).state().groups.insert(key, shown));
            },
        }
        assert(self.state() =~= old(self).state().end_dispatch(key, work_ids@, poisoned));
    }

    /// Returns whether the plan is the one that the shadow expects.
    fn expects_plan(&self, groups: &Vec<GroupId>) -> (r: bool)
        requires
            self.wf(),
        ensures
            r == self.state().expects(groups@),
    {
        if self.open.is_some() || groups.len() == 0 {
            return false;
        }
        let mut k: usize = 0;
        let mut i: usize = 0;
        proof {
            self.groups.lemma_rows();
        }
        while i < self.groups.len()
            invariant
                self.wf(),
                i <= self.groups.count(),
                k <= groups@.len(),
                self.state().open is None,
                groups@.len() > 0,
                forall|a: int, b: int|
                    0 <= a < b < self.groups.count() ==> #[trigger] self.groups.key(a)
                        < #[trigger] self.groups.key(b),
                forall|key: u64| #[trigger]
                    self.groups@.contains_key(key) ==> exists|j: int|
                        0 <= j < self.groups.count() && self.groups.key(j) == key,
                forall|a: int, b: int|
                    0 <= a < b < k ==> #[trigger] groups@[a]@ < #[trigger] groups@[b]@,
                forall|a: int, j: int|
                    0 <= a < k && i <= j < self.groups.count() ==> (#[trigger] groups@[a]@)
                        < #[trigger] self.groups.key(j),
                forall|a: int|
                    0 <= a < k ==> self.state().is_ready((#[trigger] groups@[a])@ as u64),
                forall|j: int|
                    0 <= j < i && self.state().is_ready(#[trigger] self.groups.key(j)) ==> exists|
                        a: int,
                    |
                        0 <= a < k && #[trigger] groups@[a]@ == self.groups.key(j),
            decreases self.groups.count() - i,
        {
            let row = self.groups.row_ref(i);
            let group = row.value;
            let ghost key = self.groups.key(i as int);
            assert(self.state().groups.contains_key(key) && self.state().groups[key]
                == group.shows());
            if group.available && group.is_idle() && group.is_waiting() {
                assert(self.state().is_ready(key));
                if k == groups.len() || groups[k].get() as u64 != row.key {
                    proof {
                        self.lemma_misplaced(groups@, k as int, i as int);
                    }
                    return false;
                }
                k = k + 1;
            } else {
                assert(!self.state().is_ready(key));
            }
            i = i + 1;
        }
        proof {
            if k == groups@.len() {
                assert forall|group: u64| #[trigger] names(groups@, group)
                    <==> self.state().is_ready(group) by {
                    if names(groups@, group) {
                        let a = choose|a: int| 0 <= a < groups@.len() && groups@[a]@ == group;
                        assert(self.state().is_ready(groups@[a]@ as u64));
                    }
                    if self.state().is_ready(group) {
                        assert(self.groups@.contains_key(group));
                        let j = choose|j: int|
                            0 <= j < self.groups.count() && self.groups.key(j) == group;
                        assert(self.state().is_ready(self.groups.key(j)));
                    }
                }
            } else if self.state().expects(groups@) {
                let extra = groups@[k as int]@ as u64;
                assert(names(groups@, extra));
                assert(self.groups@.contains_key(extra));
                let j = choose|j: int| 0 <= j < self.groups.count() && self.groups.key(j) == extra;
                assert(self.state().is_ready(self.groups.key(j)));
                let a = choose|a: int|
                    0 <= a < k && #[trigger] groups@[a]@ == self.groups.key(j);
                assert(groups@[a]@ < groups@[k as int]@);
            }
        }
        k == groups.len()
    }

    /// A plan that does not name the next ready group next is not the expected one.
    proof fn lemma_misplaced(self, groups: Seq<GroupId>, k: int, i: int)
        requires
            self.wf(),
            0 <= k <= groups.len(),
            0 <= i < self.groups.count(),
            self.state().is_ready(self.groups.key(i)),
            k == groups.len() || groups[k]@ != self.groups.key(i),
            forall|a: int, b: int|
                0 <= a < b < self.groups.count() ==> #[trigger] self.groups.key(a)
                    < #[trigger] self.groups.key(b),
            forall|key: u64| #[trigger]
                self.groups@.contains_key(key) ==> exists|j: int|
                    0 <= j < self.groups.count() && self.groups.key(j) == key,
            forall|a: int, j: int|
                0 <= a < k && i <= j < self.groups.count() ==> (#[trigger] groups[a]@)
                    < #[trigger] self.groups.key(j),
            forall|j: int|
                0 <= j < i && self.state().is_ready(#[trigger] self.groups.key(j)) ==> exists|
                    a: int,
                |
                    0 <= a < k && #[trigger] groups[a]@ == self.groups.key(j),
        ensures
            !self.state().expects(groups),
    {
        if self.state().expects(groups) {
        let key = self.groups.key(i);
        assert(names(groups, key));
        let at = choose|a: int| 0 <= a < groups.len() && #[trigger] groups[a]@ == key;
        if at < k {
            assert(groups[at]@ < self.groups.key(i));
        }
        assert(at > k);
        assert(groups[k]@ < groups[at]@);
        let early = groups[k]@ as u64;
        assert(names(groups, early));
        assert(self.groups@.contains_key(early));
        let j = choose|j: int| 0 <= j < self.groups.count() && self.groups.key(j) == early;
        if j >= i {
            if j > i {
                assert(self.groups.key(i) < self.groups.key(j));
            }
            assert(false);
        }
        assert(self.state().is_ready(self.groups.key(j)));
        let a = choose|a: int| 0 <= a < k && #[trigger] groups[a]@ == self.groups.key(j);
        assert(groups[a]@ < groups[k]@);
        }
    }

    /// Observes that a plan was armed.
    pub fn observe_plan(&mut self, pass_id: u64, groups: &Vec<GroupId>)
        requires
            old(self).wf(),
            old(self).state().room(1),
        ensures
            final(self).wf(),
            final(self).state() == old(self).state().plan(pass_id, groups@),
    {
        let expected = self.expects_plan(groups);
        self.plans = self.plans + 1;
        if !expected {
            self.invalid_plans = self.invalid_plans + 1;
        }
        let mut digest: u64 = mix(self.plan_digest, pass_id);
        let ghost start = digest;
        let ghost counts = self.per_group@;
        let mut planned: Table<()> = Table::new();
        let mut i: usize = 0;
        assert(groups@.take(0) =~= Seq::empty());
        while i < groups.len()
            invariant
                i <= groups@.len(),
                planned.wf(),
                self.per_group.wf(),
                digest == mixed_groups(start, groups@.take(i as int)),
                forall|key: u64| #[trigger]
                    planned@.dom().contains(key) <==> names(groups@.take(i as int), key),
                forall|key: u64| #[trigger]
                    self.per_group@.contains_key(key) <==> counts.contains_key(key) || names(
                        groups@.take(i as int),
                        key,
                    ),
                forall|key: u64| #[trigger]
                    self.per_group@.contains_key(key) ==> self.per_group@[key]
                        == if counts.contains_key(key) {
                        counts[key]
                    } else {
                        0u64
                    },
                self.plans == old(self).plans + 1,
                self.opportunities == old(self).opportunities,
                self.passes_completed == old(self).passes_completed,
                self.certified_passes == old(self).certified_passes,
                self.invalid_plans == old(self).invalid_plans + if expected {
                    0int
                } else {
                    1int
                },
                self.invalid_turns == old(self).invalid_turns,
                self.plan_digest == old(self).plan_digest,
                self.turn_digest == old(self).turn_digest,
                self.groups == old(self).groups,
            decreases groups@.len() - i,
        {
            let key: u64 = groups[i].get() as u64;
            let ghost more = groups@.take(i + 1);
            let ghost before = groups@.take(i as int);
            digest = mix(digest, key);
            planned.insert(key, ());
            if self.per_group.get(key).is_none() {
                self.per_group.insert(key, 0);
            }
            proof {
                assert(more.drop_last() =~= before);
                assert forall|other: u64| #[trigger] names(more, other) <==> names(before, other)
                    || other == key by {
                    if names(more, other) {
                        let a = choose|a: int| 0 <= a < more.len() && #[trigger] more[a]@ == other;
                        if a < i {
                            assert(before[a] == more[a]);
                        }
                    }
                    if names(before, other) {
                        let a = choose|a: int|
                            0 <= a < before.len() && #[trigger] before[a]@ == other;
                        assert(more[a] == before[a]);
                    }
                    if other == key {
                        assert(more[i as int]@ == key);
                    }
                }
            }
            i = i + 1;
        }
        assert(groups@.take(i as int) =~= groups@);
        self.plan_digest = digest;
        self.open = Some(
            OpenPass { pass_id, planned, terminal: Table::new(), dispatched: 0, skipped: 0 },
        );
        proof {
            let wanted = old(self).state().plan(pass_id, groups@);
            assert(self.state().per_group =~= wanted.per_group);
            let shown = self.state().open->0;
            assert(shown.planned =~= wanted.open->0.planned);
            assert(shown.terminal =~= Set::<u64>::empty());
            assert(self.state() =~= wanted);
        }
    }

    fn observe_terminal(&mut self, pass_id: u64, key: u64, dispatched: bool)
        requires
            old(self).wf(),
            old(self).state().room(1),
        ensures
            final(self).wf(),
            final(self).state() == old(self).state().terminal(pass_id, key, dispatched),
            final(self).opportunities == old(self).opportunities + 1,
            final(self).per_group == old(self).per_group,
    {
        self.opportunities = self.opportunities + 1;
        self.turn_digest = mix(mix(self.turn_digest, pass_id), key);
        match self.open.take() {
            None => {
                self.invalid_turns = self.invalid_turns + 1;
            },
            Some(mut open) => {
                if open.pass_id != pass_id || open.planned.get(key).is_none()
                    || open.terminal.get(key).is_some() {
                    self.invalid_turns = self.invalid_turns + 1;
                } else {
                    let ghost before = open.shows();
                    open.terminal.insert(key, ());
                    let used: usize = open.terminal.len();
                    assert(open.dispatched + open.skipped + 1 == used);
                    assert(open.shows().terminal =~= before.terminal.insert(key));
                    if dispatched {
                        open.dispatched = open.dispatched + 1;
                    } else {
                        open.skipped = open.skipped + 1;
                    }
                }
                self.open = Some(open);
            },
        }
        assert(self.state() =~= old(self).state().terminal(pass_id, key, dispatched));
    }

    /// Observes that a planned group was skipped.
    pub fn observe_skip(&mut self, pass_id: u64, group_id: GroupId, reason: SkipReason)
        requires
            old(self).wf(),
            old(self).state().room(2),
        ensures
            final(self).wf(),
            final(self).state() == old(self).state().skip(pass_id, group_id@ as u64, reason),
    {
        let key: u64 = group_id.get() as u64;
        let expected = match self.groups.peek(key) {
            None => SkipReason::Unavailable,
            Some(group) => {
                assert(self.state().groups[key] == group.shows());
                if !group.available {
                    SkipReason::Unavailable
                } else if !group.is_idle() {
                    SkipReason::InFlight
                } else {
                    SkipReason::Empty
                }
            },
        };
        if reason != expected {
            self.invalid_turns = self.invalid_turns + 1;
            assert(self.state() =~= old(self).state().blame(1));
        }
        self.observe_terminal(pass_id, key, false);
        let code: u64 = match reason {
            SkipReason::Unavailable => 11,
            SkipReason::InFlight => 12,
            SkipReason::Empty => 13,
        };
        self.turn_digest = mix(self.turn_digest, code);
        assert(self.state() =~= old(self).state().skip(pass_id, key, reason));
    }

    /// Observes that a turn was dispatched.
    pub fn observe_dispatch(&mut self, dispatch: &ObservedDispatch)
        requires
            old(self).wf(),
            old(self).state().room(dispatch.items@.len() + 4),
        ensures
            final(self).wf(),
            final(self).state() == old(self).state().dispatch(*dispatch),
    {
        let key: u64 = dispatch.group_id.get() as u64;
        let ordered = in_order(&dispatch.items);
        if !ordered {
            self.invalid_turns = self.invalid_turns + 1;
        }
        let ghost judged = self.state();
        assert(judged =~= if ordered {
            old(self).state()
        } else {
            old(self).state().blame(1)
        });
        match self.groups.remove(key) {
            None => {
                self.invalid_turns = self.invalid_turns + 1;
                assert(self.groups@ =~= old(self).groups@);
                assert(self.state() =~= judged.blame(1));
                self.observe_terminal(dispatch.pass_id, key, true);
            },
            Some(group) => {
                let mut group = group;
                let ghost view = group.shows();
                assert(old(self).state().groups[key] == view);
                let expected = group.available && group.is_idle() && dispatch.items.len() > 0;
                let invalid: u64 = Self::settle_items(&mut group, &dispatch.items, self.invalid_turns);
                self.invalid_turns = if expected {
                    invalid
                } else {
                    invalid + 1
                };
                let ghost shown = group.shows();
                self.groups.insert(key, group);
                let ghost blamed = view.contradictions(dispatch.items@) + if expected {
                    0nat
                } else {
                    1nat
                };
                assert(self.state().groups =~= old(self).state().groups.insert(key, shown));
                assert(self.state() =~= judged.with(key, shown).blame(blamed));
                self.observe_terminal(dispatch.pass_id, key, true);
                let ghost turned = self.state();
                self.turn_digest = mix_items(
                    mix(self.turn_digest, dispatch.dispatch_id),
                    &dispatch.items,
                );
                let count: u64 = match self.per_group.get(key) {
                    Some(count) => count,
                    None => 0,
                };
                self.per_group.insert(key, count + 1);
                assert(self.state() =~= (AuditState {
                    turn_digest: self.turn_digest,
                    per_group: turned.per_group.insert(key, (count + 1) as u64),
                    ..turned
                }));
            },
        }
        assert(self.state() =~= old(self).state().dispatch(*dispatch));
    }

    fn settle_items(group: &mut ShadowGroup, items: &Vec<DispatchedItem>, turns: u64) -> (r: u64)
        requires
            old(group).wf(),
            turns + items@.len() <= u64::MAX,
        ensures
            final(group).wf(),
            final(group).shows() == old(group).shows().dispatch_all(items@),
            r == turns + old(group).shows().contradictions(items@),
            r <= turns + items@.len(),
    {
        let ghost start = group.shows();
        let mut invalid: u64 = turns;
        let mut i: usize = 0;
        assert(items@.take(0) =~= Seq::empty());
        while i < items.len()
            invariant
                i <= items@.len(),
                group.wf(),
                group.shows() == start.dispatch_all(items@.take(i as int)),
                invalid == turns + start.contradictions(items@.take(i as int)),
                invalid <= turns + i,
                turns + items@.len() <= u64::MAX,
            decreases items@.len() - i,
        {
            let item = items[i];
            let ghost more = items@.take(i + 1);
            let ghost before = group.shows();
            assert(more.drop_last() =~= items@.take(i as int));
            let waited = match group.queued.remove(item.work_id) {
                Some(class) => class == item.class,
                None => false,
            };
            if !waited {
                invalid = invalid + 1;
            } else {
                if group.in_flight.get(item.work_id).is_some() {
                    invalid = invalid + 1;
                }
                group.in_flight.insert(item.work_id, ());
                assert(group.shows().in_flight =~= before.in_flight.insert(item.work_id));
            }
            assert(group.shows() =~= before.dispatch(item));
            i = i + 1;
        }
        assert(items@.take(i as int) =~= items@);
        invalid
    }

    /// Observes that a pass ended.
    pub fn observe_completion(&mut self, completion: ObservedCompletion)
        requires
            old(self).wf(),
            old(self).state().room(1),
        ensures
            final(self).wf(),
            final(self).state() == old(self).state().complete(completion),
    {
        self.passes_completed = self.passes_completed + 1;
        match self.open.take() {
            None => {
                self.invalid_plans = self.invalid_plans + 1;
            },
            Some(open) => {
                proof {
                    lemma_key_count(open.planned);
                }
                let valid = open.pass_id == completion.pass_id && open.planned.len()
                    == completion.planned && same_keys(&open.terminal, &open.planned)
                    && open.dispatched == completion.dispatched && open.skipped
                    == completion.skipped && completion.dispatched <= completion.planned
                    && completion.planned - completion.dispatched == completion.skipped;
                if valid {
                    self.certified_passes = self.certified_passes + 1;
                } else {
                    self.invalid_plans = self.invalid_plans + 1;
                }
            },
        }
        assert(self.state() =~= old(self).state().complete(completion));
    }
}

fn mix_items(digest: u64, items: &Vec<DispatchedItem>) -> (r: u64)
    ensures
        r == mixed_items(digest, items@),
{
    let mut value: u64 = digest;
    let mut i: usize = 0;
    assert(items@.take(0) =~= Seq::empty());
    while i < items.len()
        invariant
            i <= items@.len(),
            value == mixed_items(digest, items@.take(i as int)),
        decreases items@.len() - i,
    {
        let ghost more = items@.take(i + 1);
        assert(more.drop_last() =~= items@.take(i as int));
        let code: u64 = match items[i].class {
            WorkClass::Control => 1,
            WorkClass::Command => 2,
            WorkClass::Snapshot => 3,
            WorkClass::Bulk => 4,
        };
        value = mix(mix(value, items[i].work_id), code);
        i = i + 1;
    }
    assert(items@.take(i as int) =~= items@);
    value
}

fn in_order(items: &Vec<DispatchedItem>) -> (r: bool)
    ensures
        r == classes_in_order(items@),
{
    if items.len() == 0 {
        return true;
    }
    let mut i: usize = 1;
    while i < items.len()
        invariant
            1 <= i <= items@.len(),
            forall|a: int, b: int|
                0 <= a < b < i ==> (#[trigger] items@[a]).class.rank() <= (
                #[trigger] items@[b]).class.rank(),
        decreases items@.len() - i,
    {
        if items[i - 1].class.rank() > items[i].class.rank() {
            assert(items@[i - 1].class.rank() > items@[i as int].class.rank());
            return false;
        }
        i = i + 1;
    }
    true
}

/// Keys of the first rows whose count is not zero.
spec fn covered_keys(rows: Seq<Row<u64>>, n: int) -> Set<u64> {
    Set::new(|key: u64| exists|i: int| #[trigger] covers(rows, n, key, i))
}

spec fn covers(rows: Seq<Row<u64>>, n: int, key: u64, i: int) -> bool {
    0 <= i < n && rows[i].key == key && rows[i].value != 0
}

impl Audit {
    /// Returns how many groups had a turn, and the widest difference between the turns of two of
    /// them.
    pub fn fairness(&self) -> (r: (usize, u64))
        requires
            self.wf(),
        ensures
            self.state().covered().finite(),
            r.0 == self.state().covered().len(),
            self.state().is_widest_gap(r.1),
    {
        let ghost rows = self.per_group.all();
        let mut coverage: usize = 0;
        let mut most: u64 = 0;
        let mut least: u64 = 0;
        let mut i: usize = 0;
        let ghost mut top: u64 = 0;
        let ghost mut bottom: u64 = 0;
        assert(covered_keys(rows, 0) =~= Set::<u64>::empty());
        while i < self.per_group.len()
            invariant
                self.per_group.wf(),
                rows == self.per_group.all(),
                i <= rows.len(),
                coverage <= i,
                covered_keys(rows, i as int).finite(),
                covered_keys(rows, i as int).len() == coverage,
                coverage > 0 ==> {
                    &&& self.per_group@.contains_key(top) && self.per_group@[top] == most
                    &&& self.per_group@.contains_key(bottom) && self.per_group@[bottom] == least
                    &&& 0 < least <= most
                },
                forall|k: int|
                    0 <= k < i && (#[trigger] rows[k]).value != 0 ==> least <= rows[k].value <= most
                        && coverage > 0,
            decreases rows.len() - i,
        {
            let (key, count) = self.per_group.row(i);
            let ghost next = i + 1;
            let ghost before = covered_keys(rows, i as int);
            let ghost after = covered_keys(rows, next);
            proof {
                assert forall|other: u64| #[trigger] after.contains(other) <==> before.contains(
                    other,
                ) || (other == key && count != 0) by {
                    if after.contains(other) {
                        let k = choose|k: int| covers(rows, next, other, k);
                        assert(covers(rows, i + 1, other, k));
                        if k < i {
                            assert(covers(rows, i as int, other, k));
                        }
                    }
                    if before.contains(other) {
                        let k = choose|k: int| covers(rows, i as int, other, k);
                        assert(covers(rows, i as int, other, k));
                        assert(covers(rows, i + 1, other, k));
                    }
                    if other == key && count != 0 {
                        assert(covers(rows, i + 1, other, i as int));
                    }
                }
                if before.contains(key) {
                    let k = choose|k: int| covers(rows, i as int, key, k);
                    assert(covers(rows, i as int, key, k));
                    assert(rows[k].key < rows[i as int].key);
                }
            }
            if count != 0 {
                if coverage == 0 || count > most {
                    most = count;
                    proof {
                        top = key;
                    }
                }
                if coverage == 0 || count < least {
                    least = count;
                    proof {
                        bottom = key;
                    }
                }
                coverage = coverage + 1;
                assert(after =~= before.insert(key));
            } else {
                assert(after =~= before);
            }
            i = i + 1;
        }
        proof {
            let state = self.state();
            assert(state.covered() =~= covered_keys(rows, i as int)) by {
                assert forall|key: u64| #[trigger] state.covered().contains(key) <==> covered_keys(
                    rows,
                    i as int,
                ).contains(key) by {
                    if state.covered().contains(key) {
                        self.per_group.lemma_rows();
                        let k = choose|k: int|
                            0 <= k < self.per_group.count() && self.per_group.key(k) == key;
                        lemma_row(rows, k);
                        assert(covers(rows, i as int, key, k));
                    }
                    if covered_keys(rows, i as int).contains(key) {
                        let k = choose|k: int| covers(rows, i as int, key, k);
                        assert(covers(rows, i as int, key, k));
                        lemma_row(rows, k);
                    }
                }
            }
            if coverage > 0 {
                assert forall|key: u64| #[trigger] state.covered().contains(key) implies least
                    <= state.per_group[key] <= most by {
                    let k = choose|k: int| covers(rows, i as int, key, k);
                    assert(covers(rows, i as int, key, k));
                    lemma_row(rows, k);
                    assert(rows[k].value != 0);
                }
                assert(state.spans(top, bottom));
                assert(state.covered().contains(top));
            } else {
                assert(state.covered() =~= Set::<u64>::empty());
            }
        }
        if coverage == 0 {
            (0, 0)
        } else {
            (coverage, most - least)
        }
    }
}

/// A plan cannot certify by omitting a group that the shadow shows to be ready, nor by naming one
/// that it does not.
pub proof fn law_plan_must_name_the_ready_groups(
    state: AuditState,
    pass: u64,
    groups: Seq<GroupId>,
    group: u64,
)
    requires
        state.is_ready(group) != names(groups, group),
    ensures
        state.plan(pass, groups).invalid_plans == state.invalid_plans + 1,
{
    if state.expects(groups) {
        assert(names(groups, group) <==> state.is_ready(group));
    }
}

/// A plan of exactly the ready groups, in order and with no pass open, is valid.
pub proof fn law_ready_groups_are_a_valid_plan(state: AuditState, pass: u64, groups: Seq<GroupId>)
    requires
        state.open is None,
        groups.len() > 0,
        ascending(groups),
        forall|group: u64| #[trigger] names(groups, group) <==> state.is_ready(group),
    ensures
        state.plan(pass, groups).invalid_plans == state.invalid_plans,
{
}

/// A pass is certified only after every planned group used its opportunity, each exactly once.
pub proof fn law_certified_pass_used_every_opportunity(
    state: AuditState,
    completion: ObservedCompletion,
)
    requires
        state.complete(completion).certified_passes != state.certified_passes,
    ensures
        state.open is Some,
        state.open->0.terminal == state.open->0.planned,
        state.open->0.dispatched + state.open->0.skipped == state.open->0.planned.len(),
{
}

/// A second use of one opportunity is blamed, and does not count as another turn of the pass.
pub proof fn law_opportunity_is_used_once(state: AuditState, pass: u64, group: u64, dispatched: bool)
    requires
        state.open is Some,
        state.open->0.terminal.contains(group),
    ensures
        state.terminal(pass, group, dispatched).open == state.open,
        state.terminal(pass, group, dispatched).invalid_turns == state.invalid_turns + 1,
{
}

/// Admitted work that is dispatched in its class and ends leaves the shadow as it was, without
/// blame.
pub proof fn law_admitted_work_is_accounted_for(
    state: AuditState,
    group: u64,
    work: u64,
    class: WorkClass,
)
    requires
        state.groups.contains_key(group),
        !state.groups[group].queued.contains_key(work),
        !state.groups[group].in_flight.contains(work),
    ensures
        ({
            let item = DispatchedItem { work_id: work, class };
            let queued = state.queue(group, work, class).groups[group];
            let ended = queued.dispatch(item).end_all(seq![work]);
            &&& state.queue(group, work, class).invalid_turns == state.invalid_turns
            &&& !queued.contradicts(item)
            &&& queued.dispatch(item).not_in_flight(seq![work]) == 0
            &&& ended == state.groups[group]
        }),
{
    let item = DispatchedItem { work_id: work, class };
    let view = state.groups[group];
    let queued = state.queue(group, work, class).groups[group];
    let flying = queued.dispatch(item);
    let ended = seq![work];
    assert(ended.drop_last() =~= Seq::<u64>::empty());
    reveal_with_fuel(ShadowView::end_all, 2);
    reveal_with_fuel(ShadowView::not_in_flight, 2);
    assert(flying.end_all(ended.drop_last()) == flying);
    assert(flying.end_all(ended).queued =~= view.queued);
    assert(flying.end_all(ended).in_flight =~= view.in_flight);
    assert(flying.end_all(ended) =~= view);
}

} // verus!
