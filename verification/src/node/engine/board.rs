//! Work that the managed host holds for the node: what each item is for, which groups tick, are
//! poisoned or slow, and which dispatches wait.

use vstd::prelude::*;

use crate::table::{lemma_key_count, Table};
use crate::types::{GroupId, WorkClass};

verus! {

/// Longest delay that can be asked for, in milliseconds.
pub const MAX_SLOW_DELAY_MS: u64 = 30_000;

/// What an item of admitted work is for.
#[derive(Clone, Copy, Debug, Eq, PartialEq, Structural)]
pub enum WorkKind {
    /// A tick.
    Tick,
    /// A peer frame.
    Peer,
    /// Pressure.
    Pressure,
    /// A proposal.
    Proposal {
        /// The proposal.
        id: u64,
    },
    /// A snapshot that a client asked for.
    Snapshot {
        /// Where its answer goes.
        reply: u64,
    },
}

/// How an item of a dispatch ended.
#[derive(Clone, Copy, Debug, Eq, PartialEq, Structural)]
pub enum ItemOutcome {
    /// The group reported.
    Reported,
    /// The application could not make its state durable.
    DurabilityFailed,
    /// The group is poisoned.
    Poisoned,
    /// Any other failure.
    Failed,
}

/// What an item's client is owed.
#[derive(Clone, Copy, Debug, Eq, PartialEq, Structural)]
pub enum ItemClient {
    /// Nothing.
    Nothing,
    /// The group is compacted, and the client told how that went.
    Compact {
        /// Where the answer goes.
        reply: u64,
    },
    /// The snapshot failed.
    SnapshotFailed {
        /// Where the answer goes.
        reply: u64,
    },
    /// The outcome of the proposal is unknown.
    Unknown {
        /// The proposal.
        id: u64,
    },
    /// The proposal was dispatched by a group that is poisoned now.
    Poisoned {
        /// The proposal.
        id: u64,
    },
}

/// What the process does about an item that ended.
#[derive(Clone, Copy, Debug, Eq, PartialEq, Structural)]
pub struct ItemStep {
    /// The process stops: nothing after this can be trusted to be durable.
    pub stop: bool,
    /// The report is routed.
    pub collect: bool,
    /// The poison is recorded.
    pub poison: bool,
    /// What the client is owed.
    pub client: ItemClient,
}

/// What the client of failed queued work is owed.
#[derive(Clone, Copy, Debug, Eq, PartialEq, Structural)]
pub enum RetiredClient {
    /// Nothing.
    Nothing,
    /// The proposal was not committed.
    NotCommitted {
        /// The proposal.
        id: u64,
    },
    /// The snapshot failed.
    SnapshotFailed {
        /// Where the answer goes.
        reply: u64,
    },
}

/// Work on hand.
#[derive(Debug)]
pub struct Board {
    work: Table<WorkKind>,
    ticking: Table<()>,
    poisoned: Table<()>,
    slow: Table<u64>,
    delayed: Table<u64>,
}

/// Everything that the board holds.
#[verifier::ext_equal]
pub struct BoardState {
    /// What each item is for.
    pub work: Map<u64, WorkKind>,
    /// Groups with a queued tick.
    pub ticking: Set<u64>,
    /// Groups poisoned since the process started.
    pub poisoned: Set<u64>,
    /// Delay of a group's turns, in milliseconds.
    pub slow: Map<u64, u64>,
    /// When a delayed dispatch is executed.
    pub delayed: Map<u64, u64>,
}

/// What the process does about an item that was for `kind` and ended so.
pub open spec fn item_step(kind: Option<WorkKind>, outcome: ItemOutcome) -> ItemStep {
    ItemStep {
        stop: outcome == ItemOutcome::DurabilityFailed,
        collect: outcome == ItemOutcome::Reported,
        poison: outcome == ItemOutcome::Poisoned,
        client: match (kind, outcome) {
            (_, ItemOutcome::DurabilityFailed) => ItemClient::Nothing,
            (Some(WorkKind::Snapshot { reply }), ItemOutcome::Reported) => ItemClient::Compact {
                reply,
            },
            (Some(WorkKind::Snapshot { reply }), _) => ItemClient::SnapshotFailed { reply },
            (Some(WorkKind::Proposal { id }), ItemOutcome::Poisoned) => ItemClient::Poisoned { id },
            (Some(WorkKind::Proposal { id }), ItemOutcome::Failed) => ItemClient::Unknown { id },
            _ => ItemClient::Nothing,
        },
    }
}

/// What the client of failed queued work is owed.
pub open spec fn retired_client(kind: Option<WorkKind>) -> RetiredClient {
    match kind {
        Some(WorkKind::Proposal { id }) => RetiredClient::NotCommitted { id },
        Some(WorkKind::Snapshot { reply }) => RetiredClient::SnapshotFailed { reply },
        _ => RetiredClient::Nothing,
    }
}

impl BoardState {
    /// The board before anything happened.
    pub open spec fn empty() -> Self {
        BoardState {
            work: Map::empty(),
            ticking: Set::empty(),
            poisoned: Set::empty(),
            slow: Map::empty(),
            delayed: Map::empty(),
        }
    }

    /// What an item is for.
    pub open spec fn kind(self, work_id: u64) -> Option<WorkKind> {
        if self.work.contains_key(work_id) {
            Some(self.work[work_id])
        } else {
            None
        }
    }

    /// An item was admitted for a group.
    pub open spec fn record(self, group: u64, work_id: u64, kind: WorkKind) -> BoardState {
        BoardState {
            work: self.work.insert(work_id, kind),
            ticking: if kind == WorkKind::Tick {
                self.ticking.insert(group)
            } else {
                self.ticking
            },
            ..self
        }
    }

    /// An item left the host.
    pub open spec fn take(self, group: u64, work_id: u64) -> BoardState {
        BoardState {
            work: self.work.remove(work_id),
            ticking: if self.kind(work_id) == Some(WorkKind::Tick) {
                self.ticking.remove(group)
            } else {
                self.ticking
            },
            ..self
        }
    }

    /// Nothing of a removed group is kept.
    pub open spec fn forget(self, group: u64) -> BoardState {
        BoardState {
            ticking: self.ticking.remove(group),
            poisoned: self.poisoned.remove(group),
            slow: self.slow.remove(group),
            ..self
        }
    }

    /// A group was made slow, or not.
    pub open spec fn set_slow(self, group: u64, milliseconds: u64) -> BoardState {
        BoardState {
            slow: if milliseconds == 0 {
                self.slow.remove(group)
            } else {
                self.slow.insert(group, milliseconds)
            },
            ..self
        }
    }

    /// Delay of a dispatch: control traffic alone is never delayed.
    pub open spec fn delay_of(self, group: u64, classes: Seq<WorkClass>) -> Option<u64> {
        if self.slow.contains_key(group) && exists|i: int|
            0 <= i < classes.len() && #[trigger] classes[i] != WorkClass::Control {
            Some(self.slow[group])
        } else {
            None
        }
    }

    /// The dispatch is due.
    pub open spec fn due(self, now: u64, dispatch: u64) -> bool {
        self.delayed.contains_key(dispatch) && self.delayed[dispatch] <= now
    }

    /// The dispatches that are due are taken.
    pub open spec fn release(self, now: u64) -> BoardState {
        BoardState {
            delayed: Map::new(
                |dispatch: u64| self.delayed.contains_key(dispatch) && !self.due(now, dispatch),
                |dispatch: u64| self.delayed[dispatch],
            ),
            ..self
        }
    }
}

impl Board {
    /// Everything that the board holds.
    pub closed spec fn state(self) -> BoardState {
        BoardState {
            work: self.work@,
            ticking: self.ticking@.dom(),
            poisoned: self.poisoned@.dom(),
            slow: self.slow@,
            delayed: self.delayed@,
        }
    }

    /// The tables are in order, and no delay is over its limit.
    pub closed spec fn wf(self) -> bool {
        &&& self.work.wf()
        &&& self.ticking.wf()
        &&& self.poisoned.wf()
        &&& self.slow.wf()
        &&& self.delayed.wf()
        &&& forall|group: u64| #[trigger]
            self.slow@.contains_key(group) ==> self.slow@[group] <= MAX_SLOW_DELAY_MS
    }

    /// Creates an empty board.
    pub fn new() -> (r: Self)
        ensures
            r.wf(),
            r.state() == BoardState::empty(),
    {
        let board = Self {
            work: Table::new(),
            ticking: Table::new(),
            poisoned: Table::new(),
            slow: Table::new(),
            delayed: Table::new(),
        };
        assert(board.state().ticking =~= Set::<u64>::empty());
        assert(board.state().poisoned =~= Set::<u64>::empty());
        board
    }

    /// Records what an admitted item is for.
    pub fn record_work(&mut self, group_id: GroupId, work_id: u64, kind: WorkKind)
        requires
            old(self).wf(),
        ensures
            final(self).wf(),
            final(self).state() == old(self).state().record(group_id@ as u64, work_id, kind),
    {
        self.work.insert(work_id, kind);
        if kind == WorkKind::Tick {
            self.ticking.insert(group_id.get() as u64, ());
        }
        assert(self.state() =~= old(self).state().record(group_id@ as u64, work_id, kind));
    }

    fn take_work(&mut self, group_id: GroupId, work_id: u64) -> (r: Option<WorkKind>)
        requires
            old(self).wf(),
        ensures
            final(self).wf(),
            final(self).state() == old(self).state().take(group_id@ as u64, work_id),
            r == old(self).state().kind(work_id),
    {
        let kind = self.work.remove(work_id);
        if let Some(WorkKind::Tick) = kind {
            self.ticking.remove(group_id.get() as u64);
        }
        assert(self.state() =~= old(self).state().take(group_id@ as u64, work_id));
        kind
    }

    /// Returns the proposal that an item is for.
    pub fn proposal_of(&self, work_id: u64) -> (r: Option<u64>)
        requires
            self.wf(),
        ensures
            r == match self.state().kind(work_id) {
                Some(WorkKind::Proposal { id }) => Some(id),
                _ => None,
            },
    {
        match self.work.get(work_id) {
            Some(WorkKind::Proposal { id }) => Some(id),
            _ => None,
        }
    }

    /// Decides what the process does about an item of a dispatch that ended.
    pub fn settle_item(&mut self, group_id: GroupId, work_id: u64, outcome: ItemOutcome) -> (r:
        ItemStep)
        requires
            old(self).wf(),
        ensures
            final(self).wf(),
            final(self).state() == old(self).state().take(group_id@ as u64, work_id),
            r == item_step(old(self).state().kind(work_id), outcome),
    {
        let kind = self.take_work(group_id, work_id);
        let client = match outcome {
            ItemOutcome::DurabilityFailed => ItemClient::Nothing,
            ItemOutcome::Reported => match kind {
                Some(WorkKind::Snapshot { reply }) => ItemClient::Compact { reply },
                _ => ItemClient::Nothing,
            },
            ItemOutcome::Poisoned => match kind {
                Some(WorkKind::Proposal { id }) => ItemClient::Poisoned { id },
                Some(WorkKind::Snapshot { reply }) => ItemClient::SnapshotFailed { reply },
                _ => ItemClient::Nothing,
            },
            ItemOutcome::Failed => match kind {
                Some(WorkKind::Proposal { id }) => ItemClient::Unknown { id },
                Some(WorkKind::Snapshot { reply }) => ItemClient::SnapshotFailed { reply },
                _ => ItemClient::Nothing,
            },
        };
        ItemStep {
            stop: outcome == ItemOutcome::DurabilityFailed,
            collect: outcome == ItemOutcome::Reported,
            poison: outcome == ItemOutcome::Poisoned,
            client,
        }
    }

    /// Decides what the client of failed queued work is owed.
    pub fn retire_item(&mut self, group_id: GroupId, work_id: u64) -> (r: RetiredClient)
        requires
            old(self).wf(),
        ensures
            final(self).wf(),
            final(self).state() == old(self).state().take(group_id@ as u64, work_id),
            r == retired_client(old(self).state().kind(work_id)),
    {
        match self.take_work(group_id, work_id) {
            Some(WorkKind::Proposal { id }) => RetiredClient::NotCommitted { id },
            Some(WorkKind::Snapshot { reply }) => RetiredClient::SnapshotFailed { reply },
            _ => RetiredClient::Nothing,
        }
    }

    /// Returns whether a tick of the group is queued.
    pub fn is_ticking(&self, group_id: GroupId) -> (r: bool)
        requires
            self.wf(),
        ensures
            r == self.state().ticking.contains(group_id@ as u64),
    {
        self.ticking.get(group_id.get() as u64).is_some()
    }

    /// Returns whether the group was poisoned since the process started.
    pub fn is_poisoned(&self, group_id: GroupId) -> (r: bool)
        requires
            self.wf(),
        ensures
            r == self.state().poisoned.contains(group_id@ as u64),
    {
        self.poisoned.get(group_id.get() as u64).is_some()
    }

    /// Records that a group is poisoned.
    pub fn poison(&mut self, group_id: GroupId)
        requires
            old(self).wf(),
        ensures
            final(self).wf(),
            final(self).state() == (BoardState {
                poisoned: old(self).state().poisoned.insert(group_id@ as u64),
                ..old(self).state()
            }),
    {
        self.poisoned.insert(group_id.get() as u64, ());
        assert(self.state().poisoned =~= old(self).state().poisoned.insert(group_id@ as u64));
    }

    /// Returns how many groups are poisoned.
    pub fn poisoned_count(&self) -> (r: usize)
        requires
            self.wf(),
        ensures
            r == self.state().poisoned.len(),
    {
        proof {
            lemma_key_count(self.poisoned);
        }
        self.poisoned.len()
    }

    /// Keeps nothing of a removed group.
    pub fn forget_group(&mut self, group_id: GroupId)
        requires
            old(self).wf(),
        ensures
            final(self).wf(),
            final(self).state() == old(self).state().forget(group_id@ as u64),
    {
        let key: u64 = group_id.get() as u64;
        self.ticking.remove(key);
        self.poisoned.remove(key);
        self.slow.remove(key);
        assert(self.state() =~= old(self).state().forget(key));
    }

    /// Makes a group slow, or not.
    pub fn set_slow(&mut self, group_id: GroupId, milliseconds: u64)
        requires
            old(self).wf(),
            milliseconds <= MAX_SLOW_DELAY_MS,
        ensures
            final(self).wf(),
            final(self).state() == old(self).state().set_slow(group_id@ as u64, milliseconds),
    {
        let key: u64 = group_id.get() as u64;
        if milliseconds == 0 {
            self.slow.remove(key);
        } else {
            self.slow.insert(key, milliseconds);
        }
        assert(self.state() =~= old(self).state().set_slow(key, milliseconds));
    }

    /// Returns the delay of a dispatch with work of these classes.
    pub fn dispatch_delay(&self, group_id: GroupId, classes: &Vec<WorkClass>) -> (r: Option<u64>)
        requires
            self.wf(),
        ensures
            r == self.state().delay_of(group_id@ as u64, classes@),
            r is Some ==> r->0 <= MAX_SLOW_DELAY_MS,
    {
        let Some(delay) = self.slow.get(group_id.get() as u64) else {
            return None;
        };
        let mut i: usize = 0;
        while i < classes.len()
            invariant
                i <= classes@.len(),
                forall|k: int| 0 <= k < i ==> #[trigger] classes@[k] == WorkClass::Control,
                self.state().slow.contains_key(group_id@ as u64),
                delay == self.state().slow[group_id@ as u64],
                delay <= MAX_SLOW_DELAY_MS,
            decreases classes@.len() - i,
        {
            if classes[i] != WorkClass::Control {
                assert(classes@[i as int] != WorkClass::Control);
                return Some(delay);
            }
            i = i + 1;
        }
        None
    }

    /// Delays a dispatch.
    pub fn delay_dispatch(&mut self, now: u64, dispatch_id: u64, delay: u64)
        requires
            old(self).wf(),
            now + delay <= u64::MAX,
        ensures
            final(self).wf(),
            final(self).state() == (BoardState {
                delayed: old(self).state().delayed.insert(dispatch_id, (now + delay) as u64),
                ..old(self).state()
            }),
    {
        self.delayed.insert(dispatch_id, now + delay);
    }

    /// Takes the dispatches that are due, in the order in which they were made.
    pub fn release_delayed(&mut self, now: u64) -> (r: Vec<u64>)
        requires
            old(self).wf(),
        ensures
            final(self).wf(),
            final(self).state() == old(self).state().release(now),
            forall|i: int, j: int| 0 <= i < j < r@.len() ==> r@[i] < r@[j],
            forall|dispatch: u64| #[trigger]
                r@.contains(dispatch) <==> old(self).state().due(now, dispatch),
    {
        let ghost state = self.state();
        let mut ready: Vec<u64> = Vec::new();
        let mut waiting: Table<u64> = Table::new();
        let mut i: usize = 0;
        while i < self.delayed.len()
            invariant
                self.wf(),
                *self == *old(self),
                state == self.state(),
                i <= self.delayed.count(),
                waiting.wf(),
                forall|a: int, b: int| 0 <= a < b < ready@.len() ==> ready@[a] < ready@[b],
                forall|k: int| 0 <= k < ready@.len() ==> state.due(now, #[trigger] ready@[k]),
                forall|k: int, m: int|
                    0 <= k < ready@.len() && i <= m < self.delayed.count() ==> #[trigger] ready@[k]
                        < #[trigger] self.delayed.key(m),
                forall|k: int|
                    0 <= k < i && state.due(now, #[trigger] self.delayed.key(k))
                        ==> ready@.contains(self.delayed.key(k)),
                forall|key: u64| #[trigger]
                    waiting@.contains_key(key) ==> state.delayed.contains_key(key) && !state.due(
                        now,
                        key,
                    ) && waiting@[key] == state.delayed[key],
                forall|k: int|
                    0 <= k < i && !state.due(now, #[trigger] self.delayed.key(k))
                        ==> waiting@.contains_key(self.delayed.key(k)),
            decreases self.delayed.count() - i,
        {
            let (dispatch, ready_at) = self.delayed.row(i);
            let ghost before = ready@;
            proof {
                self.delayed.lemma_rows();
            }
            if ready_at <= now {
                ready.push(dispatch);
                assert(ready@[before.len() as int] == dispatch);
            } else {
                waiting.insert(dispatch, ready_at);
            }
            proof {
                assert forall|k: int|
                    0 <= k < i + 1 && state.due(now, #[trigger] self.delayed.key(k)) implies
                    ready@.contains(self.delayed.key(k)) by {
                    if k < i {
                        let m = choose|m: int|
                            0 <= m < before.len() && before[m] == self.delayed.key(k);
                        assert(ready@[m] == self.delayed.key(k));
                    }
                }
            }
            i = i + 1;
        }
        proof {
            self.delayed.lemma_rows();
            assert forall|dispatch: u64| #[trigger] ready@.contains(dispatch) <==> state.due(
                now,
                dispatch,
            ) by {
                if state.due(now, dispatch) {
                    let k = choose|k: int|
                        0 <= k < self.delayed.count() && self.delayed.key(k) == dispatch;
                    assert(state.due(now, self.delayed.key(k)));
                }
            }
            let wanted = state.release(now).delayed;
            assert forall|key: u64| #[trigger] wanted.contains_key(key) implies
                waiting@.contains_key(key) by {
                let k = choose|k: int| 0 <= k < self.delayed.count() && self.delayed.key(k) == key;
                assert(!state.due(now, self.delayed.key(k)));
            }
            assert(waiting@ =~= wanted);
        }
        self.delayed = waiting;
        assert(self.state() =~= state.release(now));
        ready
    }
}

/// A group has at most one queued tick: the tick that is taken lets the next one in.
pub proof fn law_one_tick_at_a_time(state: BoardState, group: u64, work: u64)
    requires
        !state.work.contains_key(work),
    ensures
        state.record(group, work, WorkKind::Tick).ticking.contains(group),
        !state.record(group, work, WorkKind::Tick).take(group, work).ticking.contains(group),
        state.record(group, work, WorkKind::Tick).take(group, work).work == state.work,
{
    assert(state.record(group, work, WorkKind::Tick).take(group, work).work =~= state.work);
}

/// Control traffic is never held back behind a slow group's delay.
pub proof fn law_control_traffic_is_not_delayed(
    state: BoardState,
    group: u64,
    classes: Seq<WorkClass>,
)
    requires
        forall|i: int| 0 <= i < classes.len() ==> classes[i] == WorkClass::Control,
    ensures
        state.delay_of(group, classes) is None,
{
}

/// Whoever asked for the work is told of every way it can end, but for the stop of the process.
pub proof fn law_client_of_every_item_is_told(kind: WorkKind, outcome: ItemOutcome)
    ensures
        kind is Snapshot && !(outcome is DurabilityFailed) ==> !(item_step(Some(kind), outcome).client
            is Nothing),
        kind is Proposal && (outcome is Poisoned || outcome is Failed) ==> !(item_step(
            Some(kind),
            outcome,
        ).client is Nothing),
        kind is Proposal || kind is Snapshot ==> !(retired_client(Some(kind)) is Nothing),
{
}

} // verus!
