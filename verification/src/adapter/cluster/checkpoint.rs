//! Composite consumer checkpoints of managed groups.

use vstd::prelude::*;

use crate::adapter::cluster::state::{
    first_session_key, last_session_key, lemma_session_keys, session_key, ClusterState,
};
use crate::adapter::cluster::{AdapterSession, GroupSlot, ManagedCounterCluster, OutstandingRequest};
use crate::adapter::codec::{
    decoded_snapshot, encode_snapshot, law_snapshots_round_trip, snapshot_bytes,
};
use crate::adapter::replica::{ascending, Replica};
use crate::adapter::state_machine::{
    ApplicationSnapshot, CounterCompletedView, CounterSessionView, CounterStateMachine,
    CounterStateMachineError,
};
use crate::types::{ClientId, GroupId, GroupIncarnation, GroupLifecycle, SessionEpoch, WorkQuota};

verus! {

/// One accepted counter request retained in a consumer checkpoint.
pub type CheckpointOutstanding = OutstandingRequest;

/// One session retained beside an application snapshot.
#[derive(Clone, Copy, Debug, Eq, PartialEq, Structural)]
pub struct CheckpointSession {
    /// Client slot.
    pub client_id: ClientId,
    /// Active session generation.
    pub epoch: SessionEpoch,
    /// Accepted request not yet applied at the snapshot boundary.
    pub outstanding: Option<CheckpointOutstanding>,
    /// Highest applied request retained for exact retry.
    pub completed: Option<CounterCompletedView>,
}

impl CheckpointSession {
    /// The admission state the entry retains.
    pub open spec fn retained(self) -> AdapterSession {
        AdapterSession {
            epoch: self.epoch,
            outstanding: self.outstanding,
            completed: self.completed,
        }
    }

    /// The replicated session the entry stands for.
    pub open spec fn replicated(self) -> CounterSessionView {
        CounterSessionView {
            client_id: self.client_id,
            epoch: self.epoch,
            completed: self.completed,
        }
    }
}

/// Composite consumer checkpoint for one managed group.
///
/// The application snapshot keeps the exact bounded state-machine format. Incarnation, lifecycle,
/// quota and outstanding admission state are consumer policy and travel beside it.
#[derive(Debug)]
pub struct CounterGroupCheckpoint {
    /// Group slot.
    pub group_id: GroupId,
    /// Exact incarnation at the snapshot boundary.
    pub incarnation: GroupIncarnation,
    /// Consumer lifecycle state.
    pub lifecycle: GroupLifecycle,
    /// Per-turn quota for the incarnation.
    pub quota: WorkQuota,
    /// Exact application snapshot.
    pub application: ApplicationSnapshot,
    /// Consumer admission state in client order.
    pub sessions: Vec<CheckpointSession>,
}

/// Fully decoded checkpoint ready for caller-owned restart composition.
#[derive(Debug)]
pub struct RestoredCounterGroup {
    /// Group slot.
    pub group_id: GroupId,
    /// Restored incarnation.
    pub incarnation: GroupIncarnation,
    /// Restored consumer lifecycle.
    pub lifecycle: GroupLifecycle,
    /// Restored per-turn quota.
    pub quota: WorkQuota,
    /// State machine installed from the exact application snapshot.
    pub state_machine: CounterStateMachine,
    /// Restored outstanding and completed admission state.
    pub sessions: Vec<CheckpointSession>,
}

/// Why a group checkpoint could not be built or restored.
#[derive(Clone, Copy, Debug, Eq, PartialEq, Structural)]
pub enum CheckpointError {
    /// The requested group slot has never existed.
    UnknownGroup,
    /// The destination cluster already retains this group slot.
    GroupAlreadyPresent,
    /// Restoring an active group requires its durable runtime, not only a consumer checkpoint.
    ActiveLifecycle(GroupLifecycle),
    /// An inactive retained slot contradicted the rule that removal clears client sessions.
    InactiveSessions,
    /// The bounded application snapshot could not be encoded or installed.
    StateMachine(CounterStateMachineError),
    /// The application snapshot vocabulary contains a newer unsupported case.
    SnapshotUnsupported,
}

/// The list holds exactly a group's sessions, in client order.
pub open spec fn lists_sessions(
    list: Seq<CheckpointSession>,
    s: ClusterState,
    group: GroupId,
) -> bool {
    &&& forall|i: int, j: int|
        0 <= i < j < list.len() ==> list[i].client_id@ < list[j].client_id@
    &&& forall|i: int|
        0 <= i < list.len() ==> s.session(group, (#[trigger] list[i]).client_id) == Some(
            list[i].retained(),
        )
    &&& forall|client: ClientId| #[trigger]
        s.session(group, client) is Some ==> exists|i: int|
            0 <= i < list.len() && (#[trigger] list[i]).client_id == client
}

/// The replicated sessions of a list.
pub open spec fn replicated_sessions(list: Seq<CheckpointSession>) -> Seq<CounterSessionView> {
    list.map_values(|session: CheckpointSession| session.replicated())
}

/// The checkpoint states exactly a group's slot and sessions.
pub open(crate) spec fn checkpoints(
    checkpoint: CounterGroupCheckpoint,
    s: ClusterState,
    group: GroupId,
) -> bool {
    let slot = s.slot(group)->0;
    &&& s.slot(group) is Some
    &&& checkpoint.group_id == group
    &&& checkpoint.incarnation == slot.incarnation
    &&& checkpoint.lifecycle == slot.lifecycle
    &&& checkpoint.quota == slot.quota
    &&& lists_sessions(checkpoint.sessions@, s, group)
    &&& checkpoint.sessions@.len() <= 1724
    &&& checkpoint.application.applied_index == slot.applied_index
    &&& checkpoint.application.transfer_id is None
    &&& checkpoint.application.payload@ == snapshot_bytes(
        slot.applied_index,
        slot.value,
        replicated_sessions(checkpoint.sessions@),
    )
}

impl CounterGroupCheckpoint {
    /// What the checkpoint's application snapshot decodes to.
    pub open(crate) spec fn decoded(self, max_sessions: nat) -> Result<
        (u64, i64, Seq<CounterSessionView>),
        CounterStateMachineError,
    > {
        if self.application.payload@.len() == 0 {
            Err(CounterStateMachineError::PromotedSnapshotMissing)
        } else {
            match decoded_snapshot(self.application.payload@, max_sessions) {
                Err(error) => Err(error),
                Ok(decoded) => if decoded.0 != self.application.applied_index {
                    Err(CounterStateMachineError::SnapshotIndexMismatch)
                } else {
                    Ok(decoded)
                },
            }
        }
    }

    /// Installs the application snapshot and returns every consumer-owned field.
    pub fn restore(self, max_sessions: usize) -> (r: Result<RestoredCounterGroup, CheckpointError>)
        requires
            0 < max_sessions <= 1724,
        ensures
            match self.decoded(max_sessions as nat) {
                Err(error) => r == Err::<RestoredCounterGroup, CheckpointError>(
                    CheckpointError::StateMachine(error),
                ),
                Ok((applied_index, value, sessions)) => {
                    &&& r is Ok
                    &&& r->Ok_0.group_id == self.group_id
                    &&& r->Ok_0.incarnation == self.incarnation
                    &&& r->Ok_0.lifecycle == self.lifecycle
                    &&& r->Ok_0.quota == self.quota
                    &&& r->Ok_0.sessions@ == self.sessions@
                    &&& r->Ok_0.state_machine.wf()
                    &&& r->Ok_0.state_machine.replica() == (Replica {
                        applied_index,
                        value,
                        sessions,
                        max_sessions: max_sessions as nat,
                    })
                },
            },
    {
        match CounterStateMachine::from_snapshot(max_sessions, self.application) {
            Err(error) => Err(CheckpointError::StateMachine(error)),
            Ok(state_machine) => Ok(
                RestoredCounterGroup {
                    group_id: self.group_id,
                    incarnation: self.incarnation,
                    lifecycle: self.lifecycle,
                    quota: self.quota,
                    state_machine,
                    sessions: self.sessions,
                },
            ),
        }
    }
}

impl ManagedCounterCluster {
    /// Lists a group's sessions in client order, with the replicated form of each.
    fn list_sessions(&self, group_id: GroupId) -> (r: (
        Vec<CheckpointSession>,
        Vec<CounterSessionView>,
    ))
        requires
            self.wf(),
        ensures
            lists_sessions(r.0@, self.state(), group_id),
            r.1@ == replicated_sessions(r.0@),
    {
        let low: u64 = group_id.get() as u64 * 0x1_0000_0000;
        let high: u64 = low + 0xffff_ffff;
        let mut list: Vec<CheckpointSession> = Vec::new();
        let mut replicated: Vec<CounterSessionView> = Vec::new();
        let mut i: usize = 0;
        let ghost s = self.state();
        proof {
            self.sessions.lemma_rows();
            lemma_session_keys(group_id, ClientId(0), group_id, ClientId(0));
        }
        while i < self.sessions.len()
            invariant
                i <= self.sessions.count(),
                self.wf(),
                s == self.state(),
                low == first_session_key(group_id),
                high == last_session_key(group_id),
                low == group_id@ * 0x1_0000_0000,
                high == low + 0xffff_ffff,
                forall|a: int, b: int|
                    0 <= a < b < list@.len() ==> list@[a].client_id@ < list@[b].client_id@,
                forall|a: int|
                    0 <= a < list@.len() ==> s.session(
                        group_id,
                        (#[trigger] list@[a]).client_id,
                    ) == Some(list@[a].retained()),
                forall|a: int|
                    0 <= a < list@.len() && i < self.sessions.count() ==> low + (
                    #[trigger] list@[a]).client_id@ < self.sessions.key(i as int),
                forall|k: int|
                    0 <= k < i && low <= #[trigger] self.sessions.key(k) <= high ==> exists|a: int|
                        0 <= a < list@.len() && low + (#[trigger] list@[a]).client_id@
                            == self.sessions.key(k),
                replicated@ == replicated_sessions(list@),
            decreases self.sessions.count() - i,
        {
            let (key, session) = self.sessions.row(i);
            let ghost before = list@;
            proof {
                self.sessions.lemma_rows();
            }
            if low <= key && key <= high {
                let client_id = ClientId::new((key - low) as u32);
                list.push(
                    CheckpointSession {
                        client_id,
                        epoch: session.epoch,
                        outstanding: session.outstanding,
                        completed: session.completed,
                    },
                );
                replicated.push(
                    CounterSessionView {
                        client_id,
                        epoch: session.epoch,
                        completed: session.completed,
                    },
                );
                proof {
                    lemma_session_keys(group_id, client_id, group_id, client_id);
                    assert(session_key(group_id, client_id) == key);
                    assert(replicated@ =~= replicated_sessions(list@));
                    assert(list@[before.len() as int].client_id == client_id);
                }
            }
            proof {
                assert forall|k: int|
                    0 <= k < i + 1 && low <= #[trigger] self.sessions.key(
                        k,
                    ) <= high implies exists|a: int|
                    0 <= a < list@.len() && low + (#[trigger] list@[a]).client_id@
                        == self.sessions.key(k) by {
                    if k < i {
                        let a = choose|a: int|
                            0 <= a < before.len() && low + (#[trigger] before[a]).client_id@
                                == self.sessions.key(k);
                        assert(list@[a] == before[a]);
                    } else {
                        assert(low + list@[before.len() as int].client_id@ == key);
                    }
                }
                if i + 1 < self.sessions.count() {
                    assert(self.sessions.key(i as int) < self.sessions.key(i + 1));
                }
            }
            i = i + 1;
        }
        proof {
            self.sessions.lemma_rows();
            assert forall|client: ClientId| #[trigger] s.session(
                group_id,
                client,
            ) is Some implies exists|a: int|
                0 <= a < list@.len() && (#[trigger] list@[a]).client_id == client by {
                lemma_session_keys(group_id, client, group_id, client);
                let key = session_key(group_id, client);
                let k = choose|k: int| 0 <= k < self.sessions.count() && self.sessions.key(k) == key;
                assert(low <= self.sessions.key(k) <= high);
                let a = choose|a: int|
                    0 <= a < list@.len() && low + (#[trigger] list@[a]).client_id@
                        == self.sessions.key(k);
                assert(list@[a].client_id == client);
            }
        }
        (list, replicated)
    }

    /// Builds one exact composite checkpoint without consuming live state.
    ///
    /// Accepted outstanding requests stay explicit in `sessions`; they are not invented as applied
    /// and are not discarded at the snapshot boundary.
    pub fn checkpoint_group(&self, group_id: GroupId) -> (r: Result<
        CounterGroupCheckpoint,
        CheckpointError,
    >)
        requires
            self.wf(),
        ensures
            match r {
                Ok(checkpoint) => checkpoints(checkpoint, self.state(), group_id),
                Err(error) => {
                    ||| self.state().slot(group_id) is None && error is UnknownGroup
                    ||| self.state().slot(group_id) is Some && error
                        == CheckpointError::StateMachine(
                        CounterStateMachineError::SnapshotTooLarge,
                    ) && exists|list: Seq<CheckpointSession>| #[trigger]
                        lists_sessions(list, self.state(), group_id) && list.len() > 1724
                },
            },
            self.state().slot(group_id) is None ==> r is Err,
    {
        let Some(slot) = self.slot(group_id) else {
            return Err(CheckpointError::UnknownGroup);
        };
        let (sessions, replicated) = self.list_sessions(group_id);
        match encode_snapshot(slot.applied_index, slot.value, &replicated) {
            Err(error) => Err(CheckpointError::StateMachine(error)),
            Ok(payload) => Ok(
                CounterGroupCheckpoint {
                    group_id,
                    incarnation: slot.incarnation,
                    lifecycle: slot.lifecycle,
                    quota: slot.quota,
                    application: ApplicationSnapshot {
                        applied_index: slot.applied_index,
                        payload,
                        transfer_id: None,
                    },
                    sessions,
                },
            ),
        }
    }

    /// Restores one inactive retained identity into an otherwise live cluster.
    ///
    /// Removed and tombstoned slots have no physical group, but their incarnation must survive a
    /// local restart so late traffic stays fenced and a removed slot cannot wrap.
    pub fn restore_inactive_checkpoint(
        &mut self,
        checkpoint: CounterGroupCheckpoint,
        max_sessions: usize,
    ) -> (r: Result<(), CheckpointError>)
        requires
            old(self).wf(),
            0 < max_sessions <= 1724,
        ensures
            final(self).wf(),
            ({
                let s = old(self).state();
                let group = checkpoint.group_id;
                if s.slot(group) is Some {
                    r == Err::<(), CheckpointError>(CheckpointError::GroupAlreadyPresent)
                        && final(self).state() == s
                } else if !(checkpoint.lifecycle is Removed || checkpoint.lifecycle is Tombstoned) {
                    r == Err::<(), CheckpointError>(
                        CheckpointError::ActiveLifecycle(checkpoint.lifecycle),
                    ) && final(self).state() == s
                } else {
                    match checkpoint.decoded(max_sessions as nat) {
                        Err(error) => r == Err::<(), CheckpointError>(
                            CheckpointError::StateMachine(error),
                        ) && final(self).state() == s,
                        Ok((applied_index, value, _)) => if checkpoint.sessions@.len() > 0 {
                            r == Err::<(), CheckpointError>(CheckpointError::InactiveSessions)
                                && final(self).state() == s
                        } else {
                            r is Ok && final(self).state() == s.with_slot(
                                group,
                                GroupSlot {
                                    incarnation: checkpoint.incarnation,
                                    lifecycle: checkpoint.lifecycle,
                                    quota: checkpoint.quota,
                                    applied_index,
                                    value,
                                    poisoned: false,
                                },
                            )
                        },
                    }
                }
            }),
    {
        let group_id = checkpoint.group_id;
        if self.slot(group_id).is_some() {
            return Err(CheckpointError::GroupAlreadyPresent);
        }
        if checkpoint.lifecycle != GroupLifecycle::Removed && checkpoint.lifecycle
            != GroupLifecycle::Tombstoned {
            return Err(CheckpointError::ActiveLifecycle(checkpoint.lifecycle));
        }
        let restored = match checkpoint.restore(max_sessions) {
            Ok(restored) => restored,
            Err(error) => {
                return Err(error);
            },
        };
        if restored.sessions.len() > 0 {
            return Err(CheckpointError::InactiveSessions);
        }
        let view = restored.state_machine.view();
        self.groups.insert(
            crate::adapter::cluster::slot_key(group_id),
            GroupSlot {
                incarnation: restored.incarnation,
                lifecycle: restored.lifecycle,
                quota: restored.quota,
                applied_index: view.applied_index,
                value: view.value,
                poisoned: false,
            },
        );
        Ok(())
    }
}

/// A checkpoint restores to what it was taken from: the counter, the applied index and every
/// completed request, in client order.
pub proof fn law_checkpoint_restores_the_group(
    checkpoint: CounterGroupCheckpoint,
    s: ClusterState,
    group: GroupId,
    max_sessions: nat,
)
    requires
        checkpoints(checkpoint, s, group),
        checkpoint.sessions@.len() <= max_sessions <= 1724,
        forall|i: int|
            0 <= i < checkpoint.sessions@.len() ==> (
            #[trigger] checkpoint.sessions@[i]).replicated().valid(),
    ensures
        checkpoint.decoded(max_sessions) == Ok::<
            (u64, i64, Seq<CounterSessionView>),
            CounterStateMachineError,
        >(
            (
                s.slot(group)->0.applied_index,
                s.slot(group)->0.value,
                replicated_sessions(checkpoint.sessions@),
            ),
        ),
{
    let list = replicated_sessions(checkpoint.sessions@);
    assert(ascending(list)) by {
        assert forall|i: int, j: int| 0 <= i < j < list.len() implies list[i].client_id@
            < list[j].client_id@ by {
            assert(checkpoint.sessions@[i].client_id@ < checkpoint.sessions@[j].client_id@);
        }
    }
    assert forall|i: int| 0 <= i < list.len() implies (#[trigger] list[i]).valid() by {
        assert(checkpoint.sessions@[i].replicated().valid());
    }
    law_snapshots_round_trip(
        s.slot(group)->0.applied_index,
        s.slot(group)->0.value,
        list,
        max_sessions,
    );
}

} // verus!
