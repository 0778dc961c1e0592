//! Which requests a group takes, how its lifecycle moves, and how a restart completes a move that a
//! crash interrupted.

use vstd::prelude::*;

use crate::node::host_registry::{ActivationIntent, RetirementIntent, SlotRecord};
use crate::node::record::StoredPolicy;
use crate::node::render::Refusal;
use crate::text::{letters, read_unsigned, unsigned_of};
use crate::types::{GroupId, GroupIncarnation, GroupLifecycle, WorkClass, WorkQuota};

verus! {

/// What the node knows of one installed group when a request for it arrives.
#[derive(Clone, Copy, Debug, Eq, PartialEq, Structural)]
pub struct GroupFacts {
    /// Its durable incarnation.
    pub incarnation: GroupIncarnation,
    /// Its durable lifecycle.
    pub lifecycle: GroupLifecycle,
    /// Its record says that it is poisoned.
    pub poisoned: bool,
    /// It was poisoned since the process started.
    pub runtime_poisoned: bool,
    /// Operations recorded as outstanding.
    pub outstanding: usize,
    /// A driver is attached.
    pub driver: bool,
    /// The driver has applied everything that was committed, and is healthy.
    pub ready: bool,
    /// An active Raft directory exists.
    pub raft_present: bool,
}

/// What a driver knows of its own progress.
#[derive(Clone, Copy, Debug, Eq, PartialEq, Structural)]
pub struct DriverProgress {
    /// Last applied index.
    pub applied: u64,
    /// Last committed index of the application.
    pub committed: u64,
    /// The group is healthy.
    pub healthy: bool,
}

impl DriverProgress {
    /// Returns whether the driver has applied everything that was committed, and is healthy.
    pub fn is_ready(self) -> (r: bool)
        ensures
            r == (self.applied >= self.committed && self.healthy),
    {
        self.applied >= self.committed && self.healthy
    }
}

// --------------------------------------------------------------------- gates

/// Why a client request to the group is refused, if it is.
pub open(crate) spec fn serving_refusal(facts: Option<GroupFacts>, incarnation: GroupIncarnation) -> Option<
    Refusal,
> {
    match facts {
        None => Some(Refusal::GroupUnknown),
        Some(facts) => if incarnation@ < facts.incarnation@ {
            Some(Refusal::StaleIncarnation { current: facts.incarnation })
        } else if incarnation@ > facts.incarnation@ {
            Some(Refusal::FutureIncarnation { current: facts.incarnation })
        } else if facts.lifecycle == GroupLifecycle::Tombstoned {
            Some(Refusal::Tombstoned)
        } else if facts.lifecycle != GroupLifecycle::Serving {
            Some(Refusal::Lifecycle { state: facts.lifecycle })
        } else if facts.poisoned || facts.runtime_poisoned {
            Some(Refusal::GroupPoisoned)
        } else if !facts.driver {
            Some(Refusal::GroupRemoved)
        } else if !facts.ready {
            Some(Refusal::NotReady)
        } else {
            None
        },
    }
}

/// Decides whether a client request reaches the group's driver.
pub fn serving_driver(facts: Option<GroupFacts>, incarnation: GroupIncarnation) -> (r: Option<
    Refusal,
>)
    ensures
        r == serving_refusal(facts, incarnation),
{
    let Some(facts) = facts else {
        return Some(Refusal::GroupUnknown);
    };
    if incarnation.get() < facts.incarnation.get() {
        return Some(Refusal::StaleIncarnation { current: facts.incarnation });
    }
    if incarnation.get() > facts.incarnation.get() {
        return Some(Refusal::FutureIncarnation { current: facts.incarnation });
    }
    if facts.lifecycle == GroupLifecycle::Tombstoned {
        return Some(Refusal::Tombstoned);
    }
    if facts.lifecycle != GroupLifecycle::Serving {
        return Some(Refusal::Lifecycle { state: facts.lifecycle });
    }
    if facts.poisoned || facts.runtime_poisoned {
        return Some(Refusal::GroupPoisoned);
    }
    if !facts.driver {
        return Some(Refusal::GroupRemoved);
    }
    if !facts.ready {
        return Some(Refusal::NotReady);
    }
    None
}

/// Why the group's record cannot be asked about an operation, if it cannot.
pub open(crate) spec fn record_refusal(facts: Option<GroupFacts>, incarnation: GroupIncarnation) -> Option<
    Refusal,
> {
    match facts {
        None => Some(Refusal::GroupUnknown),
        Some(facts) => if incarnation@ < facts.incarnation@ {
            Some(Refusal::StaleIncarnation { current: facts.incarnation })
        } else if incarnation@ > facts.incarnation@ {
            Some(Refusal::FutureIncarnation { current: facts.incarnation })
        } else {
            None
        },
    }
}

/// Decides whether the group's record can be asked about an operation.
pub fn admission_record(facts: Option<GroupFacts>, incarnation: GroupIncarnation) -> (r: Option<
    Refusal,
>)
    ensures
        r == record_refusal(facts, incarnation),
{
    let Some(facts) = facts else {
        return Some(Refusal::GroupUnknown);
    };
    if incarnation.get() < facts.incarnation.get() {
        return Some(Refusal::StaleIncarnation { current: facts.incarnation });
    }
    if incarnation.get() > facts.incarnation.get() {
        return Some(Refusal::FutureIncarnation { current: facts.incarnation });
    }
    None
}

// ------------------------------------------------------------ protocol input

/// Where protocol input of a group goes.
#[derive(Clone, Copy, Debug, Eq, PartialEq, Structural)]
pub enum ProtocolStep {
    /// Nowhere.
    Refuse,
    /// Straight into the driver, because an admission barrier waits for it.
    Direct,
    /// Into the managed queue.
    Managed,
}

/// Where a peer frame goes. `accepted` says that a client operation of the group is in progress,
/// and `reading` that an admission barrier is.
pub open(crate) spec fn peer_frame_step(
    facts: Option<GroupFacts>,
    incarnation: GroupIncarnation,
    accepted: bool,
    reading: bool,
) -> ProtocolStep {
    match facts {
        None => ProtocolStep::Refuse,
        Some(facts) => if incarnation != facts.incarnation
            || !facts.lifecycle.permits_protocol_continuation(facts.outstanding > 0 || accepted)
            || !facts.driver || facts.runtime_poisoned {
            ProtocolStep::Refuse
        } else if reading {
            ProtocolStep::Direct
        } else {
            ProtocolStep::Managed
        },
    }
}

/// Decides where a peer frame goes.
pub fn admit_peer_frame(
    facts: Option<GroupFacts>,
    incarnation: GroupIncarnation,
    accepted: bool,
    reading: bool,
) -> (r: ProtocolStep)
    ensures
        r == peer_frame_step(facts, incarnation, accepted, reading),
{
    let Some(facts) = facts else {
        return ProtocolStep::Refuse;
    };
    let remains = facts.outstanding > 0 || accepted;
    if incarnation != facts.incarnation || !facts.lifecycle.permits_protocol_continuation(remains)
        || !facts.driver || facts.runtime_poisoned {
        return ProtocolStep::Refuse;
    }
    if reading {
        ProtocolStep::Direct
    } else {
        ProtocolStep::Managed
    }
}

/// Where a tick goes. `ticking` says that one is queued already.
pub open(crate) spec fn tick_step(
    facts: GroupFacts,
    accepted: bool,
    reading: bool,
    ticking: bool,
) -> ProtocolStep {
    let admitted = facts.lifecycle.admits(WorkClass::Control) || (facts.lifecycle
        == GroupLifecycle::Draining && (facts.outstanding > 0 || accepted));
    if facts.runtime_poisoned || !admitted || !facts.driver {
        ProtocolStep::Refuse
    } else if reading {
        ProtocolStep::Direct
    } else if ticking {
        ProtocolStep::Refuse
    } else {
        ProtocolStep::Managed
    }
}

/// Decides where a tick goes.
pub fn admit_tick(facts: GroupFacts, accepted: bool, reading: bool, ticking: bool) -> (r:
    ProtocolStep)
    ensures
        r == tick_step(facts, accepted, reading, ticking),
{
    let admitted = facts.lifecycle.admits(WorkClass::Control) || (facts.lifecycle
        == GroupLifecycle::Draining && (facts.outstanding > 0 || accepted));
    if facts.runtime_poisoned || !admitted || !facts.driver {
        return ProtocolStep::Refuse;
    }
    if reading {
        return ProtocolStep::Direct;
    }
    if ticking {
        return ProtocolStep::Refuse;
    }
    ProtocolStep::Managed
}

/// How a step of a driver ended.
#[derive(Clone, Copy, Debug, Eq, PartialEq, Structural)]
pub enum DriverOutcome {
    /// The driver reported.
    Reported,
    /// The application could not make its state durable.
    DurabilityFailed,
    /// The group is poisoned.
    Poisoned,
    /// Any other failure.
    Failed,
}

/// What the process does after a step of a driver.
#[derive(Clone, Copy, Debug, Eq, PartialEq, Structural)]
pub enum DriverStep {
    /// Route the report.
    Collect,
    /// Stop the process: nothing after this can be trusted to be durable.
    Stop,
    /// Record the poison, then answer the failure.
    PersistPoison,
    /// Answer the failure.
    Refuse,
}

/// Decides what the process does after a step of a driver.
pub fn after_driver(outcome: DriverOutcome) -> (r: DriverStep)
    ensures
        r == match outcome {
            DriverOutcome::Reported => DriverStep::Collect,
            DriverOutcome::DurabilityFailed => DriverStep::Stop,
            DriverOutcome::Poisoned => DriverStep::PersistPoison,
            DriverOutcome::Failed => DriverStep::Refuse,
        },
{
    match outcome {
        DriverOutcome::Reported => DriverStep::Collect,
        DriverOutcome::DurabilityFailed => DriverStep::Stop,
        DriverOutcome::Poisoned => DriverStep::PersistPoison,
        DriverOutcome::Failed => DriverStep::Refuse,
    }
}

/// What a driver reports of a failed step of its group.
#[derive(Clone, Copy, Debug, Eq, PartialEq, Structural)]
pub enum FailureStep {
    /// A failure that leaves the group as it was.
    Transient,
    /// Record the poison, then report a poisoned group.
    MarkPoisoned,
    /// Report a poisoned group.
    Poisoned,
}

/// Classifies a failed step. A poisoned group whose application could not make its state durable is
/// not poisoned for good.
pub fn classify_failure(poisoned: bool, durability_failed: bool, recorded: bool) -> (r: FailureStep)
    ensures
        r == if !poisoned || durability_failed {
            FailureStep::Transient
        } else if recorded {
            FailureStep::Poisoned
        } else {
            FailureStep::MarkPoisoned
        },
{
    if !poisoned || durability_failed {
        FailureStep::Transient
    } else if recorded {
        FailureStep::Poisoned
    } else {
        FailureStep::MarkPoisoned
    }
}

// --------------------------------------------------------- lifecycle commands

/// What a drain publishes in the group's record.
#[derive(Clone, Copy, Debug, Eq, PartialEq, Structural)]
pub enum DrainPublication {
    /// The group drains, poisoned or not.
    BeginDraining {
        /// The group is poisoned.
        poisoned: bool,
    },
    /// The draining group is poisoned.
    MarkPoisoned,
    /// Nothing.
    Nothing,
}

/// What a drain does.
#[derive(Clone, Copy, Debug, Eq, PartialEq, Structural)]
pub enum DrainStep {
    /// No such group: the process stops.
    Unknown,
    /// Refused.
    Refused {
        /// Why.
        refusal: Refusal,
    },
    /// Drains.
    Proceed {
        /// What is published in the record.
        publication: DrainPublication,
        /// Queued work is failed, because a poisoned group services none.
        fail_queued: bool,
    },
}

/// What a drain does.
pub open(crate) spec fn drain_step(facts: Option<GroupFacts>, incarnation: GroupIncarnation) -> DrainStep {
    match facts {
        None => DrainStep::Unknown,
        Some(facts) => if facts.incarnation != incarnation {
            DrainStep::Refused { refusal: Refusal::Incarnation { current: facts.incarnation } }
        } else if facts.lifecycle != GroupLifecycle::Serving && facts.lifecycle
            != GroupLifecycle::Draining {
            DrainStep::Refused { refusal: Refusal::Lifecycle { state: facts.lifecycle } }
        } else {
            DrainStep::Proceed {
                publication: if facts.lifecycle == GroupLifecycle::Serving {
                    DrainPublication::BeginDraining { poisoned: facts.runtime_poisoned }
                } else if facts.runtime_poisoned && !facts.poisoned {
                    DrainPublication::MarkPoisoned
                } else {
                    DrainPublication::Nothing
                },
                fail_queued: facts.runtime_poisoned && facts.driver,
            }
        },
    }
}

/// Decides what a drain does.
pub fn drain(facts: Option<GroupFacts>, incarnation: GroupIncarnation) -> (r: DrainStep)
    ensures
        r == drain_step(facts, incarnation),
{
    let Some(facts) = facts else {
        return DrainStep::Unknown;
    };
    if facts.incarnation != incarnation {
        return DrainStep::Refused {
            refusal: Refusal::Incarnation { current: facts.incarnation },
        };
    }
    if facts.lifecycle != GroupLifecycle::Serving && facts.lifecycle != GroupLifecycle::Draining {
        return DrainStep::Refused { refusal: Refusal::Lifecycle { state: facts.lifecycle } };
    }
    let publication = if facts.lifecycle == GroupLifecycle::Serving {
        DrainPublication::BeginDraining { poisoned: facts.runtime_poisoned }
    } else if facts.runtime_poisoned && !facts.poisoned {
        DrainPublication::MarkPoisoned
    } else {
        DrainPublication::Nothing
    };
    DrainStep::Proceed { publication, fail_queued: facts.runtime_poisoned && facts.driver }
}

/// What the managed host says of removing a group.
#[derive(Clone, Copy, Debug, Eq, PartialEq, Structural)]
pub enum HostRemoval {
    /// Nothing holds the group.
    Removable,
    /// The host does not hold the group.
    NotOpen,
    /// Work still holds the group.
    Busy,
}

/// What a removal does.
#[derive(Clone, Copy, Debug, Eq, PartialEq, Structural)]
pub enum RemoveStep {
    /// Refused.
    Refused {
        /// Why.
        refusal: Refusal,
    },
    /// Refused with the host's own reason.
    Busy,
    /// Removes the group.
    Proceed {
        /// Promise that is published first.
        intent: RetirementIntent,
        /// The managed host detaches a driver.
        managed: bool,
    },
}

/// What a removal does, when the host would answer `host`.
pub open(crate) spec fn remove_step(
    facts: Option<GroupFacts>,
    group_id: GroupId,
    incarnation: GroupIncarnation,
    host: HostRemoval,
) -> RemoveStep {
    match facts {
        None => RemoveStep::Refused { refusal: Refusal::GroupUnknown },
        Some(facts) => if facts.incarnation != incarnation {
            RemoveStep::Refused { refusal: Refusal::Incarnation { current: facts.incarnation } }
        } else if facts.lifecycle != GroupLifecycle::Draining {
            RemoveStep::Refused { refusal: Refusal::Lifecycle { state: facts.lifecycle } }
        } else if facts.outstanding > 0 {
            RemoveStep::Refused { refusal: Refusal::Outstanding { count: facts.outstanding } }
        } else if facts.driver && host == HostRemoval::Busy {
            RemoveStep::Busy
        } else if (facts.driver && host == HostRemoval::NotOpen) || (!facts.driver
            && !facts.poisoned) {
            RemoveStep::Refused { refusal: Refusal::GroupNotOpen }
        } else {
            RemoveStep::Proceed {
                intent: RetirementIntent { group_id, incarnation },
                managed: facts.driver,
            }
        },
    }
}

/// Decides what a removal does.
pub fn remove(
    facts: Option<GroupFacts>,
    group_id: GroupId,
    incarnation: GroupIncarnation,
    host: HostRemoval,
) -> (r: RemoveStep)
    ensures
        r == remove_step(facts, group_id, incarnation, host),
{
    let Some(facts) = facts else {
        return RemoveStep::Refused { refusal: Refusal::GroupUnknown };
    };
    if facts.incarnation != incarnation {
        return RemoveStep::Refused {
            refusal: Refusal::Incarnation { current: facts.incarnation },
        };
    }
    if facts.lifecycle != GroupLifecycle::Draining {
        return RemoveStep::Refused { refusal: Refusal::Lifecycle { state: facts.lifecycle } };
    }
    if facts.outstanding > 0 {
        return RemoveStep::Refused { refusal: Refusal::Outstanding { count: facts.outstanding } };
    }
    if facts.driver {
        match host {
            HostRemoval::Removable => {},
            HostRemoval::NotOpen => {
                return RemoveStep::Refused { refusal: Refusal::GroupNotOpen };
            },
            HostRemoval::Busy => {
                return RemoveStep::Busy;
            },
        }
    } else if !facts.poisoned {
        return RemoveStep::Refused { refusal: Refusal::GroupNotOpen };
    }
    RemoveStep::Proceed {
        intent: RetirementIntent { group_id, incarnation },
        managed: facts.driver,
    }
}

/// What a reopening does.
#[derive(Clone, Copy, Debug, Eq, PartialEq, Structural)]
pub enum ReopenStep {
    /// Refused.
    Refused {
        /// Why.
        refusal: Refusal,
    },
    /// A removed group still has an active Raft directory: the process stops.
    ActiveRaft,
    /// No incarnation is left: the process stops.
    Exhausted,
    /// Opens the next incarnation.
    Proceed {
        /// Promise that is published first.
        intent: ActivationIntent,
    },
}

/// What a reopening does.
pub open(crate) spec fn reopen_step(
    facts: Option<GroupFacts>,
    group_id: GroupId,
    incarnation: GroupIncarnation,
    quota: u32,
) -> ReopenStep {
    if quota == 0 {
        ReopenStep::Refused { refusal: Refusal::ZeroQuota }
    } else {
        match facts {
            None => ReopenStep::Refused { refusal: Refusal::GroupUnknown },
            Some(facts) => if facts.incarnation != incarnation {
                ReopenStep::Refused { refusal: Refusal::Incarnation { current: facts.incarnation } }
            } else if facts.lifecycle == GroupLifecycle::Tombstoned {
                ReopenStep::Refused { refusal: Refusal::Tombstoned }
            } else if facts.lifecycle != GroupLifecycle::Removed {
                ReopenStep::Refused { refusal: Refusal::Lifecycle { state: facts.lifecycle } }
            } else if facts.raft_present {
                ReopenStep::ActiveRaft
            } else if incarnation@ == u32::MAX {
                ReopenStep::Exhausted
            } else {
                ReopenStep::Proceed {
                    intent: ActivationIntent {
                        group_id,
                        previous_incarnation: incarnation,
                        next_incarnation: GroupIncarnation((incarnation@ + 1) as u32),
                        quota: WorkQuota(quota),
                    },
                }
            },
        }
    }
}

/// Decides what a reopening does.
pub fn reopen(
    facts: Option<GroupFacts>,
    group_id: GroupId,
    incarnation: GroupIncarnation,
    quota: u32,
) -> (r: ReopenStep)
    ensures
        r == reopen_step(facts, group_id, incarnation, quota),
{
    let Some(quota) = WorkQuota::new(quota) else {
        return ReopenStep::Refused { refusal: Refusal::ZeroQuota };
    };
    let Some(facts) = facts else {
        return ReopenStep::Refused { refusal: Refusal::GroupUnknown };
    };
    if facts.incarnation != incarnation {
        return ReopenStep::Refused {
            refusal: Refusal::Incarnation { current: facts.incarnation },
        };
    }
    if facts.lifecycle == GroupLifecycle::Tombstoned {
        return ReopenStep::Refused { refusal: Refusal::Tombstoned };
    }
    if facts.lifecycle != GroupLifecycle::Removed {
        return ReopenStep::Refused { refusal: Refusal::Lifecycle { state: facts.lifecycle } };
    }
    if facts.raft_present {
        return ReopenStep::ActiveRaft;
    }
    let Some(next_incarnation) = incarnation.successor() else {
        return ReopenStep::Exhausted;
    };
    ReopenStep::Proceed {
        intent: ActivationIntent {
            group_id,
            previous_incarnation: incarnation,
            next_incarnation,
            quota,
        },
    }
}

/// Why a group cannot be retired for good, if it cannot.
pub open(crate) spec fn tombstone_refusal(facts: Option<GroupFacts>, incarnation: GroupIncarnation) -> Option<
    Refusal,
> {
    match facts {
        None => Some(Refusal::GroupUnknown),
        Some(facts) => if facts.incarnation != incarnation {
            Some(Refusal::Incarnation { current: facts.incarnation })
        } else if facts.lifecycle != GroupLifecycle::Removed {
            Some(Refusal::Lifecycle { state: facts.lifecycle })
        } else {
            None
        },
    }
}

/// Decides whether a group can be retired for good.
pub fn tombstone(facts: Option<GroupFacts>, incarnation: GroupIncarnation) -> (r: Option<Refusal>)
    ensures
        r == tombstone_refusal(facts, incarnation),
{
    let Some(facts) = facts else {
        return Some(Refusal::GroupUnknown);
    };
    if facts.incarnation != incarnation {
        return Some(Refusal::Incarnation { current: facts.incarnation });
    }
    if facts.lifecycle != GroupLifecycle::Removed {
        return Some(Refusal::Lifecycle { state: facts.lifecycle });
    }
    None
}

// ------------------------------------------------------------------- startup

/// What a restart does with the Raft directories of a retiring group.
#[derive(Clone, Copy, Debug, Eq, PartialEq, Structural)]
pub enum ArchiveStep {
    /// Both directories exist: the process stops.
    Both,
    /// Neither exists: the process stops.
    Neither,
    /// Rename the active one.
    Rename,
    /// It was renamed already.
    Done,
}

/// What archiving does.
pub open spec fn archive_step(active: bool, archived: bool) -> ArchiveStep {
    if active && archived {
        ArchiveStep::Both
    } else if active {
        ArchiveStep::Rename
    } else if archived {
        ArchiveStep::Done
    } else {
        ArchiveStep::Neither
    }
}

/// Decides what archiving does.
pub fn archive_raft(active: bool, archived: bool) -> (r: ArchiveStep)
    ensures
        r == archive_step(active, archived),
{
    if active && archived {
        return ArchiveStep::Both;
    }
    if active {
        ArchiveStep::Rename
    } else if !archived {
        ArchiveStep::Neither
    } else {
        ArchiveStep::Done
    }
}

/// Why a group cannot be installed as it is on disk.
#[derive(Clone, Copy, Debug, Eq, PartialEq, Structural)]
pub enum StartupFault {
    /// The retirement intent is of another incarnation.
    IntentMismatch,
    /// The group is neither draining nor removed, but has a retirement intent.
    IntentConflict {
        /// Its lifecycle.
        state: GroupLifecycle,
    },
    /// The record contradicts the registry.
    RegistryConflict,
    /// An active Raft directory is there though it should not be, or the other way round.
    Presence {
        /// It is there.
        active: bool,
    },
    /// The retired Raft directory is missing.
    NoArchive,
    /// Both Raft directories exist.
    BothDirectories,
    /// Neither Raft directory exists.
    NoDirectory,
}

/// What a restart does about a retirement intent.
#[derive(Clone, Copy, Debug, Eq, PartialEq, Structural)]
pub struct RetirementRepair {
    /// The active Raft directory is renamed.
    pub rename: bool,
    /// The record is retired.
    pub retire: bool,
}

/// What a restart does about the retirement intent of a group, if it can go on.
pub open(crate) spec fn retirement_repair(
    intent: Option<RetirementIntent>,
    group_id: GroupId,
    incarnation: GroupIncarnation,
    lifecycle: GroupLifecycle,
    active: bool,
    archived: bool,
) -> Result<Option<RetirementRepair>, StartupFault> {
    match intent {
        None => Ok(None),
        Some(intent) => if intent.group_id != group_id || intent.incarnation != incarnation {
            Err(StartupFault::IntentMismatch)
        } else if lifecycle != GroupLifecycle::Draining && lifecycle != GroupLifecycle::Removed {
            Err(StartupFault::IntentConflict { state: lifecycle })
        } else {
            match archive_step(active, archived) {
                ArchiveStep::Both => Err(StartupFault::BothDirectories),
                ArchiveStep::Neither => Err(StartupFault::NoDirectory),
                ArchiveStep::Rename => Ok(
                    Some(
                        RetirementRepair {
                            rename: true,
                            retire: lifecycle == GroupLifecycle::Draining,
                        },
                    ),
                ),
                ArchiveStep::Done => Ok(
                    Some(
                        RetirementRepair {
                            rename: false,
                            retire: lifecycle == GroupLifecycle::Draining,
                        },
                    ),
                ),
            }
        },
    }
}

/// Decides what a restart does about the retirement intent of a group.
pub fn reconcile_retirement(
    intent: Option<RetirementIntent>,
    group_id: GroupId,
    incarnation: GroupIncarnation,
    lifecycle: GroupLifecycle,
    active: bool,
    archived: bool,
) -> (r: Result<Option<RetirementRepair>, StartupFault>)
    ensures
        r == retirement_repair(intent, group_id, incarnation, lifecycle, active, archived),
{
    let Some(intent) = intent else {
        return Ok(None);
    };
    if intent.group_id != group_id || intent.incarnation != incarnation {
        return Err(StartupFault::IntentMismatch);
    }
    if lifecycle != GroupLifecycle::Draining && lifecycle != GroupLifecycle::Removed {
        return Err(StartupFault::IntentConflict { state: lifecycle });
    }
    let retire = lifecycle == GroupLifecycle::Draining;
    match archive_raft(active, archived) {
        ArchiveStep::Both => Err(StartupFault::BothDirectories),
        ArchiveStep::Neither => Err(StartupFault::NoDirectory),
        ArchiveStep::Rename => Ok(Some(RetirementRepair { rename: true, retire })),
        ArchiveStep::Done => Ok(Some(RetirementRepair { rename: false, retire })),
    }
}

/// The registry lags one published transition behind the record.
pub open(crate) spec fn registry_lags(durable: SlotRecord, observed: SlotRecord) -> bool {
    &&& durable.quota == observed.quota
    &&& {
        ||| durable.incarnation == observed.incarnation && durable.lifecycle
            == GroupLifecycle::Serving && observed.lifecycle == GroupLifecycle::Draining
        ||| durable.incarnation == observed.incarnation && durable.lifecycle
            == GroupLifecycle::Removed && observed.lifecycle == GroupLifecycle::Tombstoned
        ||| durable.lifecycle == GroupLifecycle::Removed && observed.lifecycle
            == GroupLifecycle::Serving && durable.incarnation@ + 1 == observed.incarnation@
    }
}

/// Decides whether the registry has to be brought up to the record: `true` when it lags, `false`
/// when it agrees.
pub fn reconcile_registry(durable: SlotRecord, observed: SlotRecord) -> (r: Result<
    bool,
    StartupFault,
>)
    ensures
        r == if durable == observed {
            Ok::<bool, StartupFault>(false)
        } else if registry_lags(durable, observed) {
            Ok(true)
        } else {
            Err(StartupFault::RegistryConflict)
        },
{
    if durable == observed {
        return Ok(false);
    }
    let same = durable.incarnation == observed.incarnation;
    let next = match durable.incarnation.successor() {
        Some(next) => next == observed.incarnation,
        None => false,
    };
    let forward = durable.quota == observed.quota && ((same && ((durable.lifecycle
        == GroupLifecycle::Serving && observed.lifecycle == GroupLifecycle::Draining) || (
    durable.lifecycle == GroupLifecycle::Removed && observed.lifecycle
        == GroupLifecycle::Tombstoned))) || (durable.lifecycle == GroupLifecycle::Removed
        && observed.lifecycle == GroupLifecycle::Serving && next));
    if forward {
        Ok(true)
    } else {
        Err(StartupFault::RegistryConflict)
    }
}

/// The group has an active Raft directory.
pub open spec fn has_active_raft(lifecycle: GroupLifecycle) -> bool {
    lifecycle != GroupLifecycle::Removed && lifecycle != GroupLifecycle::Tombstoned
}

/// What is wrong with the directories of a group, if anything is.
pub open spec fn shape_fault(lifecycle: GroupLifecycle, active: bool, archived: bool) -> Option<
    StartupFault,
> {
    if active != has_active_raft(lifecycle) {
        Some(StartupFault::Presence { active })
    } else if !has_active_raft(lifecycle) && !archived {
        Some(StartupFault::NoArchive)
    } else {
        None
    }
}

/// Checks the directories of a group.
pub fn validate_group_shape(lifecycle: GroupLifecycle, active: bool, archived: bool) -> (r: Option<
    StartupFault,
>)
    ensures
        r == shape_fault(lifecycle, active, archived),
{
    let should_be_active = !matches!(
        lifecycle,
        GroupLifecycle::Removed | GroupLifecycle::Tombstoned
    );
    if active != should_be_active {
        return Some(StartupFault::Presence { active });
    }
    if !should_be_active && !archived {
        return Some(StartupFault::NoArchive);
    }
    None
}

/// How a group is installed at startup.
#[derive(Clone, Copy, Debug, Eq, PartialEq, Structural)]
pub enum InstallStep {
    /// Without a driver, with every outstanding operation failed.
    Quarantine,
    /// Without a driver.
    Rest,
    /// With a driver.
    Open,
}

/// Decides how a group is installed at startup.
pub fn install_step(poisoned: bool, lifecycle: GroupLifecycle) -> (r: InstallStep)
    ensures
        r == if poisoned {
            InstallStep::Quarantine
        } else if !has_active_raft(lifecycle) {
            InstallStep::Rest
        } else {
            InstallStep::Open
        },
{
    if poisoned {
        InstallStep::Quarantine
    } else if matches!(lifecycle, GroupLifecycle::Removed | GroupLifecycle::Tombstoned) {
        InstallStep::Rest
    } else {
        InstallStep::Open
    }
}

/// How a group on disk is brought up.
#[derive(Clone, Copy, Debug, Eq, PartialEq, Structural)]
pub struct OpenPlan {
    /// What its retirement intent still asks for.
    pub repair: Option<RetirementRepair>,
    /// The registry is brought up to the record.
    pub publish: bool,
    /// How it is installed.
    pub install: InstallStep,
}

/// How a group on disk is brought up, if it can be: `durable` is what the registry states, and
/// `observed` what the record does.
pub open(crate) spec fn open_plan(
    intent: Option<RetirementIntent>,
    durable: SlotRecord,
    observed: SlotRecord,
    poisoned: bool,
    active: bool,
    archived: bool,
) -> Result<OpenPlan, StartupFault> {
    match retirement_repair(
        intent,
        observed.group_id,
        observed.incarnation,
        observed.lifecycle,
        active,
        archived,
    ) {
        Err(fault) => Err(fault),
        Ok(repair) => {
            let retire = repair is Some && repair->0.retire;
            let lifecycle = if retire {
                GroupLifecycle::Removed
            } else {
                observed.lifecycle
            };
            if repair is None && durable != observed && !registry_lags(durable, observed) {
                Err(StartupFault::RegistryConflict)
            } else {
                match shape_fault(
                    lifecycle,
                    active && repair is None,
                    archived || repair is Some,
                ) {
                    Some(fault) => Err(fault),
                    None => Ok(
                        OpenPlan {
                            repair,
                            publish: repair is Some || durable != observed,
                            install: if poisoned && !retire {
                                InstallStep::Quarantine
                            } else if !has_active_raft(lifecycle) {
                                InstallStep::Rest
                            } else {
                                InstallStep::Open
                            },
                        },
                    ),
                }
            }
        },
    }
}

/// Decides how a group on disk is brought up. What a retirement intent left undone comes first:
/// retiring the record also clears its poison.
pub fn open_slot(
    intent: Option<RetirementIntent>,
    durable: SlotRecord,
    observed: SlotRecord,
    poisoned: bool,
    active: bool,
    archived: bool,
) -> (r: Result<OpenPlan, StartupFault>)
    ensures
        r == open_plan(intent, durable, observed, poisoned, active, archived),
{
    let repair = match reconcile_retirement(
        intent,
        observed.group_id,
        observed.incarnation,
        observed.lifecycle,
        active,
        archived,
    ) {
        Ok(repair) => repair,
        Err(fault) => {
            return Err(fault);
        },
    };
    let (retire, publish) = match repair {
        Some(repair) => (repair.retire, true),
        None => match reconcile_registry(durable, observed) {
            Ok(publish) => (false, publish),
            Err(fault) => {
                return Err(fault);
            },
        },
    };
    let lifecycle = if retire {
        GroupLifecycle::Removed
    } else {
        observed.lifecycle
    };
    if let Some(fault) = validate_group_shape(
        lifecycle,
        active && repair.is_none(),
        archived || repair.is_some(),
    ) {
        return Err(fault);
    }
    Ok(OpenPlan { repair, publish, install: install_step(poisoned && !retire, lifecycle) })
}

/// Makes the registry's slot of a group from its record.
pub fn slot_from_policy(group_id: GroupId, policy: &StoredPolicy) -> (r: SlotRecord)
    ensures
        r == (SlotRecord {
            group_id,
            incarnation: policy.incarnation,
            lifecycle: policy.lifecycle,
            quota: policy.quota,
        }),
{
    SlotRecord {
        group_id,
        incarnation: policy.incarnation,
        lifecycle: policy.lifecycle,
        quota: policy.quota,
    }
}

/// Where the registry of a host comes from.
#[derive(Clone, Copy, Debug, Eq, PartialEq, Structural)]
pub enum RegistrySource {
    /// It is on disk.
    Disk,
    /// The host boots for the first time.
    Bootstrap,
    /// The records of the groups that are on disk.
    Records,
}

/// Decides where the registry of a host comes from: `names` are the entries beside it, those that
/// are no text as `None`. Without a registry every entry has to be a configured group's.
pub fn registry_source(found: bool, names: &Vec<Option<String>>, group_count: u32) -> (r: Result<
    RegistrySource,
    (usize, EntryFault),
>)
    ensures
        found ==> r == Ok::<RegistrySource, (usize, EntryFault)>(RegistrySource::Disk),
        !found && names@.len() == 0 ==> r == Ok::<RegistrySource, (usize, EntryFault)>(
            RegistrySource::Bootstrap,
        ),
        !found && names@.len() > 0 ==> (r == Ok::<RegistrySource, (usize, EntryFault)>(
            RegistrySource::Records,
        ) <==> forall|i: int|
            0 <= i < names@.len() ==> name_fault(#[trigger] names@[i], group_count) is None),
        !found && names@.len() > 0 && r is Ok ==> r->Ok_0 == RegistrySource::Records,
        r is Err ==> !found && r->Err_0.0 < names@.len() && name_fault(
            names@[r->Err_0.0 as int],
            group_count,
        ) == Some(r->Err_0.1) && forall|k: int|
            0 <= k < r->Err_0.0 ==> name_fault(#[trigger] names@[k], group_count) is None,
{
    if found {
        return Ok(RegistrySource::Disk);
    }
    if names.len() == 0 {
        return Ok(RegistrySource::Bootstrap);
    }
    let mut i: usize = 0;
    while i < names.len()
        invariant
            !found,
            names@.len() > 0,
            i <= names@.len(),
            forall|k: int|
                0 <= k < i ==> name_fault(#[trigger] names@[k], group_count) is None,
        decreases names@.len() - i,
    {
        let fault = match &names[i] {
            None => Some(EntryFault::Unexpected),
            Some(name) => match read_entry(name.as_str(), group_count) {
                Ok(_) => None,
                Err(fault) => Some(fault),
            },
        };
        assert(fault == name_fault(names@[i as int], group_count));
        if let Some(fault) = fault {
            return Err((i, fault));
        }
        i = i + 1;
    }
    Ok(RegistrySource::Records)
}

/// What is wrong with an entry beside a missing registry.
pub open(crate) spec fn name_fault(name: Option<String>, group_count: u32) -> Option<EntryFault> {
    match name {
        None => Some(EntryFault::Unexpected),
        Some(name) => match entry_group(name@, group_count) {
            Ok(_) => None,
            Err(fault) => Some(fault),
        },
    }
}

/// Why a group cannot be compacted.
#[derive(Clone, Copy, Debug, Eq, PartialEq, Structural)]
pub enum CompactionFault {
    /// Nothing was applied yet.
    NothingApplied,
    /// The log does not hold the boundary.
    NoBoundary,
}

/// Decides whether a group can be compacted at its applied index, whose term the log may hold.
pub fn compaction_boundary(applied: u64, term: Option<u64>) -> (r: Result<
    (u64, u64),
    CompactionFault,
>)
    ensures
        r == if applied == 0 {
            Err::<(u64, u64), CompactionFault>(CompactionFault::NothingApplied)
        } else {
            match term {
                None => Err(CompactionFault::NoBoundary),
                Some(term) => Ok((applied, term)),
            }
        },
{
    if applied == 0 {
        return Err(CompactionFault::NothingApplied);
    }
    match term {
        None => Err(CompactionFault::NoBoundary),
        Some(term) => Ok((applied, term)),
    }
}

/// Why a directory entry keeps the registry from being initialized.
#[derive(Clone, Copy, Debug, Eq, PartialEq, Structural)]
pub enum EntryFault {
    /// Its name is no group.
    Unexpected,
    /// Its group is not configured.
    Unconfigured,
}

/// Group that a directory entry belongs to.
pub open(crate) spec fn entry_group(name: Seq<char>, group_count: u32) -> Result<GroupId, EntryFault> {
    match unsigned_of(name, u32::MAX as nat) {
        None => Err(EntryFault::Unexpected),
        Some(raw) => if 1 <= raw <= group_count {
            Ok(GroupId(raw as u32))
        } else {
            Err(EntryFault::Unconfigured)
        },
    }
}

/// Reads the group that a directory entry belongs to.
pub fn read_entry(name: &str, group_count: u32) -> (r: Result<GroupId, EntryFault>)
    ensures
        r == entry_group(name@, group_count),
{
    let name = letters(name);
    match read_unsigned(&name, u32::MAX as u64) {
        None => Err(EntryFault::Unexpected),
        Some(raw) => if 1 <= raw && raw <= group_count as u64 {
            Ok(GroupId::new(raw as u32))
        } else {
            Err(EntryFault::Unconfigured)
        },
    }
}

/// Slots of a host that boots for the first time: every configured group serves its first
/// incarnation.
pub fn bootstrap_slots(group_count: u32, quota: WorkQuota) -> (r: Vec<SlotRecord>)
    requires
        quota.valid(),
    ensures
        r@.len() == group_count,
        forall|i: int|
            0 <= i < r@.len() ==> {
                &&& (#[trigger] r@[i]).group_id@ == i + 1
                &&& r@[i].incarnation@ == 1
                &&& r@[i].lifecycle == GroupLifecycle::Serving
                &&& r@[i].quota == quota
            },
        forall|i: int| 0 <= i < r@.len() ==> (#[trigger] r@[i]).valid(),
{
    let mut slots: Vec<SlotRecord> = Vec::new();
    let mut i: u32 = 0;
    while i < group_count
        invariant
            i <= group_count,
            slots@.len() == i,
            forall|k: int|
                0 <= k < i ==> {
                    &&& (#[trigger] slots@[k]).group_id@ == k + 1
                    &&& slots@[k].incarnation@ == 1
                    &&& slots@[k].lifecycle == GroupLifecycle::Serving
                    &&& slots@[k].quota == quota
                },
        decreases group_count - i,
    {
        slots.push(
            SlotRecord {
                group_id: GroupId::new(i + 1),
                incarnation: GroupIncarnation::first(),
                lifecycle: GroupLifecycle::Serving,
                quota,
            },
        );
        i = i + 1;
    }
    slots
}

// ---------------------------------------------------------------------- laws

/// What is on disk of one group.
pub struct DurableGroup {
    /// Published retirement intent.
    pub intent: Option<RetirementIntent>,
    /// Lifecycle in the record.
    pub lifecycle: GroupLifecycle,
    /// Lifecycle in the registry.
    pub registered: GroupLifecycle,
    /// The active Raft directory exists.
    pub active: bool,
    /// The retired Raft directory exists.
    pub archived: bool,
}

/// The durable steps of a removal, in the order in which they are taken.
pub open(crate) spec fn removal_prefix(start: DurableGroup, intent: RetirementIntent, steps: nat) -> DurableGroup
    decreases steps,
{
    if steps == 0 {
        start
    } else {
        let before = removal_prefix(start, intent, (steps - 1) as nat);
        if steps == 1 {
            DurableGroup { intent: Some(intent), ..before }
        } else if steps == 2 {
            DurableGroup { active: false, archived: true, ..before }
        } else if steps == 3 {
            DurableGroup { lifecycle: GroupLifecycle::Removed, ..before }
        } else if steps == 4 {
            DurableGroup { registered: GroupLifecycle::Removed, ..before }
        } else if steps == 5 {
            DurableGroup { intent: None, ..before }
        } else {
            before
        }
    }
}

/// The group after a restart repaired it.
pub open(crate) spec fn repaired(found: DurableGroup, repair: Option<RetirementRepair>) -> DurableGroup {
    match repair {
        None => found,
        Some(repair) => {
            let lifecycle = if repair.retire {
                GroupLifecycle::Removed
            } else {
                found.lifecycle
            };
            DurableGroup {
                intent: None,
                lifecycle,
                registered: lifecycle,
                active: found.active && !repair.rename,
                archived: found.archived || repair.rename,
            }
        },
    }
}

/// A crash at any point of a removal is repaired: once the intent is durable, the restart completes
/// the removal, and the directories, the record and the registry agree that the group is removed.
pub proof fn law_removal_survives_every_crash(
    group_id: GroupId,
    incarnation: GroupIncarnation,
    start: DurableGroup,
    steps: nat,
)
    requires
        start.intent is None,
        start.lifecycle == GroupLifecycle::Draining,
        start.registered == GroupLifecycle::Draining,
        start.active,
        !start.archived,
        1 <= steps <= 5,
    ensures
        ({
            let intent = RetirementIntent { group_id, incarnation };
            let found = removal_prefix(start, intent, steps);
            let repair = retirement_repair(
                found.intent,
                group_id,
                incarnation,
                found.lifecycle,
                found.active,
                found.archived,
            );
            let after = repaired(found, repair->Ok_0);
            &&& repair is Ok
            &&& after == removal_prefix(start, intent, 5)
            &&& after.lifecycle == GroupLifecycle::Removed
            &&& after.registered == GroupLifecycle::Removed
            &&& shape_fault(after.lifecycle, after.active, after.archived) is None
        }),
{
    reveal_with_fuel(removal_prefix, 6);
}

/// After a crash at any point of a removal, the restart brings the group up removed and at rest.
pub proof fn law_interrupted_removal_comes_up_at_rest(
    observed: SlotRecord,
    durable: SlotRecord,
    start: DurableGroup,
    poisoned: bool,
    steps: nat,
)
    requires
        start.intent is None,
        start.lifecycle == GroupLifecycle::Draining,
        start.registered == GroupLifecycle::Draining,
        start.active,
        !start.archived,
        1 <= steps <= 5,
        ({
            let intent = RetirementIntent {
                group_id: observed.group_id,
                incarnation: observed.incarnation,
            };
            let found = removal_prefix(start, intent, steps);
            observed.lifecycle == found.lifecycle && durable == (SlotRecord {
                lifecycle: found.registered,
                ..observed
            }) && (found.lifecycle == GroupLifecycle::Removed ==> !poisoned)
        }),
    ensures
        ({
            let intent = RetirementIntent {
                group_id: observed.group_id,
                incarnation: observed.incarnation,
            };
            let found = removal_prefix(start, intent, steps);
            let plan = open_plan(
                found.intent,
                durable,
                observed,
                poisoned,
                found.active,
                found.archived,
            );
            plan is Ok && plan->Ok_0.install == InstallStep::Rest
        }),
{
    reveal_with_fuel(removal_prefix, 6);
}

/// Before the intent is durable nothing of a removal happened, and the restart changes nothing.
pub proof fn law_removal_without_intent_did_not_start(
    group_id: GroupId,
    incarnation: GroupIncarnation,
    start: DurableGroup,
)
    requires
        start.intent is None,
    ensures
        retirement_repair(
            start.intent,
            group_id,
            incarnation,
            start.lifecycle,
            start.active,
            start.archived,
        ) == Ok::<Option<RetirementRepair>, StartupFault>(None),
{
}

/// A group is removed only after it drained: no operation is outstanding, and the intent names the
/// incarnation that is on disk.
pub proof fn law_removal_loses_no_operation(
    facts: GroupFacts,
    group_id: GroupId,
    incarnation: GroupIncarnation,
    host: HostRemoval,
)
    requires
        remove_step(Some(facts), group_id, incarnation, host) is Proceed,
    ensures
        facts.outstanding == 0,
        facts.lifecycle == GroupLifecycle::Draining,
        facts.driver ==> host == HostRemoval::Removable,
        facts.incarnation == incarnation,
{
}

/// A group reopens only as the next incarnation of a removed one, so requests to the retired
/// incarnation stay refused as stale.
pub proof fn law_reopened_incarnation_is_fresh(
    facts: GroupFacts,
    reopened: GroupFacts,
    group_id: GroupId,
    incarnation: GroupIncarnation,
    quota: u32,
)
    requires
        reopen_step(Some(facts), group_id, incarnation, quota) is Proceed,
        reopened.incarnation == reopen_step(
            Some(facts),
            group_id,
            incarnation,
            quota,
        )->intent.next_incarnation,
    ensures
        facts.lifecycle == GroupLifecycle::Removed,
        serving_refusal(Some(reopened), incarnation) == Some(
            Refusal::StaleIncarnation { current: reopened.incarnation },
        ),
        peer_frame_step(Some(reopened), incarnation, true, true) == ProtocolStep::Refuse,
{
}

/// A tombstoned group takes no request of any kind again.
pub proof fn law_tombstone_is_final(
    facts: GroupFacts,
    group_id: GroupId,
    quota: u32,
    host: HostRemoval,
    accepted: bool,
    reading: bool,
    ticking: bool,
)
    requires
        facts.lifecycle == GroupLifecycle::Tombstoned,
    ensures
        serving_refusal(Some(facts), facts.incarnation) == Some(Refusal::Tombstoned),
        drain_step(Some(facts), facts.incarnation) is Refused,
        remove_step(Some(facts), group_id, facts.incarnation, host) is Refused,
        reopen_step(Some(facts), group_id, facts.incarnation, quota) is Refused,
        tombstone_refusal(Some(facts), facts.incarnation) is Some,
        peer_frame_step(Some(facts), facts.incarnation, accepted, reading) == ProtocolStep::Refuse,
        tick_step(facts, accepted, reading, ticking) == ProtocolStep::Refuse,
{
}

/// A draining group takes nothing new, but the traffic that completes accepted work keeps flowing.
pub proof fn law_draining_completes_accepted_work(
    facts: GroupFacts,
    accepted: bool,
    reading: bool,
    ticking: bool,
)
    requires
        facts.lifecycle == GroupLifecycle::Draining,
        facts.driver,
        !facts.runtime_poisoned,
    ensures
        serving_refusal(Some(facts), facts.incarnation) == Some(
            Refusal::Lifecycle { state: GroupLifecycle::Draining },
        ),
        (peer_frame_step(Some(facts), facts.incarnation, accepted, reading) == ProtocolStep::Refuse)
            == !(facts.outstanding > 0 || accepted),
        !ticking ==> (tick_step(facts, accepted, reading, ticking) == ProtocolStep::Refuse) == !(
        facts.outstanding > 0 || accepted),
{
}

/// A poisoned group services nothing: neither a request nor protocol input reaches its driver.
pub proof fn law_poisoned_group_is_isolated(
    facts: GroupFacts,
    incarnation: GroupIncarnation,
    accepted: bool,
    reading: bool,
    ticking: bool,
)
    requires
        facts.runtime_poisoned,
    ensures
        serving_refusal(Some(facts), incarnation) is Some,
        peer_frame_step(Some(facts), incarnation, accepted, reading) == ProtocolStep::Refuse,
        tick_step(facts, accepted, reading, ticking) == ProtocolStep::Refuse,
{
}

} // verus!
