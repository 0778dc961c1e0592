//! What reaches a group, what is asked of it over its life, and how it comes up: each answer with the
//! facts on which it is given.

use vstd::prelude::*;

use crate::node::engine::lifecycle::{
    admission_record, admit_peer_frame, admit_tick, after_driver, archive_raft, classify_failure,
    compaction_boundary, drain, install_step, open_slot, read_entry, reconcile_registry,
    reconcile_retirement, remove, reopen, serving_driver, slot_from_policy, tombstone,
    validate_group_shape, ArchiveStep, CompactionFault, DrainPublication, DrainStep, DriverOutcome,
    DriverStep, EntryFault, FailureStep, GroupFacts, HostRemoval, InstallStep, OpenPlan,
    ProtocolStep, RemoveStep, ReopenStep, RetirementRepair, StartupFault,
};
use crate::node::host_registry::{RetirementIntent, SlotRecord};
use crate::node::record::StoredPolicy;
use crate::node::render::Refusal;
use crate::text::decimal;
use crate::types::{GroupId, GroupIncarnation, GroupLifecycle};

verus! {

/// A driver is attached that nothing poisoned.
pub open spec fn works(facts: GroupFacts) -> bool {
    facts.driver && !facts.poisoned && !facts.runtime_poisoned
}

/// A client request reaches the driver of a serving group exactly when it names the group's
/// incarnation and the group is healthy and ready. Every refusal names what stands in the way first:
/// the incarnation, the lifecycle, the poison, the missing driver, the driver that is behind.
pub proof fn law_serving_groups_are_reached(
    facts: GroupFacts,
    incarnation: GroupIncarnation,
    r: Option<Refusal>,
)
    requires
        call_ensures(serving_driver, (Some(facts), incarnation), r),
    ensures
        r is None <==> facts.lifecycle == GroupLifecycle::Serving && incarnation@
            == facts.incarnation@ && works(facts) && facts.ready,
        incarnation@ < facts.incarnation@ ==> r == Some(
            Refusal::StaleIncarnation { current: facts.incarnation },
        ),
        incarnation@ > facts.incarnation@ ==> r == Some(
            Refusal::FutureIncarnation { current: facts.incarnation },
        ),
        incarnation@ == facts.incarnation@ ==> {
            &&& facts.lifecycle == GroupLifecycle::Tombstoned ==> r == Some(Refusal::Tombstoned)
            &&& facts.lifecycle != GroupLifecycle::Tombstoned && facts.lifecycle
                != GroupLifecycle::Serving ==> r == Some(
                Refusal::Lifecycle { state: facts.lifecycle },
            )
            &&& facts.lifecycle == GroupLifecycle::Serving && (facts.poisoned
                || facts.runtime_poisoned) ==> r == Some(Refusal::GroupPoisoned)
            &&& facts.lifecycle == GroupLifecycle::Serving && !facts.poisoned
                && !facts.runtime_poisoned && !facts.driver ==> r == Some(Refusal::GroupRemoved)
            &&& facts.lifecycle == GroupLifecycle::Serving && works(facts) && !facts.ready ==> r
                == Some(Refusal::NotReady)
        },
{
}

/// A group that is not installed is unknown to every request.
pub proof fn law_missing_group_is_unknown(
    incarnation: GroupIncarnation,
    group_id: GroupId,
    host: HostRemoval,
    quota: u32,
    accepted: bool,
    reading: bool,
    served: Option<Refusal>,
    recorded: Option<Refusal>,
    framed: ProtocolStep,
    drained: DrainStep,
    removed: RemoveStep,
    reopened: ReopenStep,
    retired: Option<Refusal>,
)
    requires
        call_ensures(serving_driver, (None, incarnation), served),
        call_ensures(admission_record, (None, incarnation), recorded),
        call_ensures(admit_peer_frame, (None, incarnation, accepted, reading), framed),
        call_ensures(drain, (None, incarnation), drained),
        call_ensures(remove, (None, group_id, incarnation, host), removed),
        call_ensures(reopen, (None, group_id, incarnation, quota), reopened),
        call_ensures(tombstone, (None, incarnation), retired),
    ensures
        served == Some(Refusal::GroupUnknown),
        recorded == Some(Refusal::GroupUnknown),
        framed == ProtocolStep::Refuse,
        drained == DrainStep::Unknown,
        removed == (RemoveStep::Refused { refusal: Refusal::GroupUnknown }),
        quota > 0 ==> reopened == (ReopenStep::Refused { refusal: Refusal::GroupUnknown }),
        quota == 0 ==> reopened == (ReopenStep::Refused { refusal: Refusal::ZeroQuota }),
        retired == Some(Refusal::GroupUnknown),
{
}

/// A group's record answers for its own incarnation alone, whatever state the group is in.
pub proof fn law_record_answers_for_its_incarnation(
    facts: GroupFacts,
    incarnation: GroupIncarnation,
    r: Option<Refusal>,
)
    requires
        call_ensures(admission_record, (Some(facts), incarnation), r),
    ensures
        r is None <==> incarnation@ == facts.incarnation@,
        incarnation@ < facts.incarnation@ ==> r == Some(
            Refusal::StaleIncarnation { current: facts.incarnation },
        ),
        incarnation@ > facts.incarnation@ ==> r == Some(
            Refusal::FutureIncarnation { current: facts.incarnation },
        ),
{
}

/// A group with a driver that was not poisoned is ticked while it recovers or serves, and while it
/// drains what it accepted: straight into the driver while an admission barrier waits, otherwise
/// through the managed queue unless a tick is queued there already. No other group is ticked.
pub proof fn law_live_groups_are_ticked(
    facts: GroupFacts,
    accepted: bool,
    reading: bool,
    ticking: bool,
    r: ProtocolStep,
)
    requires
        call_ensures(admit_tick, (facts, accepted, reading, ticking), r),
    ensures
        ({
            let live = facts.lifecycle == GroupLifecycle::Recovering || facts.lifecycle
                == GroupLifecycle::Serving || (facts.lifecycle == GroupLifecycle::Draining && (
            facts.outstanding > 0 || accepted));
            let ticked = facts.driver && !facts.runtime_poisoned && live;
            &&& r == ProtocolStep::Direct <==> ticked && reading
            &&& r == ProtocolStep::Managed <==> ticked && !reading && !ticking
            &&& r == ProtocolStep::Refuse <==> !ticked || (!reading && ticking)
        }),
{
}

/// A frame of a peer reaches the group of its own incarnation while that recovers or serves, and while
/// it drains what it accepted: straight into the driver while an admission barrier waits, otherwise
/// through the managed queue.
pub proof fn law_peer_frames_reach_live_groups(
    facts: GroupFacts,
    incarnation: GroupIncarnation,
    accepted: bool,
    reading: bool,
    r: ProtocolStep,
)
    requires
        call_ensures(admit_peer_frame, (Some(facts), incarnation, accepted, reading), r),
    ensures
        ({
            let live = facts.lifecycle == GroupLifecycle::Recovering || facts.lifecycle
                == GroupLifecycle::Serving || (facts.lifecycle == GroupLifecycle::Draining && (
            facts.outstanding > 0 || accepted));
            let taken = incarnation@ == facts.incarnation@ && facts.driver
                && !facts.runtime_poisoned && live;
            &&& r == ProtocolStep::Direct <==> taken && reading
            &&& r == ProtocolStep::Managed <==> taken && !reading
            &&& r == ProtocolStep::Refuse <==> !taken
        }),
{
}

/// A report is collected, a failure to make state durable stops the process, poison is recorded, and
/// every other failure is answered.
pub proof fn law_driver_failures_are_told_apart(outcome: DriverOutcome, r: DriverStep)
    requires
        call_ensures(after_driver, (outcome,), r),
    ensures
        r == DriverStep::Collect <==> outcome == DriverOutcome::Reported,
        r == DriverStep::Stop <==> outcome == DriverOutcome::DurabilityFailed,
        r == DriverStep::PersistPoison <==> outcome == DriverOutcome::Poisoned,
        r == DriverStep::Refuse <==> outcome == DriverOutcome::Failed,
{
}

/// A failed step poisons its group unless the group is not poisoned or could not make its state
/// durable; poison that is on record is not recorded again.
pub proof fn law_poison_is_recorded_once(
    poisoned: bool,
    durability_failed: bool,
    recorded: bool,
    r: FailureStep,
)
    requires
        call_ensures(classify_failure, (poisoned, durability_failed, recorded), r),
    ensures
        r == FailureStep::Transient <==> !poisoned || durability_failed,
        r == FailureStep::MarkPoisoned <==> poisoned && !durability_failed && !recorded,
        r == FailureStep::Poisoned <==> poisoned && !durability_failed && recorded,
{
}

/// A group drains under its own incarnation when it serves or drains already. Draining is published
/// once, with the poison that is known; poison that comes later is published by itself. Queued work of
/// a poisoned group fails where a driver holds it.
pub proof fn law_serving_groups_drain(
    facts: GroupFacts,
    incarnation: GroupIncarnation,
    r: DrainStep,
)
    requires
        call_ensures(drain, (Some(facts), incarnation), r),
    ensures
        incarnation@ != facts.incarnation@ ==> r == (DrainStep::Refused {
            refusal: Refusal::Incarnation { current: facts.incarnation },
        }),
        incarnation@ == facts.incarnation@ && facts.lifecycle != GroupLifecycle::Serving
            && facts.lifecycle != GroupLifecycle::Draining ==> r == (DrainStep::Refused {
            refusal: Refusal::Lifecycle { state: facts.lifecycle },
        }),
        incarnation@ == facts.incarnation@ && facts.lifecycle == GroupLifecycle::Serving ==> r == (
        DrainStep::Proceed {
            publication: DrainPublication::BeginDraining { poisoned: facts.runtime_poisoned },
            fail_queued: facts.runtime_poisoned && facts.driver,
        }),
        incarnation@ == facts.incarnation@ && facts.lifecycle == GroupLifecycle::Draining ==> {
            &&& r is Proceed
            &&& r->fail_queued == (facts.runtime_poisoned && facts.driver)
            &&& r->publication == DrainPublication::MarkPoisoned <==> facts.runtime_poisoned
                && !facts.poisoned
            &&& r->publication == DrainPublication::Nothing <==> !facts.runtime_poisoned
                || facts.poisoned
        },
{
}

/// A group is removed under its own incarnation once it drained everything, and only if nothing in the
/// host holds it; a group without a driver is removed only where poison took the driver away. The
/// promise that is published first names exactly this group and incarnation.
pub proof fn law_drained_groups_are_removed(
    facts: GroupFacts,
    group_id: GroupId,
    incarnation: GroupIncarnation,
    host: HostRemoval,
    r: RemoveStep,
)
    requires
        call_ensures(remove, (Some(facts), group_id, incarnation, host), r),
    ensures
        incarnation@ != facts.incarnation@ ==> r == (RemoveStep::Refused {
            refusal: Refusal::Incarnation { current: facts.incarnation },
        }),
        incarnation@ == facts.incarnation@ ==> {
            &&& facts.lifecycle != GroupLifecycle::Draining ==> r == (RemoveStep::Refused {
                refusal: Refusal::Lifecycle { state: facts.lifecycle },
            })
            &&& facts.lifecycle == GroupLifecycle::Draining && facts.outstanding > 0 ==> r == (
            RemoveStep::Refused { refusal: Refusal::Outstanding { count: facts.outstanding } })
            &&& facts.lifecycle == GroupLifecycle::Draining && facts.outstanding == 0 ==> {
                &&& facts.driver ==> match host {
                    HostRemoval::Removable => r == (RemoveStep::Proceed {
                        intent: RetirementIntent { group_id, incarnation },
                        managed: true,
                    }),
                    HostRemoval::NotOpen => r == (RemoveStep::Refused {
                        refusal: Refusal::GroupNotOpen,
                    }),
                    HostRemoval::Busy => r == RemoveStep::Busy,
                }
                &&& !facts.driver && facts.poisoned ==> r == (RemoveStep::Proceed {
                    intent: RetirementIntent { group_id, incarnation },
                    managed: false,
                })
                &&& !facts.driver && !facts.poisoned ==> r == (RemoveStep::Refused {
                    refusal: Refusal::GroupNotOpen,
                })
            }
        },
{
}

/// A removed group reopens with the quota that is asked for, under the incarnation that follows the
/// one that was removed. The promise that is published first names both.
pub proof fn law_removed_groups_reopen(
    facts: GroupFacts,
    group_id: GroupId,
    incarnation: GroupIncarnation,
    quota: u32,
    r: ReopenStep,
)
    requires
        call_ensures(reopen, (Some(facts), group_id, incarnation, quota), r),
    ensures
        quota == 0 ==> r == (ReopenStep::Refused { refusal: Refusal::ZeroQuota }),
        quota > 0 && incarnation@ != facts.incarnation@ ==> r == (ReopenStep::Refused {
            refusal: Refusal::Incarnation { current: facts.incarnation },
        }),
        quota > 0 && incarnation@ == facts.incarnation@ ==> {
            &&& facts.lifecycle == GroupLifecycle::Tombstoned ==> r == (ReopenStep::Refused {
                refusal: Refusal::Tombstoned,
            })
            &&& facts.lifecycle != GroupLifecycle::Tombstoned && facts.lifecycle
                != GroupLifecycle::Removed ==> r == (ReopenStep::Refused {
                refusal: Refusal::Lifecycle { state: facts.lifecycle },
            })
            &&& facts.lifecycle == GroupLifecycle::Removed && facts.raft_present ==> r
                == ReopenStep::ActiveRaft
            &&& facts.lifecycle == GroupLifecycle::Removed && !facts.raft_present && incarnation@
                == u32::MAX ==> r == ReopenStep::Exhausted
            &&& facts.lifecycle == GroupLifecycle::Removed && !facts.raft_present && incarnation@
                < u32::MAX ==> {
                &&& r is Proceed
                &&& r->intent.group_id == group_id
                &&& r->intent.previous_incarnation == incarnation
                &&& r->intent.next_incarnation@ == incarnation@ + 1
                &&& r->intent.quota@ == quota
            }
        },
{
}

/// A group is retired for good exactly when it is removed and its own incarnation is named.
pub proof fn law_removed_groups_are_tombstoned(
    facts: GroupFacts,
    incarnation: GroupIncarnation,
    r: Option<Refusal>,
)
    requires
        call_ensures(tombstone, (Some(facts), incarnation), r),
    ensures
        incarnation@ != facts.incarnation@ ==> r == Some(
            Refusal::Incarnation { current: facts.incarnation },
        ),
        incarnation@ == facts.incarnation@ && facts.lifecycle != GroupLifecycle::Removed ==> r
            == Some(Refusal::Lifecycle { state: facts.lifecycle }),
        incarnation@ == facts.incarnation@ && facts.lifecycle == GroupLifecycle::Removed ==> r
            is None,
{
}

// ------------------------------------------------------------------- startup

/// Of the two Raft directories of a retiring group one exists: the active one is still to be renamed,
/// the retired one was.
pub proof fn law_one_raft_directory_is_left(active: bool, archived: bool, r: ArchiveStep)
    requires
        call_ensures(archive_raft, (active, archived), r),
    ensures
        r == ArchiveStep::Both <==> active && archived,
        r == ArchiveStep::Neither <==> !active && !archived,
        r == ArchiveStep::Rename <==> active && !archived,
        r == ArchiveStep::Done <==> !active && archived,
{
}

/// A retirement that was promised is completed at a restart: the directory is renamed where it was not,
/// and the record is retired where the group still drains. A promise for another group or incarnation,
/// or for a group that neither drains nor is removed, stops the restart.
pub proof fn law_promised_retirement_is_completed(
    intent: Option<RetirementIntent>,
    group_id: GroupId,
    incarnation: GroupIncarnation,
    lifecycle: GroupLifecycle,
    active: bool,
    archived: bool,
    r: Result<Option<RetirementRepair>, StartupFault>,
)
    requires
        call_ensures(
            reconcile_retirement,
            (intent, group_id, incarnation, lifecycle, active, archived),
            r,
        ),
    ensures
        intent is None ==> r == Ok::<Option<RetirementRepair>, StartupFault>(None),
        intent matches Some(promise) ==> {
            let own = promise.group_id == group_id && promise.incarnation == incarnation;
            let retiring = lifecycle == GroupLifecycle::Draining || lifecycle
                == GroupLifecycle::Removed;
            &&& !own ==> r == Err::<Option<RetirementRepair>, StartupFault>(
                StartupFault::IntentMismatch,
            )
            &&& own && !retiring ==> r == Err::<Option<RetirementRepair>, StartupFault>(
                StartupFault::IntentConflict { state: lifecycle },
            )
            &&& own && retiring && active && archived ==> r == Err::<
                Option<RetirementRepair>,
                StartupFault,
            >(StartupFault::BothDirectories)
            &&& own && retiring && !active && !archived ==> r == Err::<
                Option<RetirementRepair>,
                StartupFault,
            >(StartupFault::NoDirectory)
            &&& own && retiring && active != archived ==> r == Ok::<
                Option<RetirementRepair>,
                StartupFault,
            >(
                Some(
                    RetirementRepair {
                        rename: active,
                        retire: lifecycle == GroupLifecycle::Draining,
                    },
                ),
            )
        },
{
}

/// The registry may be one published transition behind the record of the same quota: a drain, a
/// tombstone, or the opening of the next incarnation. Any other difference stops the restart.
pub proof fn law_registry_follows_the_record(
    durable: SlotRecord,
    observed: SlotRecord,
    r: Result<bool, StartupFault>,
)
    requires
        call_ensures(reconcile_registry, (durable, observed), r),
    ensures
        r == Ok::<bool, StartupFault>(false) <==> durable == observed,
        r == Ok::<bool, StartupFault>(true) <==> durable != observed && durable.quota
            == observed.quota && ((durable.incarnation == observed.incarnation && ((
        durable.lifecycle == GroupLifecycle::Serving && observed.lifecycle
            == GroupLifecycle::Draining) || (durable.lifecycle == GroupLifecycle::Removed
            && observed.lifecycle == GroupLifecycle::Tombstoned))) || (durable.lifecycle
            == GroupLifecycle::Removed && observed.lifecycle == GroupLifecycle::Serving
            && observed.incarnation@ == durable.incarnation@ + 1)),
        r is Err ==> r->Err_0 == StartupFault::RegistryConflict,
{
}

/// A group that is removed or tombstoned has no active Raft directory and a retired one; every other
/// group has an active one.
pub proof fn law_directories_match_the_lifecycle(
    lifecycle: GroupLifecycle,
    active: bool,
    archived: bool,
    r: Option<StartupFault>,
)
    requires
        call_ensures(validate_group_shape, (lifecycle, active, archived), r),
    ensures
        ({
            let gone = lifecycle == GroupLifecycle::Removed || lifecycle
                == GroupLifecycle::Tombstoned;
            &&& r is None <==> if gone {
                !active && archived
            } else {
                active
            }
            &&& active == gone ==> r == Some(StartupFault::Presence { active })
            &&& gone && !active && !archived ==> r == Some(StartupFault::NoArchive)
        }),
{
}

/// A poisoned group is installed in quarantine, a removed or tombstoned one at rest, and every other
/// with a driver.
pub proof fn law_healthy_groups_come_up_open(
    poisoned: bool,
    lifecycle: GroupLifecycle,
    r: InstallStep,
)
    requires
        call_ensures(install_step, (poisoned, lifecycle), r),
    ensures
        r == InstallStep::Quarantine <==> poisoned,
        r == InstallStep::Rest <==> !poisoned && (lifecycle == GroupLifecycle::Removed || lifecycle
            == GroupLifecycle::Tombstoned),
        r == InstallStep::Open <==> !poisoned && lifecycle != GroupLifecycle::Removed && lifecycle
            != GroupLifecycle::Tombstoned,
{
}

/// Without a promised retirement, a group whose record the registry agrees with or lags comes up as its
/// record and its directories say, and the registry is brought up to the record where it lags. With
/// one, the group comes up removed and the registry is published anew.
pub proof fn law_groups_come_up_as_recorded(
    intent: Option<RetirementIntent>,
    durable: SlotRecord,
    observed: SlotRecord,
    poisoned: bool,
    active: bool,
    archived: bool,
    r: Result<OpenPlan, StartupFault>,
)
    requires
        call_ensures(open_slot, (intent, durable, observed, poisoned, active, archived), r),
    ensures
        ({
            let state = observed.lifecycle;
            let gone = state == GroupLifecycle::Removed || state == GroupLifecycle::Tombstoned;
            &&& intent is None && r is Ok ==> {
                &&& r->Ok_0.repair is None
                &&& r->Ok_0.publish == (durable != observed)
                &&& r->Ok_0.install == InstallStep::Quarantine <==> poisoned
                &&& r->Ok_0.install == InstallStep::Rest <==> !poisoned && gone
                &&& if gone {
                    !active && archived
                } else {
                    active
                }
            }
            &&& intent is None && durable == observed ==> (r is Ok <==> if gone {
                !active && archived
            } else {
                active
            })
            &&& intent is Some && r is Ok ==> {
                &&& intent->0.group_id == observed.group_id
                &&& intent->0.incarnation == observed.incarnation
                &&& r->Ok_0.publish
                &&& r->Ok_0.repair == Some(
                    RetirementRepair { rename: active, retire: state == GroupLifecycle::Draining },
                )
                &&& state == GroupLifecycle::Draining ==> r->Ok_0.install == InstallStep::Rest
                &&& state == GroupLifecycle::Removed && !poisoned ==> r->Ok_0.install
                    == InstallStep::Rest
            }
            &&& intent is Some && intent->0.group_id == observed.group_id && intent->0.incarnation
                == observed.incarnation && (state == GroupLifecycle::Draining || state
                == GroupLifecycle::Removed) && active != archived ==> r is Ok
        }),
{
}

/// The registry's slot of a group states what its record does.
pub proof fn law_slot_states_the_record(group_id: GroupId, policy: StoredPolicy, r: SlotRecord)
    requires
        call_ensures(slot_from_policy, (group_id, &policy), r),
    ensures
        r.group_id == group_id,
        r.incarnation == policy.incarnation,
        r.lifecycle == policy.lifecycle,
        r.quota == policy.quota,
{
}

/// A group is compacted at the index it applied, under the term that its log holds for it.
pub proof fn law_compaction_takes_what_was_applied(
    applied: u64,
    term: Option<u64>,
    r: Result<(u64, u64), CompactionFault>,
)
    requires
        call_ensures(compaction_boundary, (applied, term), r),
    ensures
        r is Ok <==> applied > 0 && term is Some,
        r is Ok ==> r->Ok_0.0 == applied && term == Some(r->Ok_0.1),
        applied == 0 ==> r == Err::<(u64, u64), CompactionFault>(CompactionFault::NothingApplied),
        applied > 0 && term is None ==> r == Err::<(u64, u64), CompactionFault>(
            CompactionFault::NoBoundary,
        ),
{
}

/// The directory of a group is named by its number: the decimal digits of a configured number are read
/// as that group, and those of any other are not configured.
pub proof fn law_directories_name_their_group(
    name: &str,
    number: u32,
    group_count: u32,
    r: Result<GroupId, EntryFault>,
)
    requires
        name@ == decimal(number as nat),
        call_ensures(read_entry, (name, group_count), r),
    ensures
        1 <= number <= group_count ==> r is Ok && r->Ok_0@ == number,
        !(1 <= number <= group_count) ==> r == Err::<GroupId, EntryFault>(EntryFault::Unconfigured),
{
    crate::text::law_unsigned_round_trips(number as nat, u32::MAX as nat);
}

} // verus!
