//! Names of the scheduling rules and of the checks that decide them.

use vstd::prelude::*;

use crate::types::{GroupId, PassIndex, TickIndex, WorkId};

verus! {

/// A scheduling rule the recorded decisions did not keep.
#[allow(inconsistent_fields)]
#[derive(Clone, Copy, Debug, Eq, PartialEq, Structural)]
pub enum SchedulingViolation {
    /// A group that was owed a turn was left out of a pass plan.
    OpportunityGap {
        /// Group that was denied its turn.
        group: GroupId,
        /// First pass of the longest denial run.
        from_pass: PassIndex,
        /// Length of that run, counted in armed plans.
        denied_passes: u32,
    },
    /// A plan was armed while an earlier plan still owed a group its turn.
    PassArmedWhileOpen {
        /// Pass still owed turns.
        open: PassIndex,
        /// Pass that was armed anyway.
        armed: PassIndex,
    },
    /// A pass index did not follow its predecessor.
    PassOutOfOrder {
        /// Pass that was expected next.
        expected: PassIndex,
        /// Pass that arrived.
        observed: PassIndex,
    },
    /// A plan named a group that was not ready when it was armed.
    PlanIncludedUnreadyGroup {
        /// Pass whose plan named it.
        pass: PassIndex,
        /// Group that was not ready.
        group: GroupId,
    },
    /// A plan named one group more than once.
    PlanRepeatedGroup {
        /// Pass whose plan repeated it.
        pass: PassIndex,
        /// Group that appeared twice.
        group: GroupId,
    },
    /// A turn was taken outside the open plan.
    OfferOutsidePlan {
        /// Pass the turn claimed.
        pass: PassIndex,
        /// Group that took it.
        group: GroupId,
    },
    /// A group took a second turn within one pass.
    GroupOfferedTwice {
        /// Pass in which it happened.
        pass: PassIndex,
        /// Group that took two turns.
        group: GroupId,
    },
    /// A pass retired while a group in its plan still had no turn.
    PassCompletedWithUnofferedGroup {
        /// Pass that retired early.
        pass: PassIndex,
        /// Group that never got its turn.
        group: GroupId,
    },
    /// A group was dispatched although it was not ready.
    DispatchedUnreadyGroup {
        /// Pass in which it happened.
        pass: PassIndex,
        /// Group that should not have been dispatched.
        group: GroupId,
    },
    /// A group was skipped as stalled although it was available.
    SkippedAvailableGroup {
        /// Pass in which it happened.
        pass: PassIndex,
        /// Group that was skipped.
        group: GroupId,
    },
    /// An opportunity serviced more items than the group's quota allows.
    QuotaExceeded {
        /// Pass in which it happened.
        pass: PassIndex,
        /// Group that overran.
        group: GroupId,
        /// Items the opportunity serviced.
        serviced: u32,
        /// Items its quota allowed.
        quota: u32,
    },
    /// An opportunity serviced work out of its priority or arrival order.
    ServiceOrderViolation {
        /// Pass in which it happened.
        pass: PassIndex,
        /// Group that serviced the wrong item.
        group: GroupId,
        /// Item that was owed the slot.
        expected: WorkId,
        /// Item that took it.
        observed: WorkId,
    },
    /// An opportunity serviced fewer or more items than it claimed.
    ServiceCountMismatch {
        /// Pass in which it happened.
        pass: PassIndex,
        /// Group that miscounted.
        group: GroupId,
        /// Items the turn recorded as serviced.
        expected: u32,
        /// Items its dispatch claimed.
        observed: u32,
    },
    /// A turn ended owing work it never serviced.
    DispatchLeftWorkUnserviced {
        /// Pass in which it happened.
        pass: PassIndex,
        /// Group that kept its queue.
        group: GroupId,
        /// Items the turn was offered against.
        owed: u32,
        /// Items it serviced.
        serviced: u32,
    },
    /// A turn serviced more items than it was offered against.
    DispatchServicedBeyondItsWork {
        /// Pass in which it happened.
        pass: PassIndex,
        /// Group that overran its turn.
        group: GroupId,
        /// Items the turn was offered against.
        owed: u32,
        /// Item it serviced beyond them.
        work: WorkId,
    },
    /// An opportunity charged its worker something other than its work cost.
    DispatchCostMismatch {
        /// Pass in which it happened.
        pass: PassIndex,
        /// Group whose turn it was.
        group: GroupId,
        /// Occupancy the serviced items add up to.
        expected: u64,
        /// Occupancy the dispatch claimed.
        observed: u64,
    },
    /// A worker occupancy outlived the cost that opened it.
    WorkerHeldPastCost {
        /// Pass whose dispatch opened the occupancy.
        pass: PassIndex,
        /// Group still holding the worker.
        group: GroupId,
        /// Tick the release was due at.
        due: TickIndex,
        /// Tick the history had reached.
        observed: TickIndex,
    },
    /// A worker occupancy ended before the cost that opened it was paid.
    WorkerReleasedEarly {
        /// Pass whose dispatch opened the occupancy.
        pass: PassIndex,
        /// Group released early.
        group: GroupId,
        /// Tick the release was due at.
        due: TickIndex,
        /// Tick the release arrived at.
        observed: TickIndex,
    },
    /// A worker was released for a group that was holding none.
    SpuriousWorkerRelease {
        /// Tick the release claimed.
        tick: TickIndex,
        /// Group it named.
        group: GroupId,
    },
    /// More groups held workers at once than the configuration has workers.
    WorkerCountExceeded {
        /// Pass whose dispatch overran the pool.
        pass: PassIndex,
        /// Group that took the worker there was not.
        group: GroupId,
        /// Workers the configuration provides.
        workers: u32,
    },
    /// A recorded decision claimed a tick earlier than one already recorded.
    TickWentBackwards {
        /// Tick the fold had already reached.
        current: TickIndex,
        /// Tick the event claimed.
        observed: TickIndex,
    },
    /// Two plans were armed, or two retired, within one tick.
    PassBoundaryReused {
        /// Pass that reused the boundary.
        pass: PassIndex,
        /// Tick it reused.
        tick: TickIndex,
    },
    /// Work was serviced outside any dispatch.
    ServiceOutsideDispatch {
        /// Pass the service claimed.
        pass: PassIndex,
        /// Group that claimed it.
        group: GroupId,
    },
    /// Accepted work is neither serviced, retired, nor still queued.
    WorkNotConserved {
        /// Items admitted over the history.
        admitted: u64,
        /// Items serviced.
        serviced: u64,
        /// Items retired without service.
        failed: u64,
        /// Items still queued.
        queued: u32,
    },
}

/// One check of the audit.
///
/// A [`SchedulingViolation`] names the rule that broke; a site names the check that caught it.
/// There are more checks than rules, so a violation alone does not say which check fired.
#[derive(Clone, Copy, Debug, Eq, Ord, PartialEq, PartialOrd, Structural)]
pub enum FaultSite {
    /// A recorded tick is earlier than one already reached.
    ClockWalkedBackwards,
    /// The clock passes an occupancy nobody released.
    OccupancyOutlivedItsCost,
    /// A release names a group holding no worker.
    ReleaseWithoutOccupancy,
    /// A release comes before its occupancy's deadline.
    ReleaseBeforeDue,
    /// A release comes after its occupancy's deadline.
    ReleaseAfterDue,
    /// A plan is armed while another is open.
    ArmedOverAnOpenPass,
    /// An armed pass index does not follow its predecessor.
    ArmedOutOfOrder,
    /// Two plans are armed within one tick.
    ArmedTickReused,
    /// A plan names one group twice.
    PlanRepeatedAGroup,
    /// A plan names a group that is not ready.
    PlanNamedAnUnreadyGroup,
    /// A turn is taken outside the open plan.
    OfferOutsideThePlan,
    /// A group takes a second turn within one pass.
    OfferedTwiceInOnePass,
    /// A turn is offered to a group that was never created.
    OfferedAnUnknownGroup,
    /// A skip is claimed for a group nothing reported stalled.
    SkippedWhileAvailable,
    /// A group that is not ready is dispatched.
    DispatchedWhileUnready,
    /// A turn claims more items than the group's quota.
    DispatchOverQuota,
    /// More turns are open than the pool has workers.
    DispatchOverWorkerPool,
    /// A turn ends with work it was offered against still queued.
    TurnLeftWorkQueued,
    /// A turn claims a different count than it recorded.
    TurnMiscountedItsWork,
    /// A turn claims a different cost than its work was worth.
    TurnMispricedItsWork,
    /// Work is serviced with no turn open to service it.
    ServiceOutsideATurn,
    /// Work is serviced past the end of a turn's offered items.
    ServicePastTheTurnsWork,
    /// Work is serviced out of priority or arrival order.
    ServiceOutOfOrder,
    /// Two plans are retired within one tick.
    RetiredTickReused,
    /// A plan is retired when none is open.
    RetiredWithNoPassOpen,
    /// A plan other than the open one is retired.
    RetiredADifferentPass,
    /// A plan is retired while it still owes a group its turn.
    RetiredWithATurnOwing,
    /// Accepted work is unaccounted for at the end of the history.
    WorkUnaccountedFor,
    /// A group went without a turn it was owed.
    WidestOpportunityGap,
    /// Not a site: the end marker.
    EndOfSites,
}

impl FaultSite {
    /// The number of sites.
    pub const COUNT: usize = 29;

    /// Every site, in declaration order.
    pub const ALL: [FaultSite; 29] = [
        FaultSite::ClockWalkedBackwards,
        FaultSite::OccupancyOutlivedItsCost,
        FaultSite::ReleaseWithoutOccupancy,
        FaultSite::ReleaseBeforeDue,
        FaultSite::ReleaseAfterDue,
        FaultSite::ArmedOverAnOpenPass,
        FaultSite::ArmedOutOfOrder,
        FaultSite::ArmedTickReused,
        FaultSite::PlanRepeatedAGroup,
        FaultSite::PlanNamedAnUnreadyGroup,
        FaultSite::OfferOutsideThePlan,
        FaultSite::OfferedTwiceInOnePass,
        FaultSite::OfferedAnUnknownGroup,
        FaultSite::SkippedWhileAvailable,
        FaultSite::DispatchedWhileUnready,
        FaultSite::DispatchOverQuota,
        FaultSite::DispatchOverWorkerPool,
        FaultSite::TurnLeftWorkQueued,
        FaultSite::TurnMiscountedItsWork,
        FaultSite::TurnMispricedItsWork,
        FaultSite::ServiceOutsideATurn,
        FaultSite::ServicePastTheTurnsWork,
        FaultSite::ServiceOutOfOrder,
        FaultSite::RetiredTickReused,
        FaultSite::RetiredWithNoPassOpen,
        FaultSite::RetiredADifferentPass,
        FaultSite::RetiredWithATurnOwing,
        FaultSite::WorkUnaccountedFor,
        FaultSite::WidestOpportunityGap,
    ];

    /// The next site in declaration order, or `None` past the last.
    #[verifier::allow_in_spec]
    pub fn next(self) -> Option<FaultSite>
        returns
            (match self {
                FaultSite::ClockWalkedBackwards => Some(FaultSite::OccupancyOutlivedItsCost),
                FaultSite::OccupancyOutlivedItsCost => Some(FaultSite::ReleaseWithoutOccupancy),
                FaultSite::ReleaseWithoutOccupancy => Some(FaultSite::ReleaseBeforeDue),
                FaultSite::ReleaseBeforeDue => Some(FaultSite::ReleaseAfterDue),
                FaultSite::ReleaseAfterDue => Some(FaultSite::ArmedOverAnOpenPass),
                FaultSite::ArmedOverAnOpenPass => Some(FaultSite::ArmedOutOfOrder),
                FaultSite::ArmedOutOfOrder => Some(FaultSite::ArmedTickReused),
                FaultSite::ArmedTickReused => Some(FaultSite::PlanRepeatedAGroup),
                FaultSite::PlanRepeatedAGroup => Some(FaultSite::PlanNamedAnUnreadyGroup),
                FaultSite::PlanNamedAnUnreadyGroup => Some(FaultSite::OfferOutsideThePlan),
                FaultSite::OfferOutsideThePlan => Some(FaultSite::OfferedTwiceInOnePass),
                FaultSite::OfferedTwiceInOnePass => Some(FaultSite::OfferedAnUnknownGroup),
                FaultSite::OfferedAnUnknownGroup => Some(FaultSite::SkippedWhileAvailable),
                FaultSite::SkippedWhileAvailable => Some(FaultSite::DispatchedWhileUnready),
                FaultSite::DispatchedWhileUnready => Some(FaultSite::DispatchOverQuota),
                FaultSite::DispatchOverQuota => Some(FaultSite::DispatchOverWorkerPool),
                FaultSite::DispatchOverWorkerPool => Some(FaultSite::TurnLeftWorkQueued),
                FaultSite::TurnLeftWorkQueued => Some(FaultSite::TurnMiscountedItsWork),
                FaultSite::TurnMiscountedItsWork => Some(FaultSite::TurnMispricedItsWork),
                FaultSite::TurnMispricedItsWork => Some(FaultSite::ServiceOutsideATurn),
                FaultSite::ServiceOutsideATurn => Some(FaultSite::ServicePastTheTurnsWork),
                FaultSite::ServicePastTheTurnsWork => Some(FaultSite::ServiceOutOfOrder),
                FaultSite::ServiceOutOfOrder => Some(FaultSite::RetiredTickReused),
                FaultSite::RetiredTickReused => Some(FaultSite::RetiredWithNoPassOpen),
                FaultSite::RetiredWithNoPassOpen => Some(FaultSite::RetiredADifferentPass),
                FaultSite::RetiredADifferentPass => Some(FaultSite::RetiredWithATurnOwing),
                FaultSite::RetiredWithATurnOwing => Some(FaultSite::WorkUnaccountedFor),
                FaultSite::WorkUnaccountedFor => Some(FaultSite::WidestOpportunityGap),
                FaultSite::WidestOpportunityGap => None,
                FaultSite::EndOfSites => None,
            }),
    {
        match self {
            FaultSite::ClockWalkedBackwards => Some(FaultSite::OccupancyOutlivedItsCost),
            FaultSite::OccupancyOutlivedItsCost => Some(FaultSite::ReleaseWithoutOccupancy),
            FaultSite::ReleaseWithoutOccupancy => Some(FaultSite::ReleaseBeforeDue),
            FaultSite::ReleaseBeforeDue => Some(FaultSite::ReleaseAfterDue),
            FaultSite::ReleaseAfterDue => Some(FaultSite::ArmedOverAnOpenPass),
            FaultSite::ArmedOverAnOpenPass => Some(FaultSite::ArmedOutOfOrder),
            FaultSite::ArmedOutOfOrder => Some(FaultSite::ArmedTickReused),
            FaultSite::ArmedTickReused => Some(FaultSite::PlanRepeatedAGroup),
            FaultSite::PlanRepeatedAGroup => Some(FaultSite::PlanNamedAnUnreadyGroup),
            FaultSite::PlanNamedAnUnreadyGroup => Some(FaultSite::OfferOutsideThePlan),
            FaultSite::OfferOutsideThePlan => Some(FaultSite::OfferedTwiceInOnePass),
            FaultSite::OfferedTwiceInOnePass => Some(FaultSite::OfferedAnUnknownGroup),
            FaultSite::OfferedAnUnknownGroup => Some(FaultSite::SkippedWhileAvailable),
            FaultSite::SkippedWhileAvailable => Some(FaultSite::DispatchedWhileUnready),
            FaultSite::DispatchedWhileUnready => Some(FaultSite::DispatchOverQuota),
            FaultSite::DispatchOverQuota => Some(FaultSite::DispatchOverWorkerPool),
            FaultSite::DispatchOverWorkerPool => Some(FaultSite::TurnLeftWorkQueued),
            FaultSite::TurnLeftWorkQueued => Some(FaultSite::TurnMiscountedItsWork),
            FaultSite::TurnMiscountedItsWork => Some(FaultSite::TurnMispricedItsWork),
            FaultSite::TurnMispricedItsWork => Some(FaultSite::ServiceOutsideATurn),
            FaultSite::ServiceOutsideATurn => Some(FaultSite::ServicePastTheTurnsWork),
            FaultSite::ServicePastTheTurnsWork => Some(FaultSite::ServiceOutOfOrder),
            FaultSite::ServiceOutOfOrder => Some(FaultSite::RetiredTickReused),
            FaultSite::RetiredTickReused => Some(FaultSite::RetiredWithNoPassOpen),
            FaultSite::RetiredWithNoPassOpen => Some(FaultSite::RetiredADifferentPass),
            FaultSite::RetiredADifferentPass => Some(FaultSite::RetiredWithATurnOwing),
            FaultSite::RetiredWithATurnOwing => Some(FaultSite::WorkUnaccountedFor),
            FaultSite::WorkUnaccountedFor => Some(FaultSite::WidestOpportunityGap),
            FaultSite::WidestOpportunityGap => None,
            FaultSite::EndOfSites => None,
        }
    }

    /// Position of the site in declaration order.
    pub open spec fn index(self) -> int {
        match self {
            FaultSite::ClockWalkedBackwards => 0,
            FaultSite::OccupancyOutlivedItsCost => 1,
            FaultSite::ReleaseWithoutOccupancy => 2,
            FaultSite::ReleaseBeforeDue => 3,
            FaultSite::ReleaseAfterDue => 4,
            FaultSite::ArmedOverAnOpenPass => 5,
            FaultSite::ArmedOutOfOrder => 6,
            FaultSite::ArmedTickReused => 7,
            FaultSite::PlanRepeatedAGroup => 8,
            FaultSite::PlanNamedAnUnreadyGroup => 9,
            FaultSite::OfferOutsideThePlan => 10,
            FaultSite::OfferedTwiceInOnePass => 11,
            FaultSite::OfferedAnUnknownGroup => 12,
            FaultSite::SkippedWhileAvailable => 13,
            FaultSite::DispatchedWhileUnready => 14,
            FaultSite::DispatchOverQuota => 15,
            FaultSite::DispatchOverWorkerPool => 16,
            FaultSite::TurnLeftWorkQueued => 17,
            FaultSite::TurnMiscountedItsWork => 18,
            FaultSite::TurnMispricedItsWork => 19,
            FaultSite::ServiceOutsideATurn => 20,
            FaultSite::ServicePastTheTurnsWork => 21,
            FaultSite::ServiceOutOfOrder => 22,
            FaultSite::RetiredTickReused => 23,
            FaultSite::RetiredWithNoPassOpen => 24,
            FaultSite::RetiredADifferentPass => 25,
            FaultSite::RetiredWithATurnOwing => 26,
            FaultSite::WorkUnaccountedFor => 27,
            FaultSite::WidestOpportunityGap => 28,
            FaultSite::EndOfSites => 29,
        }
    }
}

/// The list of sites holds each site once, at its own declaration index, and the walk from one
/// site to the next visits them in that order.
pub proof fn law_every_site_is_listed_once(i: int)
    requires
        0 <= i < FaultSite::COUNT,
    ensures
        FaultSite::ALL@.len() == FaultSite::COUNT,
        FaultSite::ALL[i].index() == i,
        FaultSite::ALL[i].next() == (if i + 1 < FaultSite::COUNT {
            Some(FaultSite::ALL[i + 1])
        } else {
            None
        }),
        FaultSite::ALL[i] != FaultSite::EndOfSites,
{
}

} // verus!
