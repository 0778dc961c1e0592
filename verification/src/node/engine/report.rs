//! Consumer ordering for one full-fidelity group step report.

use std::collections::VecDeque;

use vstd::prelude::*;

use crate::adapter::state_machine::CounterApplyResult;

verus! {

/// What became of a local proposal.
#[derive(Debug)]
pub enum ProposalOutcome {
    /// It was applied.
    Applied {
        /// The proposal.
        id: u64,
        /// Index it was applied at.
        index: u64,
        /// Term of its entry.
        term: u64,
        /// Its result.
        result: CounterApplyResult,
    },
    /// It was rejected.
    Rejected {
        /// The proposal.
        id: u64,
        /// Why.
        detail: String,
    },
    /// Its outcome is unknown.
    Unknown {
        /// The proposal.
        id: u64,
        /// Why.
        detail: String,
    },
    /// Anything else.
    Other,
}

/// An applied entry.
#[derive(Clone, Copy, Debug, Eq, PartialEq, Structural)]
pub struct AppliedEntry {
    /// Its index.
    pub index: u64,
    /// Its term.
    pub term: u64,
    /// Its result.
    pub result: CounterApplyResult,
    /// Local proposal that it completes.
    pub proposal: Option<u64>,
}

/// What became of a read barrier.
#[derive(Debug)]
pub enum ReadOutcome {
    /// It was granted.
    Granted {
        /// The barrier.
        read_id: u64,
    },
    /// It was rejected.
    Rejected {
        /// The barrier.
        read_id: u64,
        /// Why.
        detail: String,
    },
    /// It was canceled.
    Canceled {
        /// The barrier.
        read_id: u64,
        /// Why.
        detail: String,
    },
    /// Freshness is not available yet.
    FreshnessUnavailable,
    /// Anything else.
    Other,
}

/// What a group step reports to the consumer.
#[derive(Debug)]
pub struct StepReport {
    /// Local proposals.
    pub proposal_events: VecDeque<ProposalOutcome>,
    /// Applied entries.
    pub applied: VecDeque<AppliedEntry>,
    /// Read barriers.
    pub read_events: VecDeque<ReadOutcome>,
}

/// One event in the order in which the consumer takes it.
#[derive(Debug)]
pub enum ConsumerReportEvent {
    /// A local proposal.
    Proposal(ProposalOutcome),
    /// An applied entry.
    Applied(AppliedEntry),
    /// A read barrier.
    Read(ReadOutcome),
}

/// The events of a report in the order in which the consumer takes them.
pub open spec fn ordered_events(
    proposals: Seq<ProposalOutcome>,
    applied: Seq<AppliedEntry>,
    reads: Seq<ReadOutcome>,
) -> Seq<ConsumerReportEvent> {
    proposals.map_values(|event: ProposalOutcome| ConsumerReportEvent::Proposal(event))
        + applied.map_values(|event: AppliedEntry| ConsumerReportEvent::Applied(event))
        + reads.map_values(|event: ReadOutcome| ConsumerReportEvent::Read(event))
}

/// Takes the events of a report. Completions come before the grants of read barriers, so that the
/// state that a barrier confirms is never ahead of what the clients were told.
pub fn take_ordered_consumer_events(report: &mut StepReport) -> (r: Vec<ConsumerReportEvent>)
    ensures
        r@ == ordered_events(
            old(report).proposal_events@,
            old(report).applied@,
            old(report).read_events@,
        ),
        final(report).proposal_events@.len() == 0,
        final(report).applied@.len() == 0,
        final(report).read_events@.len() == 0,
{
    let ghost proposals = report.proposal_events@;
    let ghost applied = report.applied@;
    let ghost reads = report.read_events@;
    let mut events: Vec<ConsumerReportEvent> = Vec::new();
    while report.proposal_events.len() > 0
        invariant
            events@.len() + report.proposal_events@.len() == proposals.len(),
            report.proposal_events@ == proposals.skip(events@.len() as int),
            events@ == proposals.take(events@.len() as int).map_values(
                |event: ProposalOutcome| ConsumerReportEvent::Proposal(event),
            ),
            report.applied@ == applied,
            report.read_events@ == reads,
        decreases report.proposal_events@.len(),
    {
        let ghost n = events@.len() as int;
        match report.proposal_events.pop_front() {
            Some(event) => {
                assert(event == proposals[n]);
                events.push(ConsumerReportEvent::Proposal(event));
            },
            None => {},
        }
        assert(report.proposal_events@ =~= proposals.skip(n + 1));
        assert(events@ =~= proposals.take(n + 1).map_values(
            |event: ProposalOutcome| ConsumerReportEvent::Proposal(event),
        ));
    }
    assert(proposals.take(events@.len() as int) =~= proposals);
    let ghost first = events@;
    while report.applied.len() > 0
        invariant
            report.proposal_events@.len() == 0,
            first.len() + applied.len() - report.applied@.len() == events@.len(),
            report.applied@.len() <= applied.len(),
            report.applied@ == applied.skip(events@.len() - first.len()),
            events@ == first + applied.take(events@.len() - first.len()).map_values(
                |event: AppliedEntry| ConsumerReportEvent::Applied(event),
            ),
            report.read_events@ == reads,
        decreases report.applied@.len(),
    {
        let ghost n = events@.len() - first.len();
        match report.applied.pop_front() {
            Some(event) => {
                assert(event == applied[n]);
                events.push(ConsumerReportEvent::Applied(event));
            },
            None => {},
        }
        assert(report.applied@ =~= applied.skip(n + 1));
        assert(events@ =~= first + applied.take(n + 1).map_values(
            |event: AppliedEntry| ConsumerReportEvent::Applied(event),
        ));
    }
    assert(applied.take(events@.len() - first.len()) =~= applied);
    let ghost second = events@;
    while report.read_events.len() > 0
        invariant
            report.proposal_events@.len() == 0,
            report.applied@.len() == 0,
            second.len() + reads.len() - report.read_events@.len() == events@.len(),
            report.read_events@.len() <= reads.len(),
            report.read_events@ == reads.skip(events@.len() - second.len()),
            events@ == second + reads.take(events@.len() - second.len()).map_values(
                |event: ReadOutcome| ConsumerReportEvent::Read(event),
            ),
        decreases report.read_events@.len(),
    {
        let ghost n = events@.len() - second.len();
        match report.read_events.pop_front() {
            Some(event) => {
                assert(event == reads[n]);
                events.push(ConsumerReportEvent::Read(event));
            },
            None => {},
        }
        assert(report.read_events@ =~= reads.skip(n + 1));
        assert(events@ =~= second + reads.take(n + 1).map_values(
            |event: ReadOutcome| ConsumerReportEvent::Read(event),
        ));
    }
    assert(reads.take(events@.len() - second.len()) =~= reads);
    events
}

/// Bookkeeping that a step emits together with the grant of a barrier always precedes the grant.
pub proof fn law_bookkeeping_precedes_the_grant(
    proposals: Seq<ProposalOutcome>,
    applied: Seq<AppliedEntry>,
    reads: Seq<ReadOutcome>,
    i: int,
    j: int,
)
    requires
        0 <= i < ordered_events(proposals, applied, reads).len(),
        0 <= j < ordered_events(proposals, applied, reads).len(),
        ordered_events(proposals, applied, reads)[i] is Read,
        !(ordered_events(proposals, applied, reads)[j] is Read),
    ensures
        j < i,
{
}

} // verus!
