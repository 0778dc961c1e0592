//! What a profile submitted, what it expects of it, and the artifacts that it leaves.

use vstd::prelude::*;
use vstd::string::StringExecFns;

use crate::adapter::audit::{
    AcceptanceAuditReport, AcceptanceExpectation, ExpectedWork, ManagedMetrics,
};
use crate::adapter::cluster::state::{group_key, session_key};
use crate::adapter::cluster::{CounterSubmitOutcome, ManagedCounterCluster};
use crate::adapter::state_machine::CounterApplyResult;
use crate::profile::mixed::MixedAudit;
use crate::profile::plan::{PlannedAdd, Profile};
use crate::profile::script::PROFILE_QUOTA;
use crate::table::Table;
use crate::text::{append_number, append_signed, decimal, signed_decimal};
use crate::types::{
    fingerprint_of, ClientId, CounterCommand, CounterResult, Delta, GroupId, RequestFingerprint,
    RequestIdentity, Sequence, SessionEpoch, SystemClass, WorkClass,
};

verus! {

/// One addition that was queued, and the value that it has to give.
#[derive(Clone, Copy, Debug, Eq, PartialEq, Structural)]
pub struct HistoryEntry {
    /// Proposal that carries it.
    pub proposal: u64,
    /// Its group.
    pub group: GroupId,
    /// Its client.
    pub client: ClientId,
    /// Its sequence number.
    pub sequence: Sequence,
    /// Its delta.
    pub delta: i64,
    /// Value of the counter after it.
    pub expected: i64,
}

/// What a profile submitted.
#[derive(Debug)]
pub struct Workload {
    sequences: Table<u64>,
    expected_values: Table<i64>,
    history: Vec<HistoryEntry>,
    accepted: Vec<ExpectedWork>,
}

/// What a profile submitted.
#[verifier::ext_equal]
pub struct WorkloadState {
    /// Last sequence number by group and client.
    pub sequences: Map<u64, u64>,
    /// Expected value by group.
    pub values: Map<u64, i64>,
    /// Queued additions, oldest first.
    pub history: Seq<HistoryEntry>,
    /// Accepted work that no audit took yet, oldest first.
    pub accepted: Seq<ExpectedWork>,
}

/// Sum of a group's deltas.
pub open spec fn delta_sum(history: Seq<HistoryEntry>, group: GroupId) -> int
    decreases history.len(),
{
    if history.len() == 0 {
        0
    } else {
        delta_sum(history.drop_last(), group) + if history.last().group == group {
            history.last().delta as int
        } else {
            0
        }
    }
}

impl WorkloadState {
    /// Last sequence number of a client.
    pub open spec fn last_sequence(self, group: GroupId, client: ClientId) -> u64 {
        if self.sequences.contains_key(session_key(group, client)) {
            self.sequences[session_key(group, client)]
        } else {
            0
        }
    }

    /// Expected value of a group.
    pub open spec fn value(self, group: GroupId) -> i64 {
        if self.values.contains_key(group_key(group)) {
            self.values[group_key(group)]
        } else {
            0
        }
    }

    /// Every value is the sum of the group's deltas, and no entry is ahead of its client.
    pub open spec fn valid(self) -> bool {
        &&& forall|group: GroupId| #[trigger] self.value(group) == delta_sum(self.history, group)
        &&& forall|i: int|
            0 <= i < self.history.len() ==> (#[trigger] self.history[i]).expected == delta_sum(
                self.history.take(i + 1),
                self.history[i].group,
            ) && self.history[i].sequence@ <= self.last_sequence(
                self.history[i].group,
                self.history[i].client,
            )
        &&& forall|i: int, j: int|
            #![trigger self.history[i], self.history[j]]
            0 <= i < j < self.history.len() && self.history[i].group == self.history[j].group
                && self.history[i].client == self.history[j].client
                ==> self.history[i].sequence@ < self.history[j].sequence@
    }

    /// The addition can be submitted: it is not zero, and the sequence number has a successor.
    pub open spec fn can_add(self, add: PlannedAdd) -> bool {
        add.delta != 0 && self.last_sequence(add.group_id, add.client_id) < u64::MAX
    }

    /// The expected value has room for the addition.
    pub open spec fn has_room(self, add: PlannedAdd) -> bool {
        i64::MIN <= self.value(add.group_id) + add.delta <= i64::MAX
    }

    /// The client's sequence number is used.
    pub open spec fn used(self, add: PlannedAdd) -> Self {
        WorkloadState {
            sequences: self.sequences.insert(
                session_key(add.group_id, add.client_id),
                (self.last_sequence(add.group_id, add.client_id) + 1) as u64,
            ),
            ..self
        }
    }

    /// The addition was queued with the given proposal and work item.
    pub open(crate) spec fn queued(self, add: PlannedAdd, proposal: u64, work_id: u64) -> Self {
        let expected = (self.value(add.group_id) + add.delta) as i64;
        let used = self.used(add);
        WorkloadState {
            values: used.values.insert(group_key(add.group_id), expected),
            history: used.history.push(
                HistoryEntry {
                    proposal,
                    group: add.group_id,
                    client: add.client_id,
                    sequence: Sequence(
                        (self.last_sequence(add.group_id, add.client_id) + 1) as u64,
                    ),
                    delta: add.delta,
                    expected,
                },
            ),
            accepted: used.accepted.push(
                ExpectedWork { work_id, group_id: add.group_id, class: WorkClass::Command },
            ),
            ..used
        }
    }
}

/// Groups `1` to `n`, in order.
pub open(crate) spec fn all_groups(n: nat) -> Seq<GroupId> {
    Seq::new(n, |i: int| GroupId((i + 1) as u32))
}

/// The quotas of groups `1` to `n`.
pub open spec fn all_quotas(n: nat) -> Map<u64, usize> {
    Map::new(|key: u64| 1 <= key <= n, |key: u64| PROFILE_QUOTA)
}

/// Request that carries an addition.
pub open(crate) spec fn request_of(add: PlannedAdd, sequence: u64) -> RequestIdentity {
    RequestIdentity {
        client_id: add.client_id,
        session_epoch: SessionEpoch(1),
        sequence: Sequence(sequence),
        fingerprint: RequestFingerprint(
            fingerprint_of(CounterCommand::Add { delta: Delta(add.delta) }),
        ),
    }
}

fn client_key(group: GroupId, client: ClientId) -> (r: u64)
    ensures
        r == session_key(group, client),
{
    group.get() as u64 * 0x1_0000_0000 + client.get() as u64
}

impl Workload {
    /// What was submitted.
    pub closed spec fn state(self) -> WorkloadState {
        WorkloadState {
            sequences: self.sequences@,
            values: self.expected_values@,
            history: self.history@,
            accepted: self.accepted@,
        }
    }

    /// Well-formedness.
    pub closed spec fn wf(self) -> bool {
        &&& self.sequences.wf()
        &&& self.expected_values.wf()
        &&& self.state().valid()
    }

    /// Every value is the sum of the group's deltas, and no entry is ahead of its client.
    pub proof fn law_books_stay_consistent(self)
        requires
            self.wf(),
        ensures
            self.state().valid(),
    {
    }

    /// Creates a workload with nothing submitted.
    pub fn new() -> (r: Self)
        ensures
            r.wf(),
            r.state() == (WorkloadState {
                sequences: Map::empty(),
                values: Map::empty(),
                history: Seq::empty(),
                accepted: Seq::empty(),
            }),
    {
        Self {
            sequences: Table::new(),
            expected_values: Table::new(),
            history: Vec::new(),
            accepted: Vec::new(),
        }
    }

    fn last_of(&self, group: GroupId, client: ClientId) -> (r: u64)
        requires
            self.wf(),
        ensures
            r == self.state().last_sequence(group, client),
    {
        match self.sequences.get(client_key(group, client)) {
            Some(sequence) => sequence,
            None => 0,
        }
    }

    fn value_of(&self, group: GroupId) -> (r: i64)
        requires
            self.wf(),
        ensures
            r == self.state().value(group),
    {
        match self.expected_values.get(group.get() as u64) {
            Some(value) => value,
            None => 0,
        }
    }

    /// Returns whether an addition can be submitted and counted.
    pub fn takes(&self, add: PlannedAdd) -> (r: bool)
        requires
            self.wf(),
        ensures
            r == (self.state().can_add(add) && self.state().has_room(add)),
    {
        add.delta != 0 && self.last_of(add.group_id, add.client_id) < u64::MAX && self.value_of(
            add.group_id,
        ).checked_add(add.delta).is_some()
    }

    /// Makes the request of an addition: the client's next sequence number, in its only session.
    pub fn next_request(&self, add: PlannedAdd) -> (r: (RequestIdentity, CounterCommand))
        requires
            self.wf(),
            self.state().can_add(add),
        ensures
            r.0 == request_of(
                add,
                (self.state().last_sequence(add.group_id, add.client_id) + 1) as u64,
            ),
            r.1 matches CounterCommand::Add { delta } && delta@ == add.delta,
            r.0.valid(),
            r.1.valid(),
    {
        let command = CounterCommand::Add { delta: Delta(add.delta) };
        let sequence: u64 = self.last_of(add.group_id, add.client_id) + 1;
        (
            RequestIdentity {
                client_id: add.client_id,
                session_epoch: SessionEpoch(1),
                sequence: Sequence(sequence),
                fingerprint: RequestFingerprint::of(&command),
            },
            command,
        )
    }

    /// Records how the request of an addition was answered. A fresh request has to be queued: any
    /// other answer is handed back, and the sequence number is used all the same.
    pub fn admit_add(&mut self, add: PlannedAdd, outcome: CounterSubmitOutcome) -> (r: Result<
        (),
        CounterSubmitOutcome,
    >)
        requires
            old(self).wf(),
            old(self).state().can_add(add),
            outcome is Queued ==> old(self).state().has_room(add),
        ensures
            final(self).wf(),
            match outcome {
                CounterSubmitOutcome::Queued(receipt) => r is Ok && final(self).state() == old(
                    self,
                ).state().queued(add, receipt.proposal_id, receipt.admission.work_id),
                _ => r == Err::<(), CounterSubmitOutcome>(outcome) && final(self).state() == old(
                    self,
                ).state().used(add),
            },
    {
        let ghost before = self.state();
        let sequence: u64 = self.last_of(add.group_id, add.client_id) + 1;
        let value: i64 = self.value_of(add.group_id);
        self.sequences.insert(client_key(add.group_id, add.client_id), sequence);
        match outcome {
            CounterSubmitOutcome::Queued(receipt) => {
                let expected: i64 = value + add.delta;
                self.expected_values.insert(add.group_id.get() as u64, expected);
                self.history.push(
                    HistoryEntry {
                        proposal: receipt.proposal_id,
                        group: add.group_id,
                        client: add.client_id,
                        sequence: Sequence(sequence),
                        delta: add.delta,
                        expected,
                    },
                );
                self.accepted.push(
                    ExpectedWork {
                        work_id: receipt.admission.work_id,
                        group_id: add.group_id,
                        class: WorkClass::Command,
                    },
                );
                proof {
                    let after = before.queued(
                        add,
                        receipt.proposal_id,
                        receipt.admission.work_id,
                    );
                    assert(self.state() =~= after);
                    lemma_queued(before, add, receipt.proposal_id, receipt.admission.work_id);
                }
                Ok(())
            },
            other => {
                proof {
                    assert(self.state() =~= before.used(add));
                    lemma_used(before, add);
                }
                Err(other)
            },
        }
    }

    /// Records system traffic that was accepted.
    pub fn admit_system(&mut self, group: GroupId, class: SystemClass, work_id: u64)
        requires
            old(self).wf(),
        ensures
            final(self).wf(),
            final(self).state() == (WorkloadState {
                accepted: old(self).state().accepted.push(
                    ExpectedWork { work_id, group_id: group, class: class.class() },
                ),
                ..old(self).state()
            }),
    {
        let ghost before = self.state();
        self.accepted.push(ExpectedWork { work_id, group_id: group, class: class.class() });
        proof {
            lemma_unchanged(before, self.state());
        }
    }

    /// Takes the accepted work as the expectation of the next run: groups `1` to `groups` are
    /// ready, each with the profile's quota.
    pub fn expectation(&mut self, groups: u32) -> (r: AcceptanceExpectation)
        requires
            old(self).wf(),
        ensures
            final(self).wf(),
            final(self).state() == (WorkloadState {
                accepted: Seq::empty(),
                ..old(self).state()
            }),
            r.accepted@ == old(self).state().accepted,
            r.ready@ == all_groups(groups as nat),
            r.quotas.wf(),
            r.quotas@ == all_quotas(groups as nat),
    {
        let ghost before = self.state();
        let mut ready: Vec<GroupId> = Vec::new();
        let mut quotas: Table<usize> = Table::new();
        let mut i: u32 = 0;
        assert(quotas@ =~= all_quotas(0));
        while i < groups
            invariant
                i <= groups,
                ready@ == all_groups(i as nat),
                quotas.wf(),
                quotas@ == all_quotas(i as nat),
            decreases groups - i,
        {
            ready.push(GroupId::new(i + 1));
            quotas.insert((i + 1) as u64, PROFILE_QUOTA);
            i = i + 1;
            assert(ready@ =~= all_groups(i as nat));
            assert(quotas@ =~= all_quotas(i as nat));
        }
        let mut accepted: Vec<ExpectedWork> = Vec::new();
        std::mem::swap(&mut accepted, &mut self.accepted);
        proof {
            lemma_unchanged(before, self.state());
        }
        AcceptanceExpectation { ready, accepted, quotas }
    }

    /// Returns the queued additions.
    pub fn history(&self) -> (r: &Vec<HistoryEntry>)
        ensures
            r@ == self.state().history,
    {
        &self.history
    }

    /// Returns the accepted work that no audit took yet.
    pub fn accepted(&self) -> (r: &Vec<ExpectedWork>)
        ensures
            r@ == self.state().accepted,
    {
        &self.accepted
    }
}

proof fn lemma_unchanged(before: WorkloadState, after: WorkloadState)
    requires
        before.valid(),
        before.history == after.history,
        before.values == after.values,
        before.sequences == after.sequences,
    ensures
        after.valid(),
{
    assert forall|group: GroupId| #[trigger]
        after.value(group) == delta_sum(after.history, group) by {
        assert(before.value(group) == delta_sum(before.history, group));
    }
    assert forall|i: int| 0 <= i < after.history.len() implies (
    #[trigger] after.history[i]).expected == delta_sum(
        after.history.take(i + 1),
        after.history[i].group,
    ) && after.history[i].sequence@ <= after.last_sequence(
        after.history[i].group,
        after.history[i].client,
    ) by {
        assert(before.history[i].sequence@ <= before.last_sequence(
            before.history[i].group,
            before.history[i].client,
        ));
    }
}

/// A used sequence number keeps everything valid.
proof fn lemma_used(before: WorkloadState, add: PlannedAdd)
    requires
        before.valid(),
        before.can_add(add),
    ensures
        before.used(add).valid(),
        forall|group: GroupId, client: ClientId|
            #[trigger] before.used(add).last_sequence(group, client) >= before.last_sequence(
                group,
                client,
            ),
{
    let after = before.used(add);
    assert forall|group: GroupId, client: ClientId| #[trigger]
        after.last_sequence(group, client) >= before.last_sequence(group, client) by {
        if session_key(group, client) == session_key(add.group_id, add.client_id) {
            assert(group == add.group_id && client == add.client_id);
        }
    }
    assert forall|group: GroupId| #[trigger]
        after.value(group) == delta_sum(after.history, group) by {
        assert(before.value(group) == delta_sum(before.history, group));
    }
    assert forall|i: int| 0 <= i < after.history.len() implies (
    #[trigger] after.history[i]).expected == delta_sum(
        after.history.take(i + 1),
        after.history[i].group,
    ) && after.history[i].sequence@ <= after.last_sequence(
        after.history[i].group,
        after.history[i].client,
    ) by {
        assert(before.history[i].sequence@ <= before.last_sequence(
            before.history[i].group,
            before.history[i].client,
        ));
    }
}

/// A queued addition keeps everything valid.
proof fn lemma_queued(before: WorkloadState, add: PlannedAdd, proposal: u64, work_id: u64)
    requires
        before.valid(),
        before.can_add(add),
        before.has_room(add),
    ensures
        before.queued(add, proposal, work_id).valid(),
{
    let used = before.used(add);
    let after = before.queued(add, proposal, work_id);
    lemma_used(before, add);
    let entry = after.history.last();
    assert(after.history.drop_last() =~= before.history);
    assert(after.last_sequence(add.group_id, add.client_id) == entry.sequence@);
    assert forall|group: GroupId, client: ClientId| #[trigger]
        after.last_sequence(group, client) == used.last_sequence(group, client) by {}
    assert forall|group: GroupId| #[trigger]
        after.value(group) == delta_sum(after.history, group) by {
        assert(before.value(group) == delta_sum(before.history, group));
    }
    assert(after.value(add.group_id) == entry.expected);
    assert forall|i: int| 0 <= i < after.history.len() implies (
    #[trigger] after.history[i]).expected == delta_sum(
        after.history.take(i + 1),
        after.history[i].group,
    ) && after.history[i].sequence@ <= after.last_sequence(
        after.history[i].group,
        after.history[i].client,
    ) by {
        if i < before.history.len() {
            assert(after.history[i] == used.history[i]);
            assert(after.history.take(i + 1) =~= used.history.take(i + 1));
            assert(used.history[i].sequence@ <= used.last_sequence(
                used.history[i].group,
                used.history[i].client,
            ));
        } else {
            assert(after.history.take(i + 1) =~= after.history);
        }
    }
    assert forall|i: int, j: int|
        #![trigger after.history[i], after.history[j]]
        0 <= i < j < after.history.len() && after.history[i].group == after.history[j].group
            && after.history[i].client == after.history[j].client implies after.history[i].sequence@
        < after.history[j].sequence@ by {
        assert(after.history[i] == before.history[i]);
        if j < before.history.len() {
            assert(after.history[j] == before.history[j]);
        } else {
            assert(before.history[i].sequence@ <= before.last_sequence(
                before.history[i].group,
                before.history[i].client,
            ));
        }
    }
}

/// Every queued addition is expected to give the sum of its group's deltas up to it.
pub proof fn law_history_expects_the_running_sum(workload: Workload, i: int)
    requires
        workload.wf(),
        0 <= i < workload.state().history.len(),
    ensures
        workload.state().history[i].expected == delta_sum(
            workload.state().history.take(i + 1),
            workload.state().history[i].group,
        ),
{
}

/// No two queued additions of a client carry the same sequence number: each is a fresh request.
pub proof fn law_profile_requests_are_fresh(workload: Workload, i: int, j: int)
    requires
        workload.wf(),
        0 <= i < j < workload.state().history.len(),
        workload.state().history[i].group == workload.state().history[j].group,
        workload.state().history[i].client == workload.state().history[j].client,
    ensures
        workload.state().history[i].sequence@ < workload.state().history[j].sequence@,
{
}

// ------------------------------------------------------------------ checking

/// What is wrong with a history.
#[derive(Clone, Copy, Debug, Eq, PartialEq, Structural)]
pub enum HistoryFault {
    /// Nothing was submitted.
    Empty,
    /// An addition did not complete as expected.
    Mismatch {
        /// The addition.
        entry: HistoryEntry,
        /// How it completed.
        observed: Option<CounterApplyResult>,
    },
}

/// How a proposal completed.
pub open spec fn completion(completed: Map<u64, CounterApplyResult>, proposal: u64) -> Option<
    CounterApplyResult,
> {
    if completed.contains_key(proposal) {
        Some(completed[proposal])
    } else {
        None
    }
}

/// How an addition has to complete.
pub open spec fn expected_result(entry: HistoryEntry) -> Option<CounterApplyResult> {
    Some(CounterApplyResult::Counter(CounterResult::Added { value: entry.expected }))
}

/// The addition completed as expected.
pub open spec fn completes_as_expected(completed: Map<u64, CounterApplyResult>, entry: HistoryEntry) -> bool {
    completion(completed, entry.proposal) == expected_result(entry)
}

/// Checks that every addition completed with the value that it has to give.
pub fn check_history(cluster: &ManagedCounterCluster, history: &Vec<HistoryEntry>) -> (r: Result<
    (),
    HistoryFault,
>)
    requires
        cluster.wf(),
    ensures
        r is Ok <==> history@.len() > 0 && forall|i: int|
            0 <= i < history@.len() ==> completes_as_expected(cluster.state().completed, #[trigger] history@[i]),
        r == Err::<(), HistoryFault>(HistoryFault::Empty) <==> history@.len() == 0,
        r matches Err(HistoryFault::Mismatch { entry, observed }) ==> observed == completion(
            cluster.state().completed,
            entry.proposal,
        ) && exists|i: int|
            0 <= i < history@.len() && #[trigger] history@[i] == entry && !completes_as_expected(
                cluster.state().completed,
                history@[i],
            ) && forall|k: int|
                0 <= k < i ==> completes_as_expected(cluster.state().completed, #[trigger] history@[k]),
{
    if history.len() == 0 {
        return Err(HistoryFault::Empty);
    }
    let mut i: usize = 0;
    while i < history.len()
        invariant
            cluster.wf(),
            0 < history@.len(),
            i <= history@.len(),
            forall|k: int|
                0 <= k < i ==> completes_as_expected(cluster.state().completed, #[trigger] history@[k]),
        decreases history@.len() - i,
    {
        let entry = history[i];
        let observed = cluster.completed(entry.proposal);
        let expected = CounterApplyResult::Counter(CounterResult::Added { value: entry.expected });
        if observed != Some(expected) {
            assert(history@[i as int] == entry);
            return Err(HistoryFault::Mismatch { entry, observed });
        }
        i = i + 1;
    }
    Ok(())
}

// ----------------------------------------------------------------- artifacts

/// Line of a queued addition.
pub open(crate) spec fn history_line(entry: HistoryEntry) -> Seq<char> {
    decimal(entry.proposal as nat) + "\t"@ + decimal(entry.group@ as nat) + "\t"@ + decimal(
        entry.client@ as nat,
    ) + "\t"@ + decimal(entry.sequence@ as nat) + "\t"@ + signed_decimal(entry.delta as int)
        + "\t"@ + signed_decimal(entry.expected as int) + "\tmatch\n"@
}

/// Lines of queued additions.
pub open(crate) spec fn history_lines(history: Seq<HistoryEntry>) -> Seq<char>
    decreases history.len(),
{
    if history.len() == 0 {
        Seq::empty()
    } else {
        history_lines(history.drop_last()) + history_line(history.last())
    }
}

/// Renders the history of a run whose additions all matched.
pub fn render_history(history: &Vec<HistoryEntry>) -> (r: String)
    ensures
        r@ == "proposal\tgroup\tclient\tsequence\tdelta\texpected_value\tobserved\n"@
            + history_lines(history@),
{
    let mut text =
        "proposal\tgroup\tclient\tsequence\tdelta\texpected_value\tobserved\n".to_owned();
    let ghost start = text@;
    let mut i: usize = 0;
    assert(history@.take(0) =~= Seq::empty());
    assert(start + history_lines(history@.take(0)) =~= start);
    while i < history.len()
        invariant
            i <= history@.len(),
            text@ == start + history_lines(history@.take(i as int)),
        decreases history@.len() - i,
    {
        let ghost before = text@;
        let ghost more = history@.take(i + 1);
        assert(more.drop_last() =~= history@.take(i as int));
        let entry = history[i];
        append_number(&mut text, entry.proposal);
        text.append("\t");
        append_number(&mut text, entry.group.get() as u64);
        text.append("\t");
        append_number(&mut text, entry.client.get() as u64);
        text.append("\t");
        append_number(&mut text, entry.sequence.get());
        text.append("\t");
        append_signed(&mut text, entry.delta);
        text.append("\t");
        append_signed(&mut text, entry.expected);
        text.append("\tmatch\n");
        assert(text@ =~= before + history_line(entry));
        assert(text@ =~= start + history_lines(more));
        i = i + 1;
    }
    assert(history@.take(i as int) =~= history@);
    text
}

/// Renders the fairness of a run.
pub fn render_fairness(baseline: AcceptanceAuditReport, mixed: MixedAudit) -> (r: String)
    ensures
        r@ == "baseline_passes="@ + decimal(baseline.passes as nat) + "\nbaseline_opportunities="@
            + decimal(baseline.opportunities as nat) + "\nbaseline_ready_width="@ + decimal(
            baseline.ready_width as nat,
        ) + "\nbaseline_widest_gap="@ + decimal(baseline.widest_gap as nat) + "\nmixed_passes="@
            + decimal(mixed.passes as nat) + "\nmixed_opportunities="@ + decimal(
            mixed.opportunities as nat,
        ) + "\nmixed_ready_width="@ + decimal(mixed.ready_width as nat) + "\nmixed_widest_gap="@
            + decimal(mixed.widest_gap as nat) + "\nmixed_observed_work="@ + decimal(
            mixed.observed_work as nat,
        ) + "\n"@,
{
    let mut text = "baseline_passes=".to_owned();
    append_number(&mut text, baseline.passes as u64);
    text.append("\nbaseline_opportunities=");
    append_number(&mut text, baseline.opportunities as u64);
    text.append("\nbaseline_ready_width=");
    append_number(&mut text, baseline.ready_width as u64);
    text.append("\nbaseline_widest_gap=");
    append_number(&mut text, baseline.widest_gap as u64);
    text.append("\nmixed_passes=");
    append_number(&mut text, mixed.passes as u64);
    text.append("\nmixed_opportunities=");
    append_number(&mut text, mixed.opportunities as u64);
    text.append("\nmixed_ready_width=");
    append_number(&mut text, mixed.ready_width as u64);
    text.append("\nmixed_widest_gap=");
    append_number(&mut text, mixed.widest_gap as u64);
    text.append("\nmixed_observed_work=");
    append_number(&mut text, mixed.observed_work as u64);
    text.append("\n");
    text
}

/// Renders the conserved counters of a run.
pub fn render_conservation(metrics: ManagedMetrics) -> (r: String)
    ensures
        r@ == "admitted="@ + decimal(metrics.admitted as nat) + "\nserviced="@ + decimal(
            metrics.serviced as nat,
        ) + "\nfailed="@ + decimal(metrics.failed as nat) + "\nqueued="@ + decimal(
            metrics.queued as nat,
        ) + "\nin_flight="@ + decimal(metrics.in_flight_work as nat) + "\noccupied_workers="@
            + decimal(metrics.occupied_workers as nat) + "\nconserved=true\n"@,
{
    let mut text = "admitted=".to_owned();
    append_number(&mut text, metrics.admitted);
    text.append("\nserviced=");
    append_number(&mut text, metrics.serviced);
    text.append("\nfailed=");
    append_number(&mut text, metrics.failed);
    text.append("\nqueued=");
    append_number(&mut text, metrics.queued as u64);
    text.append("\nin_flight=");
    append_number(&mut text, metrics.in_flight_work as u64);
    text.append("\noccupied_workers=");
    append_number(&mut text, metrics.occupied_workers as u64);
    text.append("\nconserved=true\n");
    text
}

/// Renders the summary of a run.
pub fn render_summary(profile: Profile, seed: u64, entries: usize, completed: usize) -> (r: String)
    ensures
        r@ == "status=green\nprofile="@ + profile.name.text() + "\nseed="@ + decimal(seed as nat)
            + "\ngroups="@ + decimal(profile.groups as nat) + "\nhistory_entries="@ + decimal(
            entries as nat,
        ) + "\ncompleted_proposals="@ + decimal(completed as nat) + "\n"@,
{
    let mut text = "status=green\nprofile=".to_owned();
    text.append(profile.name.as_str());
    text.append("\nseed=");
    append_number(&mut text, seed);
    text.append("\ngroups=");
    append_number(&mut text, profile.groups as u64);
    text.append("\nhistory_entries=");
    append_number(&mut text, entries as u64);
    text.append("\ncompleted_proposals=");
    append_number(&mut text, completed as u64);
    text.append("\n");
    text
}

/// Renders the shape of a profile.
pub fn render_profile(profile: Profile) -> (r: String)
    ensures
        r@ == "name="@ + profile.name.text() + "\ngroups="@ + decimal(profile.groups as nat)
            + "\nhot_groups="@ + decimal(profile.hot_groups as nat) + "\nburst="@ + decimal(
            profile.burst as nat,
        ) + "\npressure_groups="@ + decimal(profile.pressure_groups as nat) + "\nslow_groups="@
            + decimal(profile.slow_groups as nat) + "\nworkers="@ + decimal(profile.workers as nat)
            + "\nbudget_ms="@ + decimal(profile.budget_ms as nat) + "\n"@,
{
    let mut text = "name=".to_owned();
    text.append(profile.name.as_str());
    text.append("\ngroups=");
    append_number(&mut text, profile.groups as u64);
    text.append("\nhot_groups=");
    append_number(&mut text, profile.hot_groups as u64);
    text.append("\nburst=");
    append_number(&mut text, profile.burst as u64);
    text.append("\npressure_groups=");
    append_number(&mut text, profile.pressure_groups as u64);
    text.append("\nslow_groups=");
    append_number(&mut text, profile.slow_groups as u64);
    text.append("\nworkers=");
    append_number(&mut text, profile.workers as u64);
    text.append("\nbudget_ms=");
    append_number(&mut text, profile.budget_ms);
    text.append("\n");
    text
}

} // verus!
