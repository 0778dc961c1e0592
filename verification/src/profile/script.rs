//! The run of a profile as a list of actions, and how each outcome is judged.

use vstd::prelude::*;

use crate::adapter::audit::{accounted, ManagedMetrics};
use crate::profile::plan::{round_budget, rounds_of, PlannedAdd, Profile, SlowGroup, WorkloadPlan};
use crate::types::{
    ClientId, GroupId, LifecycleOutcome, LifecycleRejection, LifecycleRequest, SystemClass,
    WorkQuota,
};

verus! {

/// Quota of every group of a profile.
pub const PROFILE_QUOTA: usize = 4;

/// Bound of every group's queue in a profile.
pub const PROFILE_GROUP_QUEUE: usize = 64;

/// Rounds that a reopened group may take to recover.
pub const CHURN_ROUNDS: usize = 256;

/// How a lifecycle request has to end.
#[derive(Clone, Copy, Debug, Eq, PartialEq, Structural)]
pub enum Expected {
    /// Not rejected.
    Accepted,
    /// Rejected, because the group is gone for good.
    Tombstoned,
}

/// One action of a run.
#[derive(Clone, Copy, Debug, Eq, PartialEq, Structural)]
pub enum RunAction {
    /// Registers a group.
    Register {
        /// The group.
        group_id: GroupId,
    },
    /// Starts the recovery of a group.
    Recover {
        /// The group.
        group_id: GroupId,
    },
    /// Drives the cluster until it is idle.
    Drive {
        /// Rounds that it may take.
        rounds: usize,
    },
    /// Serves a group.
    Serve {
        /// The group.
        group_id: GroupId,
    },
    /// Opens a session, which has to be queued.
    OpenSession {
        /// The group.
        group_id: GroupId,
        /// The client.
        client_id: ClientId,
    },
    /// Submits an addition, which has to be queued.
    Add {
        /// The addition.
        add: PlannedAdd,
    },
    /// Sets the accepted work aside as what the next drive has to service.
    Expect,
    /// Audits the last drive against the expectation.
    AuditBaseline,
    /// Audits the last drive against the accepted work.
    AuditMixed,
    /// Compares every addition with its completion.
    CheckHistory,
    /// Submits system traffic.
    System {
        /// The group.
        group_id: GroupId,
        /// Class of the traffic.
        class: SystemClass,
    },
    /// Slows a group down.
    SetDelay {
        /// The group and its delay.
        slow: SlowGroup,
    },
    /// Proposes a command that poisons its group.
    Fault {
        /// The group.
        group_id: GroupId,
    },
    /// Checks that the fault poisoned its group and did not complete.
    CheckPoison {
        /// The group.
        group_id: GroupId,
    },
    /// Moves a group's lifecycle.
    Lifecycle {
        /// The group.
        group_id: GroupId,
        /// The request.
        request: LifecycleRequest,
        /// How it has to end.
        expected: Expected,
    },
    /// Checks that every admitted item is accounted for and no worker is occupied.
    Conservation,
}

/// Actions that bring the first `n` groups up.
pub open(crate) spec fn registrations(n: nat) -> Seq<RunAction>
    decreases n,
{
    if n == 0 {
        Seq::empty()
    } else {
        registrations((n - 1) as nat).push(
            RunAction::Register { group_id: GroupId(n as u32) },
        ).push(RunAction::Recover { group_id: GroupId(n as u32) })
    }
}

/// Actions that serve the first `n` groups, each with one client.
pub open(crate) spec fn servings(n: nat) -> Seq<RunAction>
    decreases n,
{
    if n == 0 {
        Seq::empty()
    } else {
        servings((n - 1) as nat).push(RunAction::Serve { group_id: GroupId(n as u32) }).push(
            RunAction::OpenSession { group_id: GroupId(n as u32), client_id: ClientId(0) },
        )
    }
}

/// Actions that open the sessions of the first `n` clients of a burst.
pub open(crate) spec fn burst_sessions(group: GroupId, n: nat) -> Seq<RunAction> {
    Seq::new(
        n,
        |i: int|
            RunAction::OpenSession { group_id: group, client_id: ClientId((i + 1) as u32) },
    )
}

/// Actions that open the sessions of bursts.
pub open(crate) spec fn hot_sessions(hot: Seq<GroupId>, burst: nat) -> Seq<RunAction>
    decreases hot.len(),
{
    if hot.len() == 0 {
        Seq::empty()
    } else {
        hot_sessions(hot.drop_last(), burst) + burst_sessions(hot.last(), burst)
    }
}

/// Actions that submit additions.
pub open spec fn additions(adds: Seq<PlannedAdd>) -> Seq<RunAction> {
    Seq::new(adds.len(), |i: int| RunAction::Add { add: adds[i] })
}

/// Actions that put groups under pressure.
pub open spec fn pressures(groups: Seq<GroupId>) -> Seq<RunAction>
    decreases groups.len(),
{
    if groups.len() == 0 {
        Seq::empty()
    } else {
        pressures(groups.drop_last()).push(
            RunAction::System { group_id: groups.last(), class: SystemClass::Snapshot },
        ).push(RunAction::System { group_id: groups.last(), class: SystemClass::Bulk })
    }
}

/// Actions that slow groups down.
pub open spec fn delays(groups: Seq<SlowGroup>) -> Seq<RunAction> {
    Seq::new(groups.len(), |i: int| RunAction::SetDelay { slow: groups[i] })
}

/// One lifecycle request.
pub open spec fn moves(group_id: GroupId, request: LifecycleRequest, expected: Expected) -> RunAction {
    RunAction::Lifecycle { group_id, request, expected }
}

/// Actions that reopen a poisoned group.
pub open(crate) spec fn churn(group: GroupId) -> Seq<RunAction> {
    seq![
        moves(group, LifecycleRequest::Drain, Expected::Accepted),
        moves(group, LifecycleRequest::Remove, Expected::Accepted),
        moves(group, LifecycleRequest::Create { quota: WorkQuota(4) }, Expected::Accepted),
        moves(group, LifecycleRequest::Recover, Expected::Accepted),
        RunAction::Drive { rounds: CHURN_ROUNDS },
        moves(group, LifecycleRequest::Serve, Expected::Accepted),
    ]
}

/// Actions that retire a group for good, and try to create it again.
pub open(crate) spec fn retirement(group: GroupId) -> Seq<RunAction> {
    seq![
        moves(group, LifecycleRequest::Drain, Expected::Accepted),
        moves(group, LifecycleRequest::Remove, Expected::Accepted),
        moves(group, LifecycleRequest::Tombstone, Expected::Accepted),
        moves(group, LifecycleRequest::Create { quota: WorkQuota(4) }, Expected::Tombstoned),
    ]
}

/// The run of a plan.
pub open(crate) spec fn script_of(profile: Profile, plan: WorkloadPlan) -> Seq<RunAction> {
    let rounds = rounds_of(profile.groups);
    let drive = seq![RunAction::Drive { rounds }];
    registrations(profile.groups as nat) + drive + servings(profile.groups as nat) + hot_sessions(
        plan.hot@,
        profile.burst as nat,
    ) + drive + additions(plan.baseline@) + seq![
        RunAction::Expect,
        RunAction::Drive { rounds },
        RunAction::AuditBaseline,
        RunAction::CheckHistory,
    ] + additions(plan.bursts@) + pressures(plan.pressure@) + delays(plan.slow@) + seq![
        RunAction::Drive { rounds },
        RunAction::AuditMixed,
        RunAction::CheckHistory,
        RunAction::Fault { group_id: plan.fault },
        RunAction::Drive { rounds },
        RunAction::CheckPoison { group_id: plan.fault },
    ] + churn(plan.fault) + retirement(plan.tombstone) + seq![RunAction::Conservation]
}

fn push_registrations(script: &mut Vec<RunAction>, groups: u32)
    ensures
        final(script)@ == old(script)@ + registrations(groups as nat),
{
    let ghost start = script@;
    let mut i: u32 = 0;
    assert(start + registrations(0) =~= start);
    while i < groups
        invariant
            i <= groups,
            script@ == start + registrations(i as nat),
        decreases groups - i,
    {
        let group_id = GroupId::new(i + 1);
        script.push(RunAction::Register { group_id });
        script.push(RunAction::Recover { group_id });
        i = i + 1;
        assert(script@ =~= start + registrations(i as nat));
    }
}

fn push_servings(script: &mut Vec<RunAction>, groups: u32)
    ensures
        final(script)@ == old(script)@ + servings(groups as nat),
{
    let ghost start = script@;
    let mut i: u32 = 0;
    assert(start + servings(0) =~= start);
    while i < groups
        invariant
            i <= groups,
            script@ == start + servings(i as nat),
        decreases groups - i,
    {
        let group_id = GroupId::new(i + 1);
        script.push(RunAction::Serve { group_id });
        script.push(RunAction::OpenSession { group_id, client_id: ClientId::new(0) });
        i = i + 1;
        assert(script@ =~= start + servings(i as nat));
    }
}

fn push_sessions(script: &mut Vec<RunAction>, hot: &Vec<GroupId>, burst: u32)
    ensures
        final(script)@ == old(script)@ + hot_sessions(hot@, burst as nat),
{
    let ghost start = script@;
    let mut i: usize = 0;
    assert(hot@.take(0) =~= Seq::empty());
    assert(start + hot_sessions(hot@.take(0), burst as nat) =~= start);
    while i < hot.len()
        invariant
            i <= hot@.len(),
            script@ == start + hot_sessions(hot@.take(i as int), burst as nat),
        decreases hot@.len() - i,
    {
        let ghost before = script@;
        let ghost more = hot@.take(i + 1);
        assert(more.drop_last() =~= hot@.take(i as int));
        let mut c: u32 = 0;
        assert(before + burst_sessions(hot@[i as int], 0) =~= before);
        while c < burst
            invariant
                i < hot@.len(),
                c <= burst,
                script@ == before + burst_sessions(hot@[i as int], c as nat),
            decreases burst - c,
        {
            script.push(
                RunAction::OpenSession { group_id: hot[i], client_id: ClientId::new(c + 1) },
            );
            c = c + 1;
            assert(script@ =~= before + burst_sessions(hot@[i as int], c as nat));
        }
        assert(script@ =~= start + hot_sessions(more, burst as nat));
        i = i + 1;
    }
    assert(hot@.take(i as int) =~= hot@);
}

fn push_additions(script: &mut Vec<RunAction>, adds: &Vec<PlannedAdd>)
    ensures
        final(script)@ == old(script)@ + additions(adds@),
{
    let ghost start = script@;
    let mut i: usize = 0;
    assert(start + additions(adds@.take(0)) =~= start);
    while i < adds.len()
        invariant
            i <= adds@.len(),
            script@ == start + additions(adds@.take(i as int)),
        decreases adds@.len() - i,
    {
        script.push(RunAction::Add { add: adds[i] });
        i = i + 1;
        assert(script@ =~= start + additions(adds@.take(i as int)));
    }
    assert(adds@.take(i as int) =~= adds@);
}

fn push_pressures(script: &mut Vec<RunAction>, groups: &Vec<GroupId>)
    ensures
        final(script)@ == old(script)@ + pressures(groups@),
{
    let ghost start = script@;
    let mut i: usize = 0;
    assert(groups@.take(0) =~= Seq::empty());
    assert(start + pressures(groups@.take(0)) =~= start);
    while i < groups.len()
        invariant
            i <= groups@.len(),
            script@ == start + pressures(groups@.take(i as int)),
        decreases groups@.len() - i,
    {
        let ghost more = groups@.take(i + 1);
        assert(more.drop_last() =~= groups@.take(i as int));
        script.push(RunAction::System { group_id: groups[i], class: SystemClass::Snapshot });
        script.push(RunAction::System { group_id: groups[i], class: SystemClass::Bulk });
        assert(script@ =~= start + pressures(more));
        i = i + 1;
    }
    assert(groups@.take(i as int) =~= groups@);
}

fn push_delays(script: &mut Vec<RunAction>, groups: &Vec<SlowGroup>)
    ensures
        final(script)@ == old(script)@ + delays(groups@),
{
    let ghost start = script@;
    let mut i: usize = 0;
    assert(start + delays(groups@.take(0)) =~= start);
    while i < groups.len()
        invariant
            i <= groups@.len(),
            script@ == start + delays(groups@.take(i as int)),
        decreases groups@.len() - i,
    {
        script.push(RunAction::SetDelay { slow: groups[i] });
        i = i + 1;
        assert(script@ =~= start + delays(groups@.take(i as int)));
    }
    assert(groups@.take(i as int) =~= groups@);
}

fn push_lifecycle(
    script: &mut Vec<RunAction>,
    group_id: GroupId,
    request: LifecycleRequest,
    expected: Expected,
)
    ensures
        final(script)@ == old(script)@.push(moves(group_id, request, expected)),
{
    script.push(RunAction::Lifecycle { group_id, request, expected });
}

fn push_churn(script: &mut Vec<RunAction>, group: GroupId, quota: WorkQuota)
    requires
        quota@ == 4,
    ensures
        final(script)@ == old(script)@ + churn(group),
{
    push_lifecycle(script, group, LifecycleRequest::Drain, Expected::Accepted);
    push_lifecycle(script, group, LifecycleRequest::Remove, Expected::Accepted);
    push_lifecycle(script, group, LifecycleRequest::Create { quota }, Expected::Accepted);
    push_lifecycle(script, group, LifecycleRequest::Recover, Expected::Accepted);
    script.push(RunAction::Drive { rounds: CHURN_ROUNDS });
    push_lifecycle(script, group, LifecycleRequest::Serve, Expected::Accepted);
    assert(script@ =~= old(script)@ + churn(group));
}

fn push_retirement(script: &mut Vec<RunAction>, group: GroupId, quota: WorkQuota)
    requires
        quota@ == 4,
    ensures
        final(script)@ == old(script)@ + retirement(group),
{
    push_lifecycle(script, group, LifecycleRequest::Drain, Expected::Accepted);
    push_lifecycle(script, group, LifecycleRequest::Remove, Expected::Accepted);
    push_lifecycle(script, group, LifecycleRequest::Tombstone, Expected::Accepted);
    push_lifecycle(script, group, LifecycleRequest::Create { quota }, Expected::Tombstoned);
    assert(script@ =~= old(script)@ + retirement(group));
}

/// Writes the run of a plan: every group is brought up and served, takes one addition and is
/// audited, then bursts, pressure and slow groups are mixed and audited, then one group is poisoned
/// and reopened and another retired for good.
pub fn run(profile: Profile, plan: &WorkloadPlan) -> (r: Vec<RunAction>)
    ensures
        r@ == script_of(profile, *plan),
{
    let quota = WorkQuota(4);
    let rounds: usize = round_budget(profile.groups);
    let mut script: Vec<RunAction> = Vec::new();
    push_registrations(&mut script, profile.groups);
    assert(script@ =~= registrations(profile.groups as nat));
    script.push(RunAction::Drive { rounds });
    push_servings(&mut script, profile.groups);
    push_sessions(&mut script, &plan.hot, profile.burst);
    script.push(RunAction::Drive { rounds });
    push_additions(&mut script, &plan.baseline);
    script.push(RunAction::Expect);
    script.push(RunAction::Drive { rounds });
    script.push(RunAction::AuditBaseline);
    script.push(RunAction::CheckHistory);
    let ghost first = script@;
    proof {
        let drive = seq![RunAction::Drive { rounds }];
        assert(first =~= registrations(profile.groups as nat) + drive + servings(
            profile.groups as nat,
        ) + hot_sessions(plan.hot@, profile.burst as nat) + drive + additions(plan.baseline@)
            + seq![
            RunAction::Expect,
            RunAction::Drive { rounds },
            RunAction::AuditBaseline,
            RunAction::CheckHistory,
        ]);
    }
    push_additions(&mut script, &plan.bursts);
    push_pressures(&mut script, &plan.pressure);
    push_delays(&mut script, &plan.slow);
    script.push(RunAction::Drive { rounds });
    script.push(RunAction::AuditMixed);
    script.push(RunAction::CheckHistory);
    script.push(RunAction::Fault { group_id: plan.fault });
    script.push(RunAction::Drive { rounds });
    script.push(RunAction::CheckPoison { group_id: plan.fault });
    let ghost second = script@;
    assert(second =~= first + additions(plan.bursts@) + pressures(plan.pressure@) + delays(
        plan.slow@,
    ) + seq![
        RunAction::Drive { rounds },
        RunAction::AuditMixed,
        RunAction::CheckHistory,
        RunAction::Fault { group_id: plan.fault },
        RunAction::Drive { rounds },
        RunAction::CheckPoison { group_id: plan.fault },
    ]);
    push_churn(&mut script, plan.fault, quota);
    push_retirement(&mut script, plan.tombstone, quota);
    script.push(RunAction::Conservation);
    proof {
        assert(script@ =~= second + churn(plan.fault) + retirement(plan.tombstone) + seq![
            RunAction::Conservation,
        ]);
        assert(script@ == script_of(profile, *plan));
    }
    script
}

/// Judges how a lifecycle request ended.
pub fn judge_lifecycle(expected: Expected, outcome: LifecycleOutcome) -> (r: bool)
    ensures
        r == match expected {
            Expected::Accepted => !(outcome is Rejected),
            Expected::Tombstoned => outcome == LifecycleOutcome::Rejected(
                LifecycleRejection::GroupTombstoned,
            ),
        },
{
    match expected {
        Expected::Accepted => match outcome {
            LifecycleOutcome::Rejected(_) => false,
            _ => true,
        },
        Expected::Tombstoned => match outcome {
            LifecycleOutcome::Rejected(LifecycleRejection::GroupTombstoned) => true,
            _ => false,
        },
    }
}

/// Judges the poisoned group: the poison is published, and the fault did not complete.
pub fn judge_poison(poisoned: bool, completed: bool) -> (r: bool)
    ensures
        r == (poisoned && !completed),
{
    poisoned && !completed
}

/// Judges the final counters: every admitted item is accounted for, and no worker is occupied.
pub fn judge_conservation(metrics: ManagedMetrics) -> (r: bool)
    ensures
        r == (metrics.admitted == accounted(metrics) && metrics.occupied_workers == 0),
{
    let total: u64 = metrics.serviced.saturating_add(metrics.failed).saturating_add(
        metrics.queued as u64,
    ).saturating_add(metrics.in_flight_work as u64);
    metrics.admitted == total && metrics.occupied_workers == 0
}

/// Bounds of a run.
#[derive(Clone, Copy, Debug, Eq, PartialEq, Structural)]
pub struct RunBounds {
    /// Bound of all queues together.
    pub global_queue: usize,
    /// Messages under way.
    pub pending_messages: usize,
    /// Clients of a group.
    pub sessions: usize,
}

/// Derives the bounds of a run, if they fit.
pub fn run_bounds(profile: Profile) -> (r: Option<RunBounds>)
    ensures
        r == if profile.groups == 0 || profile.groups * 16 + 128 > usize::MAX || profile.groups
            * 128 > usize::MAX {
            None
        } else {
            Some(
                RunBounds {
                    global_queue: (profile.groups * 16 + 128) as usize,
                    pending_messages: (profile.groups * 128) as usize,
                    sessions: if profile.burst + 1 > usize::MAX {
                        usize::MAX
                    } else {
                        (profile.burst + 1) as usize
                    },
                },
            )
        },
{
    let global: u64 = profile.groups as u64 * 16 + 128;
    let pending: u64 = profile.groups as u64 * 128;
    if profile.groups == 0 || global > usize::MAX as u64 || pending > usize::MAX as u64 {
        return None;
    }
    let sessions: u64 = profile.burst as u64 + 1;
    Some(
        RunBounds {
            global_queue: global as usize,
            pending_messages: pending as usize,
            sessions: if sessions > usize::MAX as u64 {
                usize::MAX
            } else {
                sessions as usize
            },
        },
    )
}

/// Additions of a script, in order.
pub open spec fn submitted(script: Seq<RunAction>) -> Seq<PlannedAdd>
    decreases script.len(),
{
    if script.len() == 0 {
        Seq::empty()
    } else {
        match script.last() {
            RunAction::Add { add } => submitted(script.drop_last()).push(add),
            _ => submitted(script.drop_last()),
        }
    }
}

/// What two parts of a script submit is what the first and then the second submits.
proof fn lemma_submitted(a: Seq<RunAction>, b: Seq<RunAction>)
    ensures
        submitted(a + b) == submitted(a) + submitted(b),
    decreases b.len(),
{
    if b.len() == 0 {
        assert(a + b =~= a);
        assert(submitted(a) + submitted(b) =~= submitted(a));
    } else {
        assert((a + b).drop_last() =~= a + b.drop_last());
        lemma_submitted(a, b.drop_last());
        assert(submitted(a + b) =~= submitted(a) + submitted(b));
    }
}

/// Actions without an addition submit nothing.
proof fn lemma_submits_nothing(script: Seq<RunAction>)
    requires
        forall|i: int| 0 <= i < script.len() ==> !(#[trigger] script[i] is Add),
    ensures
        submitted(script) == Seq::<PlannedAdd>::empty(),
    decreases script.len(),
{
    if script.len() > 0 {
        assert(!(script[script.len() - 1] is Add));
        let rest = script.drop_last();
        assert forall|i: int| 0 <= i < rest.len() implies !(#[trigger] rest[i] is Add) by {
            assert(rest[i] == script[i]);
        }
        lemma_submits_nothing(rest);
    }
}

/// Additions submit themselves.
proof fn lemma_submits_additions(adds: Seq<PlannedAdd>)
    ensures
        submitted(additions(adds)) == adds,
    decreases adds.len(),
{
    if adds.len() == 0 {
        assert(submitted(additions(adds)) =~= adds);
    } else {
        lemma_submits_additions(adds.drop_last());
        assert(additions(adds).drop_last() =~= additions(adds.drop_last()));
        assert(submitted(additions(adds)) =~= adds);
    }
}

proof fn lemma_registrations(n: nat)
    ensures
        submitted(registrations(n)) == Seq::<PlannedAdd>::empty(),
    decreases n,
{
    if n > 0 {
        lemma_registrations((n - 1) as nat);
        let before = registrations((n - 1) as nat);
        let once = before.push(RunAction::Register { group_id: GroupId(n as u32) });
        assert(once.drop_last() =~= before);
        assert(registrations(n).drop_last() =~= once);
        reveal_with_fuel(submitted, 3);
    }
}

proof fn lemma_servings(n: nat)
    ensures
        submitted(servings(n)) == Seq::<PlannedAdd>::empty(),
    decreases n,
{
    if n > 0 {
        lemma_servings((n - 1) as nat);
        let before = servings((n - 1) as nat);
        let once = before.push(RunAction::Serve { group_id: GroupId(n as u32) });
        assert(once.drop_last() =~= before);
        assert(servings(n).drop_last() =~= once);
        reveal_with_fuel(submitted, 3);
    }
}

proof fn lemma_hot_sessions(hot: Seq<GroupId>, burst: nat)
    ensures
        submitted(hot_sessions(hot, burst)) == Seq::<PlannedAdd>::empty(),
    decreases hot.len(),
{
    if hot.len() > 0 {
        lemma_hot_sessions(hot.drop_last(), burst);
        lemma_submits_nothing(burst_sessions(hot.last(), burst));
        lemma_submitted(hot_sessions(hot.drop_last(), burst), burst_sessions(hot.last(), burst));
        assert(submitted(hot_sessions(hot, burst)) =~= Seq::<PlannedAdd>::empty());
    }
}

proof fn lemma_pressures(groups: Seq<GroupId>)
    ensures
        submitted(pressures(groups)) == Seq::<PlannedAdd>::empty(),
    decreases groups.len(),
{
    if groups.len() > 0 {
        lemma_pressures(groups.drop_last());
        let before = pressures(groups.drop_last());
        let once = before.push(
            RunAction::System { group_id: groups.last(), class: SystemClass::Snapshot },
        );
        assert(once.drop_last() =~= before);
        assert(pressures(groups).drop_last() =~= once);
        reveal_with_fuel(submitted, 3);
    }
}

/// The run submits exactly the additions that the replay history lists, in the same order.
pub proof fn law_run_submits_the_replay_history(profile: Profile, plan: WorkloadPlan)
    ensures
        submitted(script_of(profile, plan)) == plan.baseline@ + plan.bursts@,
{
    let rounds = rounds_of(profile.groups);
    let drive = seq![RunAction::Drive { rounds }];
    let n = profile.groups as nat;
    let middle = seq![
        RunAction::Expect,
        RunAction::Drive { rounds },
        RunAction::AuditBaseline,
        RunAction::CheckHistory,
    ];
    let tail = seq![
        RunAction::Drive { rounds },
        RunAction::AuditMixed,
        RunAction::CheckHistory,
        RunAction::Fault { group_id: plan.fault },
        RunAction::Drive { rounds },
        RunAction::CheckPoison { group_id: plan.fault },
    ];
    let end = seq![RunAction::Conservation];
    let p1 = registrations(n);
    let p2 = p1 + drive;
    let p3 = p2 + servings(n);
    let p4 = p3 + hot_sessions(plan.hot@, profile.burst as nat);
    let p5 = p4 + drive;
    let p6 = p5 + additions(plan.baseline@);
    let p7 = p6 + middle;
    let p8 = p7 + additions(plan.bursts@);
    let p9 = p8 + pressures(plan.pressure@);
    let p10 = p9 + delays(plan.slow@);
    let p11 = p10 + tail;
    let p12 = p11 + churn(plan.fault);
    let p13 = p12 + retirement(plan.tombstone);
    lemma_registrations(n);
    lemma_servings(n);
    lemma_hot_sessions(plan.hot@, profile.burst as nat);
    lemma_pressures(plan.pressure@);
    lemma_submits_nothing(drive);
    lemma_submits_nothing(middle);
    lemma_submits_nothing(tail);
    lemma_submits_nothing(end);
    lemma_submits_nothing(delays(plan.slow@));
    lemma_submits_nothing(churn(plan.fault));
    lemma_submits_nothing(retirement(plan.tombstone));
    lemma_submits_additions(plan.baseline@);
    lemma_submits_additions(plan.bursts@);
    lemma_submitted(p1, drive);
    lemma_submitted(p2, servings(n));
    lemma_submitted(p3, hot_sessions(plan.hot@, profile.burst as nat));
    lemma_submitted(p4, drive);
    lemma_submitted(p5, additions(plan.baseline@));
    lemma_submitted(p6, middle);
    lemma_submitted(p7, additions(plan.bursts@));
    lemma_submitted(p8, pressures(plan.pressure@));
    lemma_submitted(p9, delays(plan.slow@));
    lemma_submitted(p10, tail);
    lemma_submitted(p11, churn(plan.fault));
    lemma_submitted(p12, retirement(plan.tombstone));
    lemma_submitted(p13, end);
    assert(submitted(p13 + end) =~= plan.baseline@ + plan.bursts@);
}

} // verus!
