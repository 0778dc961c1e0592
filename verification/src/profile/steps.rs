//! What a plan is made of, what a run does in which order, and how its books are kept.

use vstd::prelude::*;

use crate::adapter::audit::{AcceptanceExpectation, ManagedMetrics};
use crate::adapter::cluster::state::session_key;
use crate::adapter::cluster::{CounterSubmitOutcome, ManagedCounterCluster};
use crate::adapter::state_machine::CounterApplyResult;
use crate::profile::plan::{
    add_line, add_lines, delta_at, hot_adds, plan_workload, pressure_line, pressure_lines,
    random_delta, replay_history, rng_after, rng_next, round_budget, selected_group, slow_lines,
    PlannedAdd, Profile, ProfileName, Rng, WorkloadPlan,
};
use crate::profile::script::{
    judge_conservation, judge_lifecycle, judge_poison, registrations, run, run_bounds, servings,
    Expected, RunAction, RunBounds,
};
use crate::profile::workload::{check_history, render_history, HistoryEntry, HistoryFault, Workload};
use crate::text::{decimal, signed_decimal};
use crate::types::{
    ClientId, CounterCommand, CounterResult, GroupId, LifecycleOutcome, LifecycleRejection,
    LifecycleRequest, RequestIdentity, SystemClass, WorkClass,
};

verus! {

// ---------------------------------------------------------------------- chance

/// No state of the generator is lost: the state before a draw can be worked out from the state after.
pub proof fn law_draws_can_be_undone(rng: &mut Rng, r: u64)
    requires
        call_ensures(Rng::next, (rng,), r),
    ensures
        r == final(rng)@,
        ({
            let b = r ^ (r << 17) ^ (r << 34) ^ (r << 51);
            let a = b ^ (b >> 7) ^ (b >> 14) ^ (b >> 21) ^ (b >> 28) ^ (b >> 35) ^ (b >> 42) ^ (b
                >> 49) ^ (b >> 56) ^ (b >> 63);
            old(rng)@ == a ^ (a << 13) ^ (a << 26) ^ (a << 39) ^ (a << 52)
        }),
{
    let s = old(rng)@;
    let a0 = s ^ (s << 13);
    let b0 = a0 ^ (a0 >> 7);
    let b = r ^ (r << 17) ^ (r << 34) ^ (r << 51);
    assert(b == b0) by (bit_vector)
        requires
            r == b0 ^ (b0 << 17),
            b == r ^ (r << 17) ^ (r << 34) ^ (r << 51),
    ;
    let a = b ^ (b >> 7) ^ (b >> 14) ^ (b >> 21) ^ (b >> 28) ^ (b >> 35) ^ (b >> 42) ^ (b >> 49) ^ (b
        >> 56) ^ (b >> 63);
    assert(a == a0) by (bit_vector)
        requires
            b == a0 ^ (a0 >> 7),
            a == b ^ (b >> 7) ^ (b >> 14) ^ (b >> 21) ^ (b >> 28) ^ (b >> 35) ^ (b >> 42) ^ (b >> 49)
                ^ (b >> 56) ^ (b >> 63),
    ;
    assert(s == a ^ (a << 13) ^ (a << 26) ^ (a << 39) ^ (a << 52)) by (bit_vector)
        requires
            a == s ^ (s << 13),
    ;
}

/// A planned addition is worth one to nine, by the first of two draws, up where the second is even and
/// down where it is odd.
pub proof fn law_deltas_come_from_two_draws(
    first: &mut Rng,
    size: u64,
    second: &mut Rng,
    sign: u64,
    rng: &mut Rng,
    r: i64,
)
    requires
        call_ensures(Rng::next, (first,), size),
        call_ensures(Rng::next, (second,), sign),
        old(second)@ == final(first)@,
        call_ensures(random_delta, (rng,), r),
        old(rng)@ == old(first)@,
    ensures
        final(rng)@ == final(second)@,
        sign % 2 == 0 ==> r == size % 9 + 1,
        sign % 2 == 1 ==> r == -(size % 9 + 1),
{
    assert(sign & 1 == sign % 2) by (bit_vector);
}

/// The selection starts at the seed's remainder and goes on by the stride, round and round.
pub proof fn law_selection_goes_by_the_stride(
    groups: u32,
    seed: u64,
    offset: u32,
    stride: u32,
    r: GroupId,
)
    requires
        groups > 0,
        call_ensures(selected_group, (groups, seed, offset, stride), r),
        seed % (groups as u64) + offset * stride <= u32::MAX,
    ensures
        r@ == (seed % (groups as u64) + offset * stride) % (groups as int) + 1,
        offset == 0 ==> r@ == seed % (groups as u64) + 1,
{
    assert(0 <= offset * stride) by (nonlinear_arith);
    assert(0 <= seed % (groups as u64) < groups) by (nonlinear_arith)
        requires
            groups > 0,
    ;
    let start = (seed % (groups as u64)) as u32;
    assert(offset.wrapping_mul(stride) == offset * stride);
    assert(start.wrapping_add(offset.wrapping_mul(stride)) == start + offset * stride);
    if offset == 0 {
        assert(offset * stride == 0) by (nonlinear_arith)
            requires
                offset == 0,
        ;
        vstd::arithmetic::div_mod::lemma_small_mod(start as nat, groups as nat);
    }
}

/// A run has four rounds for every group, and never fewer than two hundred and fifty-six.
pub proof fn law_rounds_grow_with_the_groups(groups: u32, r: usize)
    requires
        call_ensures(round_budget, (groups,), r),
    ensures
        groups <= 64 ==> r == 256,
        groups > 64 && groups * 4 <= usize::MAX ==> r == groups * 4,
        groups * 4 > usize::MAX ==> r == usize::MAX,
{
}

/// Every profile is found under its own name and no other, and each is larger than the one before: 64,
/// 1024 and 4096 groups, an eighth of them hot, an eighth under pressure.
pub proof fn law_profiles_have_names(name: &str, r: Option<Profile>)
    requires
        call_ensures(Profile::named, (name,), r),
    ensures
        name@ == "counter-fast"@ ==> (r matches Some(p) && p.name == ProfileName::Fast && p.groups == 64
            && p.burst == 4 && p.slow_groups == 2 && p.workers == 8 && p.budget_ms == 30_000),
        name@ == "counter-nightly"@ ==> (r matches Some(p) && p.name == ProfileName::Nightly && p.groups
            == 1024 && p.burst == 8 && p.slow_groups == 16 && p.workers == 32 && p.budget_ms == 240_000),
        name@ == "counter-weekly"@ ==> (r matches Some(p) && p.name == ProfileName::Weekly && p.groups
            == 4096 && p.burst == 8 && p.slow_groups == 64 && p.workers == 64 && p.budget_ms
            == 1_200_000),
        r is Some ==> r->0.hot_groups * 8 == r->0.groups && r->0.pressure_groups * 8 == r->0.groups,
        name@ != "counter-fast"@ && name@ != "counter-nightly"@ && name@ != "counter-weekly"@
            ==> r is None,
{
    reveal_strlit("counter-fast");
    reveal_strlit("counter-nightly");
    reveal_strlit("counter-weekly");
    assert("counter-fast"@.len() == 12);
    assert("counter-nightly"@.len() == 15);
    assert("counter-weekly"@.len() == 14);
}

// ------------------------------------------------------------------------ plan

proof fn lemma_burst(hot: Seq<GroupId>, seed: u64, from: nat, burst: nat, n: nat, h: int, c: int)
    requires
        0 <= h < n <= hot.len(),
        0 <= c < burst,
    ensures
        hot_adds(hot, seed, from, burst, n).len() == n * burst,
        h * burst + c < n * burst,
        ({
            let add = hot_adds(hot, seed, from, burst, n)[h * burst + c];
            &&& add.group_id == hot[h]
            &&& add.client_id == ClientId((c + 1) as u32)
            &&& add.delta == delta_at(seed, (from + h * burst + c) as nat)
        }),
    decreases n,
{
    lemma_burst_len(hot, seed, from, burst, n);
    lemma_burst_len(hot, seed, from, burst, (n - 1) as nat);
    assert(n * burst == (n - 1) * burst + burst) by (nonlinear_arith);
    if h < n - 1 {
        lemma_burst(hot, seed, from, burst, (n - 1) as nat, h, c);
    } else {
        assert(h * burst == (n - 1) * burst);
    }
}

proof fn lemma_burst_len(hot: Seq<GroupId>, seed: u64, from: nat, burst: nat, n: nat)
    ensures
        hot_adds(hot, seed, from, burst, n).len() == n * burst,
    decreases n,
{
    if n > 0 {
        lemma_burst_len(hot, seed, from, burst, (n - 1) as nat);
        assert(n * burst == (n - 1) * burst + burst) by (nonlinear_arith)
            requires
                n > 0,
        ;
    } else {
        assert(n * burst == 0) by (nonlinear_arith)
            requires
                n == 0,
        ;
    }
}

/// A plan adds once to every group, in order, for its first client; then, in every hot group, once for
/// each client of the burst. The amounts are drawn one after the other. It slows the chosen groups by
/// two, three and four rounds in turn.
pub proof fn law_plans_add_everywhere(
    profile: Profile,
    seed: u64,
    plan: WorkloadPlan,
    i: int,
    h: int,
    c: int,
)
    requires
        call_ensures(plan_workload, (profile, seed), plan),
        profile.groups > 0,
    ensures
        plan.baseline@.len() == profile.groups,
        plan.hot@.len() == profile.hot_groups,
        plan.bursts@.len() == profile.hot_groups * profile.burst,
        plan.pressure@.len() == profile.pressure_groups,
        plan.slow@.len() == profile.slow_groups,
        0 <= i < profile.groups ==> {
            let add = plan.baseline@[i];
            &&& add.group_id@ == i + 1 && add.client_id@ == 0
            &&& add.delta == delta_at(seed, i as nat)
        },
        0 <= h < profile.hot_groups && 0 <= c < profile.burst ==> {
            let at = h * profile.burst + c;
            let add = plan.bursts@[at];
            &&& 0 <= at < plan.bursts@.len()
            &&& add.group_id == plan.hot@[h] && add.client_id@ == c + 1
            &&& add.delta == delta_at(seed, (profile.groups + at) as nat)
        },
        0 <= i < profile.slow_groups ==> plan.slow@[i].rounds == 2 + i % 3,
{
    lemma_burst_len(
        plan.hot@,
        seed,
        profile.groups as nat,
        profile.burst as nat,
        profile.hot_groups as nat,
    );
    if 0 <= h < profile.hot_groups && 0 <= c < profile.burst {
        lemma_burst(
            plan.hot@,
            seed,
            profile.groups as nat,
            profile.burst as nat,
            profile.hot_groups as nat,
            h,
            c,
        );
        assert(0 <= h * profile.burst) by (nonlinear_arith)
            requires
                0 <= h,
        ;
    }
}

/// The amounts of a plan are those that a generator of the plan's seed gives, one call after another.
pub proof fn law_amounts_are_drawn_in_order(seed: u64, n: nat, rng: &mut Rng, r: i64, start: Rng)
    requires
        call_ensures(Rng::new, (seed,), start),
        call_ensures(random_delta, (rng,), r),
        old(rng)@ == rng_after(seed, 2 * n),
    ensures
        start@ == rng_after(seed, 0),
        r == delta_at(seed, n),
        final(rng)@ == rng_after(seed, 2 * (n + 1)),
{
    let k = 2 * n;
    assert(rng_after(seed, k + 1) == rng_next(rng_after(seed, k)));
    assert(rng_after(seed, k + 2) == rng_next(rng_after(seed, k + 1)));
}

// ------------------------------------------------------------------------- run

proof fn lemma_registrations(n: nat, g: int)
    requires
        1 <= g <= n,
    ensures
        registrations(n).len() == 2 * n,
        registrations(n)[2 * g - 2] == (RunAction::Register { group_id: GroupId(g as u32) }),
        registrations(n)[2 * g - 1] == (RunAction::Recover { group_id: GroupId(g as u32) }),
        servings(n).len() == 2 * n,
        servings(n)[2 * g - 2] == (RunAction::Serve { group_id: GroupId(g as u32) }),
        servings(n)[2 * g - 1] == (RunAction::OpenSession {
            group_id: GroupId(g as u32),
            client_id: ClientId(0),
        }),
    decreases n,
{
    if g < n {
        lemma_registrations((n - 1) as nat, g);
    } else {
        lemma_lengths((n - 1) as nat);
    }
}

proof fn lemma_lengths(n: nat)
    ensures
        registrations(n).len() == 2 * n,
        servings(n).len() == 2 * n,
    decreases n,
{
    if n > 0 {
        lemma_lengths((n - 1) as nat);
    }
}

/// A run registers and recovers every group in order, drives, and then lets every group serve and opens
/// its first session.
pub proof fn law_runs_start_every_group(
    profile: Profile,
    plan: WorkloadPlan,
    script: Vec<RunAction>,
    rounds: usize,
    g: int,
)
    requires
        call_ensures(run, (profile, &plan), script),
        call_ensures(round_budget, (profile.groups,), rounds),
        1 <= g <= profile.groups,
    ensures
        ({
            let all = profile.groups as int;
            &&& script@.len() > 4 * all + 1
            &&& script@[2 * g - 2] matches RunAction::Register { group_id } && group_id@ == g
            &&& script@[2 * g - 1] matches RunAction::Recover { group_id } && group_id@ == g
            &&& script@[2 * all] == (RunAction::Drive { rounds })
            &&& script@[2 * all + 2 * g - 1] matches RunAction::Serve { group_id } && group_id@ == g
            &&& script@[2 * all + 2 * g] matches RunAction::OpenSession { group_id, client_id }
                && group_id@ == g && client_id@ == 0
        }),
{
    lemma_registrations(profile.groups as nat, g);
}

/// A run ends so: it drives what was slowed and pressed, audits it and checks the history; it poisons a
/// group, drives and checks the poison; it drains, removes, reopens, recovers, drives and serves that
/// group; it drains, removes and tombstones another, which then cannot be reopened; and it checks that
/// nothing was lost.
pub proof fn law_runs_end_with_churn(
    profile: Profile,
    plan: WorkloadPlan,
    script: Vec<RunAction>,
    rounds: usize,
)
    requires
        call_ensures(run, (profile, &plan), script),
        call_ensures(round_budget, (profile.groups,), rounds),
    ensures
        ({
            let n = script@.len() as int;
            let fault = plan.fault;
            let dead = plan.tombstone;
            &&& n >= 17
            &&& script@[n - 17] == (RunAction::Drive { rounds })
            &&& script@[n - 16] == RunAction::AuditMixed
            &&& script@[n - 15] == RunAction::CheckHistory
            &&& script@[n - 14] == (RunAction::Fault { group_id: fault })
            &&& script@[n - 13] == (RunAction::Drive { rounds })
            &&& script@[n - 12] == (RunAction::CheckPoison { group_id: fault })
            &&& script@[n - 11] == (RunAction::Lifecycle {
                group_id: fault,
                request: LifecycleRequest::Drain,
                expected: Expected::Accepted,
            })
            &&& script@[n - 10] == (RunAction::Lifecycle {
                group_id: fault,
                request: LifecycleRequest::Remove,
                expected: Expected::Accepted,
            })
            &&& script@[n - 9] matches RunAction::Lifecycle { group_id, request, expected }
                && group_id == fault && expected == Expected::Accepted && (
            request matches LifecycleRequest::Create { quota } && quota@ == 4)
            &&& script@[n - 8] == (RunAction::Lifecycle {
                group_id: fault,
                request: LifecycleRequest::Recover,
                expected: Expected::Accepted,
            })
            &&& script@[n - 7] == (RunAction::Drive { rounds: 256 })
            &&& script@[n - 6] == (RunAction::Lifecycle {
                group_id: fault,
                request: LifecycleRequest::Serve,
                expected: Expected::Accepted,
            })
            &&& script@[n - 5] == (RunAction::Lifecycle {
                group_id: dead,
                request: LifecycleRequest::Drain,
                expected: Expected::Accepted,
            })
            &&& script@[n - 4] == (RunAction::Lifecycle {
                group_id: dead,
                request: LifecycleRequest::Remove,
                expected: Expected::Accepted,
            })
            &&& script@[n - 3] == (RunAction::Lifecycle {
                group_id: dead,
                request: LifecycleRequest::Tombstone,
                expected: Expected::Accepted,
            })
            &&& script@[n - 2] matches RunAction::Lifecycle { group_id, request, expected }
                && group_id == dead && expected == Expected::Tombstoned && (
            request matches LifecycleRequest::Create { quota } && quota@ == 4)
            &&& script@[n - 1] == RunAction::Conservation
        }),
{
}

/// A lifecycle step that has to be accepted passes unless it was rejected, one that has to be refused
/// passes only for the tombstone; a poisoned proposal must not have completed; and the books balance
/// when what was admitted is accounted for and no worker is left.
pub proof fn law_checks_pass_when_they_should(
    expected: Expected,
    outcome: LifecycleOutcome,
    moved: bool,
    poisoned: bool,
    completed: bool,
    poison: bool,
    metrics: ManagedMetrics,
    conserved: bool,
)
    requires
        call_ensures(judge_lifecycle, (expected, outcome), moved),
        call_ensures(judge_poison, (poisoned, completed), poison),
        call_ensures(judge_conservation, (metrics,), conserved),
    ensures
        expected == Expected::Accepted ==> (moved <==> !(outcome is Rejected)),
        expected == Expected::Tombstoned ==> (moved <==> outcome == LifecycleOutcome::Rejected(
            LifecycleRejection::GroupTombstoned,
        )),
        poison <==> poisoned && !completed,
        metrics.occupied_workers > 0 ==> !conserved,
        metrics.admitted < u64::MAX && metrics.occupied_workers == 0 ==> (conserved
            <==> metrics.admitted == metrics.serviced + metrics.failed + metrics.queued
            + metrics.in_flight_work),
{
}

/// A run has room for sixteen queued items and a hundred and twenty-eight messages of every group,
/// beside a reserve of queue space, and for a session of every client of a burst and one more.
pub proof fn law_runs_have_room(profile: Profile, r: Option<RunBounds>)
    requires
        call_ensures(run_bounds, (profile,), r),
    ensures
        r matches Some(bounds) ==> profile.groups > 0 && bounds.global_queue == profile.groups * 16
            + 128 && bounds.pending_messages == profile.groups * 128,
        r matches Some(bounds) ==> profile.burst < usize::MAX ==> bounds.sessions == profile.burst + 1,
        profile.groups == 0 ==> r is None,
        0 < profile.groups && profile.groups * 128 + 128 <= usize::MAX ==> r is Some,
{
}

// ----------------------------------------------------------------------- books

/// The next request of an addition follows the last one of its client, in the first epoch, and asks for
/// exactly the planned amount.
pub proof fn law_requests_follow_the_books(
    workload: Workload,
    add: PlannedAdd,
    r: (RequestIdentity, CounterCommand),
    takes: bool,
)
    requires
        call_ensures(Workload::next_request, (&workload, add), r),
        call_ensures(Workload::takes, (&workload, add), takes),
        workload.state().last_sequence(add.group_id, add.client_id) < u64::MAX,
    ensures
        r.0.client_id == add.client_id,
        r.0.session_epoch@ == 1,
        r.0.sequence@ == workload.state().last_sequence(add.group_id, add.client_id) + 1,
        r.1 matches CounterCommand::Add { delta } && delta@ == add.delta,
        takes <==> add.delta != 0 && i64::MIN <= workload.state().value(add.group_id) + add.delta
            <= i64::MAX,
{
}

/// A queued addition is entered: its sequence is used, the group is worth that much more, and the history
/// and the accepted work have one entry more. One that was not queued uses its sequence only.
pub proof fn law_additions_are_entered(
    workload: &mut Workload,
    add: PlannedAdd,
    outcome: CounterSubmitOutcome,
    r: Result<(), CounterSubmitOutcome>,
)
    requires
        call_ensures(Workload::admit_add, (workload, add, outcome), r),
        old(workload).state().can_add(add),
        outcome is Queued ==> old(workload).state().has_room(add),
    ensures
        ({
            let before = old(workload).state();
            let after = final(workload).state();
            &&& after.last_sequence(add.group_id, add.client_id) == before.last_sequence(
                add.group_id,
                add.client_id,
            ) + 1
            &&& forall|key: u64|
                key != session_key(add.group_id, add.client_id) ==> (
                #[trigger] after.sequences.contains_key(key) == before.sequences.contains_key(key))
                    && after.sequences[key] == before.sequences[key]
            &&& outcome matches CounterSubmitOutcome::Queued(receipt) ==> {
                let entry = after.history.last();
                &&& r is Ok
                &&& after.value(add.group_id) == before.value(add.group_id) + add.delta
                &&& after.history.drop_last() == before.history
                &&& after.history.len() == before.history.len() + 1
                &&& entry.proposal == receipt.proposal_id
                &&& entry.group == add.group_id && entry.client == add.client_id
                &&& entry.sequence@ == before.last_sequence(add.group_id, add.client_id) + 1
                &&& entry.delta == add.delta
                &&& entry.expected == before.value(add.group_id) + add.delta
                &&& after.accepted.drop_last() == before.accepted
                &&& after.accepted.len() == before.accepted.len() + 1
                &&& after.accepted.last().work_id == receipt.admission.work_id
                &&& after.accepted.last().group_id == add.group_id
                &&& after.accepted.last().class == WorkClass::Command
            }
            &&& !(outcome is Queued) ==> {
                &&& r == Err::<(), CounterSubmitOutcome>(outcome)
                &&& after.values == before.values
                &&& after.history == before.history && after.accepted == before.accepted
            }
        }),
{
    let before = old(workload).state();
    let after = final(workload).state();
    assert(after.history.drop_last() =~= before.history || !(outcome is Queued));
    assert(after.accepted.drop_last() =~= before.accepted || !(outcome is Queued));
}

/// System traffic is entered as accepted work of its group and class. The baseline expects every group
/// with its quota of four, and exactly the accepted work; what is accepted later starts over.
pub proof fn law_system_work_is_entered(
    workload: &mut Workload,
    group: GroupId,
    class: SystemClass,
    work_id: u64,
    taken: &mut Workload,
    groups: u32,
    r: AcceptanceExpectation,
    g: int,
)
    requires
        call_ensures(Workload::admit_system, (workload, group, class, work_id), ()),
        call_ensures(Workload::expectation, (taken, groups), r),
    ensures
        ({
            let before = old(workload).state().accepted;
            let after = final(workload).state().accepted;
            &&& after.len() == before.len() + 1 && after.drop_last() == before
            &&& after.last().work_id == work_id && after.last().group_id == group
            &&& class == SystemClass::Snapshot ==> after.last().class == WorkClass::Snapshot
            &&& class == SystemClass::Bulk ==> after.last().class == WorkClass::Bulk
            &&& final(workload).state().history == old(workload).state().history
        }),
        r.accepted@ == old(taken).state().accepted,
        final(taken).state().accepted.len() == 0,
        final(taken).state().history == old(taken).state().history,
        r.ready@.len() == groups,
        1 <= g <= groups ==> r.ready@[g - 1]@ == g && r.quotas@.contains_key(g as u64)
            && r.quotas@[g as u64] == 4,
        g > groups && g <= u64::MAX ==> !r.quotas@.contains_key(g as u64),
{
    let before = old(workload).state().accepted;
    let after = final(workload).state().accepted;
    assert(after.drop_last() =~= before);
}

/// A history checks out when every entry's proposal completed with an addition to the expected value.
/// Otherwise the first entry that did not is named, with what its proposal completed with.
pub proof fn law_histories_are_checked(
    cluster: ManagedCounterCluster,
    history: Vec<HistoryEntry>,
    r: Result<(), HistoryFault>,
    i: int,
)
    requires
        call_ensures(check_history, (&cluster, &history), r),
        0 <= i < history@.len(),
    ensures
        ({
            let completed = cluster.state().completed;
            let proposal = history@[i].proposal;
            &&& r is Ok ==> completed.contains_key(proposal) && completed[proposal]
                == CounterApplyResult::Counter(CounterResult::Added { value: history@[i].expected })
            &&& !completed.contains_key(proposal) ==> r is Err && r->Err_0 is Mismatch
            &&& completed.contains_key(proposal) && completed[proposal]
                != CounterApplyResult::Counter(CounterResult::Added { value: history@[i].expected })
                ==> r is Err && r->Err_0 is Mismatch
            &&& r matches Err(HistoryFault::Mismatch { entry, observed }) ==> {
                &&& history@.contains(entry)
                &&& observed is Some <==> completed.contains_key(entry.proposal)
                &&& observed is Some ==> observed->0 == completed[entry.proposal]
                &&& observed != Some(
                    CounterApplyResult::Counter(CounterResult::Added { value: entry.expected }),
                )
            }
        }),
{
}

/// A history is written under its headings, one line for each entry: proposal, group, client, sequence,
/// amount and expected value, between tabs.
pub proof fn law_histories_are_written(
    history: Vec<HistoryEntry>,
    shorter: Vec<HistoryEntry>,
    r: String,
    before: String,
    entry: HistoryEntry,
)
    requires
        call_ensures(render_history, (&history,), r),
        call_ensures(render_history, (&shorter,), before),
        history@ == shorter@.push(entry),
    ensures
        r@ == before@ + decimal(entry.proposal as nat) + "\t"@ + decimal(entry.group@ as nat) + "\t"@
            + decimal(entry.client@ as nat) + "\t"@ + decimal(entry.sequence@ as nat) + "\t"@
            + signed_decimal(entry.delta as int) + "\t"@ + signed_decimal(entry.expected as int)
            + "\tmatch\n"@,
        shorter@.len() == 0 ==> before@
            == "proposal\tgroup\tclient\tsequence\tdelta\texpected_value\tobserved\n"@,
{
    assert(history@.drop_last() =~= shorter@);
}

/// The replay of a plan with one addition, one group under pressure and one slowed group names, in this
/// order, the addition with its group, its client and its amount; the group under pressure, for both
/// classes; the slowed group with its rounds; and the two groups whose life is churned.
pub proof fn law_replays_tell_the_plan(plan: WorkloadPlan, r: String)
    requires
        call_ensures(replay_history, (&plan,), r),
        plan.baseline@.len() == 1,
        plan.bursts@.len() == 0,
        plan.pressure@.len() == 1,
        plan.slow@.len() == 1,
    ensures
        ({
            let add = plan.baseline@[0];
            let pressed = decimal(plan.pressure@[0]@ as nat);
            let slow = plan.slow@[0];
            r@ == "kind\tgroup\tclient\tsequence\tdetail\n"@ + ("add\t"@ + decimal(
                add.group_id@ as nat,
            ) + "\t"@ + decimal(add.client_id@ as nat) + "\t1\tdelta="@ + signed_decimal(
                add.delta as int,
            ) + "\n"@) + ("pressure\t"@ + pressed + "\t-\t-\tclass=snapshot\n"@ + "pressure\t"@
                + pressed + "\t-\t-\tclass=bulk\n"@) + ("slow\t"@ + decimal(slow.group_id@ as nat)
                + "\t-\t-\trounds="@ + decimal(slow.rounds as nat) + "\n"@) + "fault\t"@ + decimal(
                plan.fault@ as nat,
            ) + "\t-\t-\tthen=drain,remove,reopen,recover,serve\n"@ + "lifecycle\t"@ + decimal(
                plan.tombstone@ as nat,
            ) + "\t-\t-\tdrain,remove,tombstone,recreate-refusal\n"@
        }),
{
    let none = Seq::<char>::empty();
    let base = plan.baseline@;
    let head = "kind\tgroup\tclient\tsequence\tdetail\n"@;
    assert(add_lines(base.drop_last()) =~= none);
    assert(add_lines(base) =~= add_line(base[0]));
    assert(add_lines(plan.bursts@) =~= none);
    assert(head + add_lines(base) + none =~= head + add_lines(base));
    assert(pressure_lines(plan.pressure@.drop_last()) =~= none);
    assert(pressure_lines(plan.pressure@) =~= pressure_line(plan.pressure@[0]));
    assert(slow_lines(plan.slow@.drop_last()) =~= none);
    let line = "slow\t"@ + decimal(plan.slow@[0].group_id@ as nat) + "\t-\t-\trounds="@ + decimal(
        plan.slow@[0].rounds as nat,
    ) + "\n"@;
    assert(slow_lines(plan.slow@) =~= line);
}

} // verus!
