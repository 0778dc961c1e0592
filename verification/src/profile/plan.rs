//! What a profile submits: a pure function of its shape and its seed.

use vstd::prelude::*;
use vstd::string::StringExecFns;

use crate::text::{append_number, append_signed, decimal, same_text, signed_decimal};
use crate::types::{ClientId, GroupId};

verus! {

/// Stride between hot groups.
pub const HOT_STRIDE: u32 = 7_919;

/// Stride between groups under pressure.
pub const PRESSURE_STRIDE: u32 = 7_291;

/// Stride between slow groups.
pub const SLOW_STRIDE: u32 = 5_741;

/// Named profile.
#[derive(Clone, Copy, Debug, Eq, PartialEq, Structural)]
pub enum ProfileName {
    /// `counter-fast`.
    Fast,
    /// `counter-nightly`.
    Nightly,
    /// `counter-weekly`.
    Weekly,
}

/// Shape of a profile.
#[derive(Clone, Copy, Debug, Eq, PartialEq, Structural)]
pub struct Profile {
    /// Its name.
    pub name: ProfileName,
    /// Groups.
    pub groups: u32,
    /// Groups with a burst of clients.
    pub hot_groups: u32,
    /// Clients of a burst.
    pub burst: u32,
    /// Groups under system pressure.
    pub pressure_groups: u32,
    /// Slow groups.
    pub slow_groups: u32,
    /// Workers.
    pub workers: usize,
    /// Time that the run may take, in milliseconds.
    pub budget_ms: u64,
    /// Seed that is used when none is given.
    pub default_seed: u64,
}

impl ProfileName {
    /// The name as it is written.
    pub open spec fn text(self) -> Seq<char> {
        match self {
            ProfileName::Fast => "counter-fast"@,
            ProfileName::Nightly => "counter-nightly"@,
            ProfileName::Weekly => "counter-weekly"@,
        }
    }

    /// Returns the name as it is written.
    pub fn as_str(self) -> (r: &'static str)
        ensures
            r@ == self.text(),
    {
        match self {
            ProfileName::Fast => "counter-fast",
            ProfileName::Nightly => "counter-nightly",
            ProfileName::Weekly => "counter-weekly",
        }
    }

    /// Shape of the profile of this name.
    #[verifier::allow_in_spec]
    pub fn profile(self) -> Profile
        returns
            (match self {
                ProfileName::Fast => Profile {
                    name: self,
                    groups: 64,
                    hot_groups: 8,
                    burst: 4,
                    pressure_groups: 8,
                    slow_groups: 2,
                    workers: 8,
                    budget_ms: 30_000,
                    default_seed: 0x6d5a_56da_6a51_7472,
                },
                ProfileName::Nightly => Profile {
                    name: self,
                    groups: 1_024,
                    hot_groups: 128,
                    burst: 8,
                    pressure_groups: 128,
                    slow_groups: 16,
                    workers: 32,
                    budget_ms: 240_000,
                    default_seed: 0x29cc_8b5d_ea77_0021,
                },
                ProfileName::Weekly => Profile {
                    name: self,
                    groups: 4_096,
                    hot_groups: 512,
                    burst: 8,
                    pressure_groups: 512,
                    slow_groups: 64,
                    workers: 64,
                    budget_ms: 1_200_000,
                    default_seed: 0xd0e8_9d2d_311e_9f41,
                },
            }),
    {
        match self {
            ProfileName::Fast => Profile {
                name: self,
                groups: 64,
                hot_groups: 8,
                burst: 4,
                pressure_groups: 8,
                slow_groups: 2,
                workers: 8,
                budget_ms: 30_000,
                default_seed: 0x6d5a_56da_6a51_7472,
            },
            ProfileName::Nightly => Profile {
                name: self,
                groups: 1_024,
                hot_groups: 128,
                burst: 8,
                pressure_groups: 128,
                slow_groups: 16,
                workers: 32,
                budget_ms: 240_000,
                default_seed: 0x29cc_8b5d_ea77_0021,
            },
            ProfileName::Weekly => Profile {
                name: self,
                groups: 4_096,
                hot_groups: 512,
                burst: 8,
                pressure_groups: 512,
                slow_groups: 64,
                workers: 64,
                budget_ms: 1_200_000,
                default_seed: 0xd0e8_9d2d_311e_9f41,
            },
        }
    }
}

impl Profile {
    /// Returns the profile of a name.
    pub fn named(name: &str) -> (r: Option<Self>)
        ensures
            r == if name@ == "counter-fast"@ {
                Some(ProfileName::Fast.profile())
            } else if name@ == "counter-nightly"@ {
                Some(ProfileName::Nightly.profile())
            } else if name@ == "counter-weekly"@ {
                Some(ProfileName::Weekly.profile())
            } else {
                None
            },
    {
        if same_text(name, "counter-fast") {
            Some(ProfileName::Fast.profile())
        } else if same_text(name, "counter-nightly") {
            Some(ProfileName::Nightly.profile())
        } else if same_text(name, "counter-weekly") {
            Some(ProfileName::Weekly.profile())
        } else {
            None
        }
    }
}

// ------------------------------------------------------------------ numbers

/// Deterministic generator of numbers.
#[derive(Debug)]
pub struct Rng {
    state: u64,
}

/// Next number of the generator.
pub open spec fn rng_next(state: u64) -> u64 {
    let a = state ^ (state << 13);
    let b = a ^ (a >> 7);
    b ^ (b << 17)
}

/// Number of the generator after `n` steps.
pub open spec fn rng_after(seed: u64, n: nat) -> u64
    decreases n,
{
    if n == 0 {
        seed
    } else {
        rng_next(rng_after(seed, (n - 1) as nat))
    }
}

/// Delta that two numbers stand for.
pub open spec fn delta_of(size: u64, sign: u64) -> i64 {
    if sign & 1 == 0 {
        (size % 9 + 1) as i64
    } else {
        (-(size % 9 + 1)) as i64
    }
}

/// The `n`-th delta of a seed.
pub open spec fn delta_at(seed: u64, n: nat) -> i64 {
    delta_of(rng_after(seed, 2 * n + 1), rng_after(seed, 2 * n + 2))
}

impl Rng {
    /// Last number.
    pub closed spec fn view(self) -> u64 {
        self.state
    }

    /// Creates a generator.
    pub fn new(seed: u64) -> (r: Self)
        ensures
            r@ == seed,
    {
        Self { state: seed }
    }

    /// Returns the next number.
    pub fn next(&mut self) -> (r: u64)
        ensures
            final(self)@ == rng_next(old(self)@),
            r == final(self)@,
    {
        let a: u64 = self.state ^ (self.state << 13);
        let b: u64 = a ^ (a >> 7);
        self.state = b ^ (b << 17);
        self.state
    }
}

/// Draws a delta: never zero, and at most nine in size.
pub fn random_delta(rng: &mut Rng) -> (r: i64)
    ensures
        r == delta_of(rng_next(old(rng)@), rng_next(rng_next(old(rng)@))),
        final(rng)@ == rng_next(rng_next(old(rng)@)),
        r != 0,
        -9 <= r <= 9,
{
    let magnitude: i64 = (rng.next() % 9 + 1) as i64;
    if rng.next() & 1 == 0 {
        magnitude
    } else {
        -magnitude
    }
}

/// Number of the group that a seed selects.
pub open spec fn selected(groups: u32, seed: u64, offset: u32, stride: u32) -> int {
    let start = (seed % (groups as u64)) as u32;
    start.wrapping_add(offset.wrapping_mul(stride)) % groups + 1
}

/// Selects a group.
pub fn selected_group(groups: u32, seed: u64, offset: u32, stride: u32) -> (r: GroupId)
    requires
        groups > 0,
    ensures
        r@ == selected(groups, seed, offset, stride),
        1 <= r@ <= groups,
{
    let start: u32 = (seed % (groups as u64)) as u32;
    let at: u32 = start.wrapping_add(offset.wrapping_mul(stride)) % groups;
    GroupId::new(at + 1)
}

/// Rounds that a run of this many groups may take to become idle.
pub open spec fn rounds_of(groups: u32) -> usize {
    if groups * 4 > usize::MAX {
        usize::MAX
    } else if groups * 4 < 256 {
        256
    } else {
        (groups * 4) as usize
    }
}

/// Returns how many rounds a run may take to become idle.
pub fn round_budget(groups: u32) -> (r: usize)
    ensures
        r == rounds_of(groups),
{
    let rounds: u64 = groups as u64 * 4;
    if rounds > usize::MAX as u64 {
        usize::MAX
    } else if rounds < 256 {
        256
    } else {
        rounds as usize
    }
}

/// A seed turned by some bits.
pub open spec fn turned(seed: u64, bits: u32) -> u64 {
    (seed << bits) | (seed >> (64 - bits))
}

fn turn(seed: u64, bits: u32) -> (r: u64)
    requires
        0 < bits < 64,
    ensures
        r == turned(seed, bits),
{
    (seed << bits) | (seed >> (64 - bits))
}

// --------------------------------------------------------------------- plan

/// An addition that a profile submits.
#[derive(Clone, Copy, Debug, Eq, PartialEq, Structural)]
pub struct PlannedAdd {
    /// Its group.
    pub group_id: GroupId,
    /// Its client.
    pub client_id: ClientId,
    /// Its delta.
    pub delta: i64,
}

/// A group that a profile slows down.
#[derive(Clone, Copy, Debug, Eq, PartialEq, Structural)]
pub struct SlowGroup {
    /// The group.
    pub group_id: GroupId,
    /// Rounds that a turn takes.
    pub rounds: usize,
}

/// What a profile submits.
#[derive(Debug)]
pub struct WorkloadPlan {
    /// One addition per group.
    pub baseline: Vec<PlannedAdd>,
    /// Groups with a burst of clients.
    pub hot: Vec<GroupId>,
    /// A burst of additions per hot group.
    pub bursts: Vec<PlannedAdd>,
    /// Groups under system pressure.
    pub pressure: Vec<GroupId>,
    /// Slow groups.
    pub slow: Vec<SlowGroup>,
    /// Group that is poisoned and reopened.
    pub fault: GroupId,
    /// Group that is retired for good.
    pub tombstone: GroupId,
}

/// Groups selected one after the other.
pub open(crate) spec fn selection(groups: u32, seed: u64, count: nat, stride: u32) -> Seq<GroupId> {
    Seq::new(count, |i: int| GroupId(selected(groups, seed, i as u32, stride) as u32))
}

/// The additions of the first `n` groups.
pub open(crate) spec fn baseline_adds(seed: u64, n: nat) -> Seq<PlannedAdd> {
    Seq::new(
        n,
        |i: int|
            PlannedAdd {
                group_id: GroupId((i + 1) as u32),
                client_id: ClientId(0),
                delta: delta_at(seed, i as nat),
            },
    )
}

/// The additions of one burst, whose first delta is the `from`-th.
pub open(crate) spec fn burst_adds(group: GroupId, seed: u64, from: nat, n: nat) -> Seq<PlannedAdd> {
    Seq::new(
        n,
        |i: int|
            PlannedAdd {
                group_id: group,
                client_id: ClientId((i + 1) as u32),
                delta: delta_at(seed, from + i as nat),
            },
    )
}

/// The additions of the first `n` bursts, whose first delta is the `from`-th.
pub open(crate) spec fn hot_adds(hot: Seq<GroupId>, seed: u64, from: nat, burst: nat, n: nat) -> Seq<
    PlannedAdd,
>
    decreases n,
{
    if n == 0 {
        Seq::empty()
    } else {
        hot_adds(hot, seed, from, burst, (n - 1) as nat) + burst_adds(
            hot[n - 1],
            seed,
            from + (n - 1) as nat * burst,
            burst,
        )
    }
}

/// The slow groups.
pub open(crate) spec fn slow_selection(groups: u32, seed: u64, n: nat) -> Seq<SlowGroup> {
    Seq::new(
        n,
        |i: int|
            SlowGroup {
                group_id: GroupId(selected(groups, seed, i as u32, SLOW_STRIDE) as u32),
                rounds: (2 + i % 3) as usize,
            },
    )
}

/// The plan is the one of the profile and the seed.
pub open(crate) spec fn is_plan_of(plan: WorkloadPlan, profile: Profile, seed: u64) -> bool {
    &&& plan.baseline@ == baseline_adds(seed, profile.groups as nat)
    &&& plan.hot@ == selection(profile.groups, seed, profile.hot_groups as nat, HOT_STRIDE)
    &&& plan.bursts@ == hot_adds(
        plan.hot@,
        seed,
        profile.groups as nat,
        profile.burst as nat,
        profile.hot_groups as nat,
    )
    &&& plan.pressure@ == selection(
        profile.groups,
        turned(seed, 7),
        profile.pressure_groups as nat,
        PRESSURE_STRIDE,
    )
    &&& plan.slow@ == slow_selection(
        profile.groups,
        turned(seed, 13),
        profile.slow_groups as nat,
    )
    &&& plan.fault@ == selected(profile.groups, turned(seed, 19), 0, 1)
    &&& plan.tombstone@ == selected(profile.groups, turned(seed, 23), 1, 1)
}

fn select_groups(groups: u32, seed: u64, count: u32, stride: u32) -> (r: Vec<GroupId>)
    requires
        groups > 0,
    ensures
        r@ == selection(groups, seed, count as nat, stride),
{
    let mut selected_groups: Vec<GroupId> = Vec::new();
    let mut i: u32 = 0;
    while i < count
        invariant
            groups > 0,
            i <= count,
            selected_groups@ == selection(groups, seed, i as nat, stride),
        decreases count - i,
    {
        selected_groups.push(selected_group(groups, seed, i, stride));
        i = i + 1;
        assert(selected_groups@ =~= selection(groups, seed, i as nat, stride));
    }
    selected_groups
}

/// The generator two steps on gives the next delta.
proof fn lemma_next_delta(seed: u64, n: nat)
    ensures
        rng_next(rng_after(seed, 2 * n)) == rng_after(seed, 2 * n + 1),
        rng_next(rng_next(rng_after(seed, 2 * n))) == rng_after(seed, 2 * n + 2),
        2 * n + 2 == 2 * (n + 1),
{
    reveal_with_fuel(rng_after, 3);
    assert(((2 * n + 1) - 1) as nat == 2 * n);
    assert(((2 * n + 2) - 1) as nat == 2 * n + 1);
}

/// Makes the plan of a profile and a seed.
pub fn plan_workload(profile: Profile, seed: u64) -> (r: WorkloadPlan)
    requires
        profile.groups > 0,
    ensures
        is_plan_of(r, profile, seed),
        forall|i: int|
            0 <= i < r.baseline@.len() ==> (#[trigger] r.baseline@[i]).delta != 0,
        forall|i: int| 0 <= i < r.bursts@.len() ==> (#[trigger] r.bursts@[i]).delta != 0,
{
    let mut rng = Rng::new(seed);
    let mut baseline: Vec<PlannedAdd> = Vec::new();
    let mut i: u32 = 0;
    while i < profile.groups
        invariant
            i <= profile.groups,
            rng@ == rng_after(seed, 2 * (i as nat)),
            baseline@ == baseline_adds(seed, i as nat),
            forall|k: int| 0 <= k < baseline@.len() ==> (#[trigger] baseline@[k]).delta != 0,
        decreases profile.groups - i,
    {
        proof {
            lemma_next_delta(seed, i as nat);
        }
        let delta: i64 = random_delta(&mut rng);
        baseline.push(
            PlannedAdd { group_id: GroupId::new(i + 1), client_id: ClientId::new(0), delta },
        );
        i = i + 1;
        assert(baseline@ =~= baseline_adds(seed, i as nat));
    }
    let hot = select_groups(profile.groups, seed, profile.hot_groups, HOT_STRIDE);
    let mut bursts: Vec<PlannedAdd> = Vec::new();
    let ghost from = profile.groups as nat;
    let ghost burst = profile.burst as nat;
    let mut o: usize = 0;
    assert(0nat * burst == 0) by (nonlinear_arith);
    while o < hot.len()
        invariant
            o <= hot@.len(),
            from == profile.groups as nat,
            burst == profile.burst as nat,
            rng@ == rng_after(seed, 2 * (from + o as nat * burst)),
            bursts@ == hot_adds(hot@, seed, from, burst, o as nat),
            forall|k: int| 0 <= k < bursts@.len() ==> (#[trigger] bursts@[k]).delta != 0,
        decreases hot@.len() - o,
    {
        let ghost before = bursts@;
        let ghost first = from + o as nat * burst;
        let mut c: u32 = 0;
        assert(bursts@ =~= before + burst_adds(hot@[o as int], seed, first, 0));
        while c < profile.burst
            invariant
                o < hot@.len(),
                c <= profile.burst,
                rng@ == rng_after(seed, 2 * (first + c as nat)),
                bursts@ == before + burst_adds(hot@[o as int], seed, first, c as nat),
                forall|k: int| 0 <= k < bursts@.len() ==> (#[trigger] bursts@[k]).delta != 0,
            decreases profile.burst - c,
        {
            proof {
                lemma_next_delta(seed, first + c as nat);
            }
            let delta: i64 = random_delta(&mut rng);
            bursts.push(
                PlannedAdd { group_id: hot[o], client_id: ClientId::new(c + 1), delta },
            );
            c = c + 1;
            assert(bursts@ =~= before + burst_adds(hot@[o as int], seed, first, c as nat));
        }
        proof {
            assert((o as nat + 1) * burst == o as nat * burst + burst) by (nonlinear_arith);
            assert(first + burst == from + (o as nat + 1) * burst);
        }
        o = o + 1;
    }
    let pressure = select_groups(
        profile.groups,
        turn(seed, 7),
        profile.pressure_groups,
        PRESSURE_STRIDE,
    );
    let slow_seed: u64 = turn(seed, 13);
    let mut slow: Vec<SlowGroup> = Vec::new();
    let mut s: u32 = 0;
    while s < profile.slow_groups
        invariant
            profile.groups > 0,
            s <= profile.slow_groups,
            slow@ == slow_selection(profile.groups, slow_seed, s as nat),
        decreases profile.slow_groups - s,
    {
        slow.push(
            SlowGroup {
                group_id: selected_group(profile.groups, slow_seed, s, SLOW_STRIDE),
                rounds: (2 + s % 3) as usize,
            },
        );
        s = s + 1;
        assert(slow@ =~= slow_selection(profile.groups, slow_seed, s as nat));
    }
    WorkloadPlan {
        baseline,
        hot,
        bursts,
        pressure,
        slow,
        fault: selected_group(profile.groups, turn(seed, 19), 0, 1),
        tombstone: selected_group(profile.groups, turn(seed, 23), 1, 1),
    }
}

/// A profile of one seed always submits the same: nothing but the shape and the seed decides.
pub proof fn law_plans_are_replayable(a: WorkloadPlan, b: WorkloadPlan, profile: Profile, seed: u64)
    requires
        is_plan_of(a, profile, seed),
        is_plan_of(b, profile, seed),
    ensures
        a.baseline@ == b.baseline@,
        a.bursts@ == b.bursts@,
        a.pressure@ == b.pressure@,
        a.slow@ == b.slow@,
        a.fault == b.fault,
        a.tombstone == b.tombstone,
{
}

// ------------------------------------------------------------ replay history

/// Line of an addition.
pub open(crate) spec fn add_line(add: PlannedAdd) -> Seq<char> {
    "add\t"@ + decimal(add.group_id@ as nat) + "\t"@ + decimal(add.client_id@ as nat)
        + "\t1\tdelta="@ + signed_decimal(add.delta as int) + "\n"@
}

/// Lines of additions.
pub open(crate) spec fn add_lines(adds: Seq<PlannedAdd>) -> Seq<char>
    decreases adds.len(),
{
    if adds.len() == 0 {
        Seq::empty()
    } else {
        add_lines(adds.drop_last()) + add_line(adds.last())
    }
}

/// Lines of a group under pressure.
pub open(crate) spec fn pressure_line(group: GroupId) -> Seq<char> {
    "pressure\t"@ + decimal(group@ as nat) + "\t-\t-\tclass=snapshot\n"@ + "pressure\t"@ + decimal(
        group@ as nat,
    ) + "\t-\t-\tclass=bulk\n"@
}

/// Lines of groups under pressure.
pub open(crate) spec fn pressure_lines(groups: Seq<GroupId>) -> Seq<char>
    decreases groups.len(),
{
    if groups.len() == 0 {
        Seq::empty()
    } else {
        pressure_lines(groups.drop_last()) + pressure_line(groups.last())
    }
}

/// Lines of slow groups.
pub open(crate) spec fn slow_lines(groups: Seq<SlowGroup>) -> Seq<char>
    decreases groups.len(),
{
    if groups.len() == 0 {
        Seq::empty()
    } else {
        slow_lines(groups.drop_last()) + ("slow\t"@ + decimal(groups.last().group_id@ as nat)
            + "\t-\t-\trounds="@ + decimal(groups.last().rounds as nat) + "\n"@)
    }
}

/// The replay history of a plan.
pub open(crate) spec fn replay_text(plan: WorkloadPlan) -> Seq<char> {
    "kind\tgroup\tclient\tsequence\tdetail\n"@ + add_lines(plan.baseline@) + add_lines(
        plan.bursts@,
    ) + pressure_lines(plan.pressure@) + slow_lines(plan.slow@) + "fault\t"@ + decimal(
        plan.fault@ as nat,
    ) + "\t-\t-\tthen=drain,remove,reopen,recover,serve\n"@ + "lifecycle\t"@ + decimal(
        plan.tombstone@ as nat,
    ) + "\t-\t-\tdrain,remove,tombstone,recreate-refusal\n"@
}

fn append_adds(text: &mut String, adds: &Vec<PlannedAdd>)
    ensures
        final(text)@ == old(text)@ + add_lines(adds@),
{
    let ghost start = text@;
    let mut i: usize = 0;
    assert(adds@.take(0) =~= Seq::empty());
    assert(start + add_lines(adds@.take(0)) =~= start);
    while i < adds.len()
        invariant
            i <= adds@.len(),
            text@ == start + add_lines(adds@.take(i as int)),
        decreases adds@.len() - i,
    {
        let ghost before = text@;
        let ghost more = adds@.take(i + 1);
        assert(more.drop_last() =~= adds@.take(i as int));
        text.append("add\t");
        append_number(text, adds[i].group_id.get() as u64);
        text.append("\t");
        append_number(text, adds[i].client_id.get() as u64);
        text.append("\t1\tdelta=");
        append_signed(text, adds[i].delta);
        text.append("\n");
        assert(text@ =~= before + add_line(adds@[i as int]));
        assert(text@ =~= start + add_lines(more));
        i = i + 1;
    }
    assert(adds@.take(i as int) =~= adds@);
}

fn append_pressure(text: &mut String, groups: &Vec<GroupId>)
    ensures
        final(text)@ == old(text)@ + pressure_lines(groups@),
{
    let ghost start = text@;
    let mut i: usize = 0;
    assert(groups@.take(0) =~= Seq::empty());
    assert(start + pressure_lines(groups@.take(0)) =~= start);
    while i < groups.len()
        invariant
            i <= groups@.len(),
            text@ == start + pressure_lines(groups@.take(i as int)),
        decreases groups@.len() - i,
    {
        let ghost before = text@;
        let ghost more = groups@.take(i + 1);
        assert(more.drop_last() =~= groups@.take(i as int));
        let number: u64 = groups[i].get() as u64;
        text.append("pressure\t");
        append_number(text, number);
        text.append("\t-\t-\tclass=snapshot\n");
        text.append("pressure\t");
        append_number(text, number);
        text.append("\t-\t-\tclass=bulk\n");
        assert(text@ =~= before + pressure_line(groups@[i as int]));
        assert(text@ =~= start + pressure_lines(more));
        i = i + 1;
    }
    assert(groups@.take(i as int) =~= groups@);
}

fn append_slow(text: &mut String, groups: &Vec<SlowGroup>)
    ensures
        final(text)@ == old(text)@ + slow_lines(groups@),
{
    let ghost start = text@;
    let mut i: usize = 0;
    assert(groups@.take(0) =~= Seq::empty());
    assert(start + slow_lines(groups@.take(0)) =~= start);
    while i < groups.len()
        invariant
            i <= groups@.len(),
            text@ == start + slow_lines(groups@.take(i as int)),
        decreases groups@.len() - i,
    {
        let ghost before = text@;
        let ghost more = groups@.take(i + 1);
        assert(more.drop_last() =~= groups@.take(i as int));
        text.append("slow\t");
        append_number(text, groups[i].group_id.get() as u64);
        text.append("\t-\t-\trounds=");
        append_number(text, groups[i].rounds as u64);
        text.append("\n");
        assert(text@ =~= before + ("slow\t"@ + decimal(groups@[i as int].group_id@ as nat)
            + "\t-\t-\trounds="@ + decimal(groups@[i as int].rounds as nat) + "\n"@));
        assert(text@ =~= start + slow_lines(more));
        i = i + 1;
    }
    assert(groups@.take(i as int) =~= groups@);
}

/// Renders the replay history of a plan.
pub fn replay_history(plan: &WorkloadPlan) -> (r: String)
    ensures
        r@ == replay_text(*plan),
{
    let mut text = "kind\tgroup\tclient\tsequence\tdetail\n".to_owned();
    append_adds(&mut text, &plan.baseline);
    append_adds(&mut text, &plan.bursts);
    append_pressure(&mut text, &plan.pressure);
    append_slow(&mut text, &plan.slow);
    text.append("fault\t");
    append_number(&mut text, plan.fault.get() as u64);
    text.append("\t-\t-\tthen=drain,remove,reopen,recover,serve\n");
    text.append("lifecycle\t");
    append_number(&mut text, plan.tombstone.get() as u64);
    text.append("\t-\t-\tdrain,remove,tombstone,recreate-refusal\n");
    text
}

} // verus!
