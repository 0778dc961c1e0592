//! Vocabulary of the sharded counter: identifiers, work, lifecycle states, and the
//! answers the scheduler and its observers exchange.

use vstd::prelude::*;

use crate::bytes::{le_bytes_u64, put_le_u64};

pub mod laws;

verus! {

/// Index of one shard group within the configured group range.
///
/// A group identifier names an administrative slot. A slot that was removed and created again
/// keeps its identifier under a different [`GroupIncarnation`], so work carries both.
#[derive(Clone, Copy, Debug, Eq, Ord, PartialEq, PartialOrd, Structural)]
pub struct GroupId(pub(crate) u32);

impl GroupId {
    /// The identifier of slot `id`.
    pub open(crate) spec fn at(id: int) -> Self {
        GroupId(id as u32)
    }

    /// The number this identifier stands for.
    pub open(crate) spec fn view(self) -> u32 {
        self.0
    }

    /// Creates a group identifier.
    pub fn new(value: u32) -> (r: Self)
        ensures
            r@ == value,
    {
        Self(value)
    }

    /// Returns the numeric slot.
    pub fn get(self) -> (r: u32)
        ensures
            r == self@,
    {
        self.0
    }
}

/// Nonzero generation of one group slot.
///
/// Every re-creation of a removed slot carries a strictly greater incarnation, which is what lets
/// traffic addressed to a retired generation be refused even when the slot is live again.
#[derive(Clone, Copy, Debug, Eq, Ord, PartialEq, PartialOrd, Structural)]
pub struct GroupIncarnation(pub(crate) u32);

impl GroupIncarnation {
    /// The number this value stands for.
    pub open(crate) spec fn view(self) -> u32 {
        self.0
    }

    /// Zero is unrepresentable.
    #[verifier::type_invariant]
    pub open(crate) spec fn valid(self) -> bool {
        self.0 != 0
    }

    /// Creates a group incarnation, rejecting zero.
    pub fn new(value: u32) -> (r: Option<Self>)
        ensures
            r is Some <==> value != 0,
            r is Some ==> r->0@ == value && r->0.valid(),
    {
        if value == 0 {
            None
        } else {
            Some(Self(value))
        }
    }

    /// Returns the numeric generation.
    pub fn get(self) -> (r: u32)
        ensures
            r == self@,
            r != 0,
            self.valid(),
    {
        proof {
            use_type_invariant(&self);
        }
        self.0
    }

    /// Returns the incarnation issued by a slot's first creation.
    pub fn first() -> (r: Self)
        ensures
            r@ == 1,
            r.valid(),
    {
        Self(1)
    }

    /// Returns the next incarnation of the same slot, or `None` when the generation space is
    /// exhausted. Exhaustion never wraps around to a retired generation.
    pub fn successor(self) -> (r: Option<Self>)
        ensures
            r is Some <==> self@ < u32::MAX,
            r is Some ==> r->0@ == self@ + 1 && r->0.valid(),
    {
        match self.0.checked_add(1) {
            Some(value) => Self::new(value),
            None => None,
        }
    }
}

/// Index of one bounded client-session slot within a group.
#[derive(Clone, Copy, Debug, Eq, Ord, PartialEq, PartialOrd, Structural)]
pub struct ClientId(pub(crate) u32);

impl ClientId {
    /// The number this identifier stands for.
    pub open(crate) spec fn view(self) -> u32 {
        self.0
    }

    /// Creates a client slot identifier.
    pub fn new(value: u32) -> (r: Self)
        ensures
            r@ == value,
    {
        Self(value)
    }

    /// Returns the numeric slot.
    pub fn get(self) -> (r: u32)
        ensures
            r == self@,
    {
        self.0
    }
}

/// Nonzero session generation for one client slot within one group.
#[derive(Clone, Copy, Debug, Eq, Ord, PartialEq, PartialOrd, Structural)]
pub struct SessionEpoch(pub(crate) u64);

impl SessionEpoch {
    /// The number this value stands for.
    pub open(crate) spec fn view(self) -> u64 {
        self.0
    }

    /// Zero is unrepresentable.
    #[verifier::type_invariant]
    pub open(crate) spec fn valid(self) -> bool {
        self.0 != 0
    }

    /// Creates a session epoch, rejecting zero.
    pub fn new(value: u64) -> (r: Option<Self>)
        ensures
            r is Some <==> value != 0,
            r is Some ==> r->0@ == value && r->0.valid(),
    {
        if value == 0 {
            None
        } else {
            Some(Self(value))
        }
    }

    /// Returns the numeric epoch.
    pub fn get(self) -> (r: u64)
        ensures
            r == self@,
            r != 0,
            self.valid(),
    {
        proof {
            use_type_invariant(&self);
        }
        self.0
    }
}

/// Nonzero monotone request sequence within one session.
#[derive(Clone, Copy, Debug, Eq, Ord, PartialEq, PartialOrd, Structural)]
pub struct Sequence(pub(crate) u64);

impl Sequence {
    /// The number this value stands for.
    pub open(crate) spec fn view(self) -> u64 {
        self.0
    }

    /// Zero is unrepresentable.
    #[verifier::type_invariant]
    pub open(crate) spec fn valid(self) -> bool {
        self.0 != 0
    }

    /// Creates a request sequence, rejecting zero.
    pub fn new(value: u64) -> (r: Option<Self>)
        ensures
            r is Some <==> value != 0,
            r is Some ==> r->0@ == value && r->0.valid(),
    {
        if value == 0 {
            None
        } else {
            Some(Self(value))
        }
    }

    /// Returns the numeric sequence.
    pub fn get(self) -> (r: u64)
        ensures
            r == self@,
            r != 0,
            self.valid(),
    {
        proof {
            use_type_invariant(&self);
        }
        self.0
    }

    /// Returns the only sequence a fresh session may submit.
    pub fn first() -> (r: Self)
        ensures
            r@ == 1,
            r.valid(),
    {
        Self(1)
    }

    /// Returns the successor sequence, or `None` at the numeric maximum.
    pub fn successor(self) -> (r: Option<Self>)
        ensures
            r is Some <==> self@ < u64::MAX,
            r is Some ==> r->0@ == self@ + 1 && r->0.valid(),
    {
        match self.0.checked_add(1) {
            Some(value) => Self::new(value),
            None => None,
        }
    }
}

/// Stable identifier for one admitted unit of work.
///
/// Identifiers are issued at admission and never reused, so an observer can pair every admission
/// with the service or failure that retired it.
#[derive(Clone, Copy, Debug, Eq, Ord, PartialEq, PartialOrd, Structural)]
pub struct WorkId(pub(crate) u64);

impl WorkId {
    /// The number this value stands for.
    pub open(crate) spec fn view(self) -> u64 {
        self.0
    }

    /// Zero is unrepresentable.
    #[verifier::type_invariant]
    pub open(crate) spec fn valid(self) -> bool {
        self.0 != 0
    }

    /// Creates a work identifier, rejecting zero.
    pub fn new(value: u64) -> (r: Option<Self>)
        ensures
            r is Some <==> value != 0,
            r is Some ==> r->0@ == value && r->0.valid(),
    {
        if value == 0 {
            None
        } else {
            Some(Self(value))
        }
    }

    /// Returns the numeric identifier.
    pub fn get(self) -> (r: u64)
        ensures
            r == self@,
            r != 0,
            self.valid(),
    {
        proof {
            use_type_invariant(&self);
        }
        self.0
    }
}

/// Monotone tick counter driving the scheduler.
///
/// A tick is a unit of attention rather than a duration.
#[derive(Clone, Copy, Debug, Eq, Ord, PartialEq, PartialOrd, Structural)]
pub struct TickIndex(pub(crate) u64);

impl TickIndex {
    /// The number of ticks this index stands for.
    pub open(crate) spec fn view(self) -> u64 {
        self.0
    }

    /// Returns the tick index before the scheduler has stepped.
    pub fn zero() -> (r: Self)
        ensures
            r@ == 0,
    {
        Self(0)
    }

    /// Creates a tick index.
    pub fn new(value: u64) -> (r: Self)
        ensures
            r@ == value,
    {
        Self(value)
    }

    /// Returns the numeric tick.
    pub fn get(self) -> (r: u64)
        ensures
            r == self@,
    {
        self.0
    }
}

/// Nonzero index of one complete pass over the ready set.
#[derive(Clone, Copy, Debug, Eq, Ord, PartialEq, PartialOrd, Structural)]
pub struct PassIndex(pub(crate) u64);

impl PassIndex {
    /// The pass numbered `index`.
    pub open(crate) spec fn at(index: int) -> Self {
        PassIndex(index as u64)
    }

    /// The number this value stands for.
    pub open(crate) spec fn view(self) -> u64 {
        self.0
    }

    /// Zero is unrepresentable.
    #[verifier::type_invariant]
    pub open(crate) spec fn valid(self) -> bool {
        self.0 != 0
    }

    /// Creates a pass index, rejecting zero.
    pub fn new(value: u64) -> (r: Option<Self>)
        ensures
            r is Some <==> value != 0,
            r is Some ==> r->0@ == value && r->0.valid(),
    {
        if value == 0 {
            None
        } else {
            Some(Self(value))
        }
    }

    /// Returns the numeric index.
    pub fn get(self) -> (r: u64)
        ensures
            r == self@,
            r != 0,
            self.valid(),
    {
        proof {
            use_type_invariant(&self);
        }
        self.0
    }

    /// Returns the index of a scheduler's first pass.
    pub fn first() -> (r: Self)
        ensures
            r@ == 1,
            r.valid(),
    {
        Self(1)
    }

    /// Returns the next pass index, or `None` when the pass space is exhausted.
    pub fn successor(self) -> (r: Option<Self>)
        ensures
            r is Some <==> self@ < u64::MAX,
            r is Some ==> r->0@ == self@ + 1 && r->0.valid(),
    {
        match self.0.checked_add(1) {
            Some(value) => Self::new(value),
            None => None,
        }
    }
}

/// Nonzero worker occupancy of one unit of work, measured in ticks.
///
/// A group with slow storage is a group whose work costs more ticks.
#[derive(Clone, Copy, Debug, Eq, Ord, PartialEq, PartialOrd, Structural)]
pub struct ServiceCost(pub(crate) u32);

impl ServiceCost {
    /// The number this value stands for.
    pub open(crate) spec fn view(self) -> u32 {
        self.0
    }

    /// Zero is unrepresentable.
    #[verifier::type_invariant]
    pub open(crate) spec fn valid(self) -> bool {
        self.0 != 0
    }

    /// Creates a service cost, rejecting zero: free work could hold a worker unobserved.
    pub fn new(value: u32) -> (r: Option<Self>)
        ensures
            r is Some <==> value != 0,
            r is Some ==> r->0@ == value && r->0.valid(),
    {
        if value == 0 {
            None
        } else {
            Some(Self(value))
        }
    }

    /// Returns the numeric cost in ticks.
    pub fn get(self) -> (r: u32)
        ensures
            r == self@,
            r != 0,
            self.valid(),
    {
        proof {
            use_type_invariant(&self);
        }
        self.0
    }
}

/// Nonzero bound on the work one group may consume in one scheduling opportunity.
///
/// A quota decides how much a group does with its turn, never how often its turn comes.
#[derive(Clone, Copy, Debug, Eq, Ord, PartialEq, PartialOrd, Structural)]
pub struct WorkQuota(pub(crate) u32);

impl WorkQuota {
    /// The number this value stands for.
    pub open(crate) spec fn view(self) -> u32 {
        self.0
    }

    /// Zero is unrepresentable.
    #[verifier::type_invariant]
    pub open(crate) spec fn valid(self) -> bool {
        self.0 != 0
    }

    /// Creates a work quota, rejecting zero: a group with no quota could never drain.
    pub fn new(value: u32) -> (r: Option<Self>)
        ensures
            r is Some <==> value != 0,
            r is Some ==> r->0@ == value && r->0.valid(),
    {
        if value == 0 {
            None
        } else {
            Some(Self(value))
        }
    }

    /// Returns the numeric quota.
    pub fn get(self) -> (r: u32)
        ensures
            r == self@,
            r != 0,
            self.valid(),
    {
        proof {
            use_type_invariant(&self);
        }
        self.0
    }
}

/// Nonzero signed counter adjustment.
#[derive(Clone, Copy, Debug, Eq, Ord, PartialEq, PartialOrd, Structural)]
pub struct Delta(pub(crate) i64);

impl Delta {
    /// The number this value stands for.
    pub open(crate) spec fn view(self) -> i64 {
        self.0
    }

    /// Zero is unrepresentable.
    #[verifier::type_invariant]
    pub open(crate) spec fn valid(self) -> bool {
        self.0 != 0
    }

    /// Creates a counter delta, rejecting zero.
    pub fn new(value: i64) -> (r: Option<Self>)
        ensures
            r is Some <==> value != 0,
            r is Some ==> r->0@ == value && r->0.valid(),
    {
        if value == 0 {
            None
        } else {
            Some(Self(value))
        }
    }

    /// Returns the numeric delta.
    pub fn get(self) -> (r: i64)
        ensures
            r == self@,
            r != 0,
            self.valid(),
    {
        proof {
            use_type_invariant(&self);
        }
        self.0
    }
}

/// Service priority class of one unit of work, in descending priority.
///
/// The class decides which of a group's own items fill its quota. It never reorders the pass, so
/// urgent work in one group does not take another group's turn.
#[derive(Clone, Copy, Debug, Eq, Ord, PartialEq, PartialOrd, Structural)]
pub enum WorkClass {
    /// Heartbeat and election traffic.
    Control,
    /// Client counter commands.
    Command,
    /// Snapshot build and transfer pressure.
    Snapshot,
    /// Bulk log replication catch-up. Sustained higher-class load starves it by design.
    Bulk,
}

/// Every work class in descending service priority.
pub const WORK_CLASS_ORDER: [WorkClass; 4] = [
    WorkClass::Control,
    WorkClass::Command,
    WorkClass::Snapshot,
    WorkClass::Bulk,
];

impl WorkClass {
    /// Returns the class's position in [`WORK_CLASS_ORDER`].
    #[verifier::allow_in_spec]
    pub fn rank(self) -> usize
        returns
            (match self {
                WorkClass::Control => 0usize,
                WorkClass::Command => 1usize,
                WorkClass::Snapshot => 2usize,
                WorkClass::Bulk => 3usize,
            }),
    {
        match self {
            WorkClass::Control => 0,
            WorkClass::Command => 1,
            WorkClass::Snapshot => 2,
            WorkClass::Bulk => 3,
        }
    }
}

/// The rank of a class is its position in the declared order.
pub proof fn law_rank_is_position(class: WorkClass)
    ensures
        class.rank() < 4,
        WORK_CLASS_ORDER[class.rank() as int] == class,
{
}

/// Scheduler traffic that is not a client command.
#[derive(Clone, Copy, Debug, Eq, Ord, PartialEq, PartialOrd, Structural)]
pub enum SystemClass {
    /// Heartbeat and election traffic.
    Control,
    /// Snapshot build and transfer pressure.
    Snapshot,
    /// Bulk log replication catch-up.
    Bulk,
}

impl SystemClass {
    /// Returns the work class this system traffic is scheduled in.
    #[verifier::allow_in_spec]
    pub fn class(self) -> WorkClass
        returns
            (match self {
                SystemClass::Control => WorkClass::Control,
                SystemClass::Snapshot => WorkClass::Snapshot,
                SystemClass::Bulk => WorkClass::Bulk,
            }),
    {
        match self {
            SystemClass::Control => WorkClass::Control,
            SystemClass::Snapshot => WorkClass::Snapshot,
            SystemClass::Bulk => WorkClass::Bulk,
        }
    }
}

/// Deterministic per-group counter command.
#[derive(Clone, Copy, Debug, Eq, PartialEq, Structural)]
pub enum CounterCommand {
    /// Adjusts the group's counter by a nonzero delta.
    Add {
        /// Nonzero adjustment.
        delta: Delta,
    },
    /// Reads the group's counter. Reads are scheduled work like any mutation.
    Read,
}

impl CounterCommand {
    /// Every delta the command carries is a delta that can exist.
    pub open spec fn valid(self) -> bool {
        self matches CounterCommand::Add { delta } ==> delta.valid()
    }
}

/// One unit of schedulable work.
#[derive(Clone, Copy, Debug, Eq, PartialEq, Structural)]
pub enum Work {
    /// A client counter request, scheduled in [`WorkClass::Command`].
    Counter {
        /// Bounded request identity.
        request: RequestIdentity,
        /// Command to apply when the item is serviced.
        command: CounterCommand,
        /// Worker occupancy this item costs.
        cost: ServiceCost,
    },
    /// Abstract scheduler traffic in a non-command class.
    System {
        /// Class this traffic is scheduled in.
        class: SystemClass,
        /// Worker occupancy this item costs.
        cost: ServiceCost,
    },
    /// Work whose application fails irrecoverably and poisons its group.
    Faulty {
        /// Class this item was scheduled in before it failed.
        class: SystemClass,
        /// Worker occupancy consumed before the failure surfaced.
        cost: ServiceCost,
    },
}

impl Work {
    /// Returns the class this work is scheduled in.
    #[verifier::allow_in_spec]
    pub fn class(self) -> WorkClass
        returns
            (match self {
                Work::Counter { .. } => WorkClass::Command,
                Work::System { class, .. } => class.class(),
                Work::Faulty { class, .. } => class.class(),
            }),
    {
        match self {
            Work::Counter { .. } => WorkClass::Command,
            Work::System { class, .. } => class.class(),
            Work::Faulty { class, .. } => class.class(),
        }
    }

    /// Returns the worker occupancy this work costs.
    #[verifier::allow_in_spec]
    pub fn cost(self) -> ServiceCost
        returns
            (match self {
                Work::Counter { cost, .. } => cost,
                Work::System { cost, .. } => cost,
                Work::Faulty { cost, .. } => cost,
            }),
    {
        match self {
            Work::Counter { cost, .. } => cost,
            Work::System { cost, .. } => cost,
            Work::Faulty { cost, .. } => cost,
        }
    }

    /// Returns the request identity a counter item carries.
    #[verifier::allow_in_spec]
    pub fn request_identity(self) -> Option<RequestIdentity>
        returns
            (match self {
                Work::Counter { request, .. } => Some(request),
                Work::System { .. } => None,
                Work::Faulty { .. } => None,
            }),
    {
        match self {
            Work::Counter { request, .. } => Some(request),
            Work::System { .. } => None,
            Work::Faulty { .. } => None,
        }
    }
}

/// Deterministic digest of the counter command an identity claims to carry.
///
/// The digest is never the admission key: retry and conflict decisions compare the exact command,
/// so a collision cannot admit a conflicting retry as an exact one.
#[derive(Clone, Copy, Debug, Eq, Ord, PartialEq, PartialOrd, Structural)]
pub struct RequestFingerprint(pub(crate) u64);

/// Offset basis of the 64-bit FNV-1a digest.
pub const FNV_OFFSET_BASIS: u64 = 0xcbf2_9ce4_8422_2325;

/// Multiplier of the 64-bit FNV-1a digest.
pub const FNV_PRIME: u64 = 0x0000_0100_0000_01b3;

/// One FNV-1a round: mix a byte in, then multiply modulo 2^64.
pub open spec fn fnv_absorb(digest: u64, byte: u8) -> u64 {
    vstd::wrapping::u64_specs::wrapping_mul(digest ^ (byte as u64), FNV_PRIME)
}

/// FNV-1a over a byte string, continuing from `digest`.
pub open spec fn fnv_digest(digest: u64, bytes: Seq<u8>) -> u64
    decreases bytes.len(),
{
    if bytes.len() == 0 {
        digest
    } else {
        fnv_absorb(fnv_digest(digest, bytes.drop_last()), bytes.last())
    }
}

/// Canonical byte encoding a fingerprint digests: a tag, then the little-endian delta.
pub open spec fn fingerprint_bytes(command: CounterCommand) -> Seq<u8> {
    match command {
        CounterCommand::Add { delta } => seq![1u8] + le_bytes_u64(delta@ as u64),
        CounterCommand::Read => seq![2u8],
    }
}

/// The digest that describes `command`.
pub open spec fn fingerprint_of(command: CounterCommand) -> u64 {
    fnv_digest(FNV_OFFSET_BASIS, fingerprint_bytes(command))
}

fn absorb(digest: u64, byte: u8) -> (r: u64)
    ensures
        r == fnv_absorb(digest, byte),
{
    (digest ^ (byte as u64)).wrapping_mul(FNV_PRIME)
}

impl RequestFingerprint {
    /// The numeric digest.
    pub open(crate) spec fn view(self) -> u64 {
        self.0
    }

    /// Computes the fingerprint of a counter command's canonical encoding.
    pub fn of(command: &CounterCommand) -> (r: Self)
        ensures
            r@ == fingerprint_of(*command),
    {
        let mut bytes: Vec<u8> = Vec::new();
        match command {
            CounterCommand::Add { delta } => {
                bytes.push(1);
                put_le_u64(&mut bytes, delta.get() as u64);
            },
            CounterCommand::Read => {
                bytes.push(2);
            },
        }
        assert(bytes@ =~= fingerprint_bytes(*command));
        let mut digest: u64 = FNV_OFFSET_BASIS;
        let mut index: usize = 0;
        while index < bytes.len()
            invariant
                index <= bytes.len(),
                digest == fnv_digest(FNV_OFFSET_BASIS, bytes@.take(index as int)),
            decreases bytes.len() - index,
        {
            assert(bytes@.take(index as int + 1).drop_last() =~= bytes@.take(index as int));
            digest = absorb(digest, bytes[index]);
            index = index + 1;
        }
        assert(bytes@.take(bytes.len() as int) =~= bytes@);
        Self(digest)
    }

    /// Rebuilds a fingerprint from a digest that arrived from a client, without repairing it.
    pub fn from_digest(digest: u64) -> (r: Self)
        ensures
            r@ == digest,
    {
        Self(digest)
    }

    /// Returns the numeric digest.
    pub fn get(self) -> (r: u64)
        ensures
            r == self@,
    {
        self.0
    }
}

/// Identity of one counter request within one group's client session.
///
/// Sessions are scoped to a group, so a client may have one mutation outstanding per group.
#[derive(Clone, Copy, Debug, Eq, PartialEq, Structural)]
pub struct RequestIdentity {
    /// Bounded client slot within the group.
    pub client_id: ClientId,
    /// Exact active session generation for that slot.
    pub session_epoch: SessionEpoch,
    /// Monotone sequence within the session.
    pub sequence: Sequence,
    /// Digest the client claims describes its command.
    pub fingerprint: RequestFingerprint,
}

impl RequestIdentity {
    /// Every part of the identity is a value that can exist.
    pub open spec fn valid(self) -> bool {
        self.session_epoch.valid() && self.sequence.valid()
    }
}

/// Administrative lifecycle state of one group slot.
///
/// Poison is a separate health axis: a poisoned group keeps its lifecycle state and leaves by the
/// ordinary drain and removal path.
#[derive(Clone, Copy, Debug, Eq, PartialEq, Structural)]
pub enum GroupLifecycle {
    /// The slot exists and its durable state is being established. Nothing is admitted.
    Creating,
    /// The slot is replaying durable state. System traffic only; commands are refused.
    Recovering,
    /// The slot is fully serviceable.
    Serving,
    /// The slot accepts no new work and is retiring what it already accepted.
    Draining,
    /// The slot is gone and may be created again as a strictly greater incarnation.
    Removed,
    /// The slot is gone permanently.
    Tombstoned,
}

impl GroupLifecycle {
    /// Returns whether the state admits any scheduling at all.
    #[verifier::allow_in_spec]
    pub fn is_serviceable(self) -> bool
        returns
            (self is Recovering || self is Serving || self is Draining),
    {
        matches!(
            self,
            GroupLifecycle::Recovering | GroupLifecycle::Serving | GroupLifecycle::Draining
        )
    }

    /// Returns whether the state admits newly submitted work of a class.
    #[verifier::allow_in_spec]
    pub fn admits(self, class: WorkClass) -> bool
        returns
            (self is Serving || (self is Recovering && class != WorkClass::Command)),
    {
        match self {
            GroupLifecycle::Serving => true,
            GroupLifecycle::Recovering => !matches!(class, WorkClass::Command),
            GroupLifecycle::Creating
            | GroupLifecycle::Draining
            | GroupLifecycle::Removed
            | GroupLifecycle::Tombstoned => false,
        }
    }

    /// Returns whether the state establishes client sessions.
    ///
    /// Wider than the states that admit commands: a recovering group opens sessions it will only
    /// take commands under once it serves.
    #[verifier::allow_in_spec]
    pub fn admits_sessions(self) -> bool
        returns
            (self is Recovering || self is Serving),
    {
        matches!(self, GroupLifecycle::Recovering | GroupLifecycle::Serving)
    }

    /// Returns whether protocol traffic that moves accepted work forward is still let in.
    ///
    /// A draining group admits nothing new, but the traffic that completes what it already
    /// accepted has to keep flowing until none of it remains.
    #[verifier::allow_in_spec]
    pub fn permits_protocol_continuation(self, accepted_work_remains: bool) -> bool
        returns
            (self is Recovering || self is Serving || (self is Draining && accepted_work_remains)),
    {
        match self {
            GroupLifecycle::Recovering | GroupLifecycle::Serving => true,
            GroupLifecycle::Draining => accepted_work_remains,
            GroupLifecycle::Creating | GroupLifecycle::Removed | GroupLifecycle::Tombstoned => {
                false
            },
        }
    }
}

/// Administrative transition requested for one group slot.
#[derive(Clone, Copy, Debug, Eq, PartialEq, Structural)]
pub enum LifecycleRequest {
    /// Brings a slot into existence, or reopens a removed one.
    Create {
        /// Work quota for this incarnation.
        quota: WorkQuota,
    },
    /// Moves a created slot into recovery.
    Recover,
    /// Declares a recovered slot ready to serve clients.
    Serve,
    /// Stops admission and begins retiring accepted work.
    Drain,
    /// Removes a drained slot.
    Remove,
    /// Marks a removed slot permanently unusable.
    Tombstone,
}

impl LifecycleRequest {
    /// Returns the state this request asks the slot to reach.
    #[verifier::allow_in_spec]
    pub fn target(self) -> GroupLifecycle
        returns
            (match self {
                LifecycleRequest::Create { .. } => GroupLifecycle::Creating,
                LifecycleRequest::Recover => GroupLifecycle::Recovering,
                LifecycleRequest::Serve => GroupLifecycle::Serving,
                LifecycleRequest::Drain => GroupLifecycle::Draining,
                LifecycleRequest::Remove => GroupLifecycle::Removed,
                LifecycleRequest::Tombstone => GroupLifecycle::Tombstoned,
            }),
    {
        match self {
            LifecycleRequest::Create { .. } => GroupLifecycle::Creating,
            LifecycleRequest::Recover => GroupLifecycle::Recovering,
            LifecycleRequest::Serve => GroupLifecycle::Serving,
            LifecycleRequest::Drain => GroupLifecycle::Draining,
            LifecycleRequest::Remove => GroupLifecycle::Removed,
            LifecycleRequest::Tombstone => GroupLifecycle::Tombstoned,
        }
    }
}

/// Stable result of one lifecycle request.
#[derive(Clone, Copy, Debug, Eq, PartialEq, Structural)]
pub enum LifecycleOutcome {
    /// The slot came into existence under the reported incarnation.
    Created {
        /// Incarnation the slot now carries.
        incarnation: GroupIncarnation,
    },
    /// The slot moved between two existing states.
    Applied {
        /// State the slot left.
        from: GroupLifecycle,
        /// State the slot reached.
        to: GroupLifecycle,
        /// Incarnation the slot carries after the transition.
        incarnation: GroupIncarnation,
    },
    /// The slot was already in the requested state and did not move.
    Idempotent {
        /// Unchanged state.
        state: GroupLifecycle,
        /// Unchanged incarnation.
        incarnation: GroupIncarnation,
    },
    /// The request was refused.
    Rejected(LifecycleRejection),
}

/// Explicit refusal of a lifecycle request.
#[allow(inconsistent_fields)]
#[derive(Clone, Copy, Debug, Eq, PartialEq, Structural)]
pub enum LifecycleRejection {
    /// The group identifier is outside the configured range.
    GroupOutOfRange,
    /// The requested transition is not a successor of the current state.
    Conflict {
        /// State the slot is in.
        current: GroupLifecycle,
        /// State the request asked for.
        requested: GroupLifecycle,
    },
    /// The slot has never been created.
    GroupUnknown,
    /// The slot is tombstoned and accepts nothing further.
    GroupTombstoned,
    /// A creation repeated for a live slot named a different quota.
    QuotaConflict {
        /// Quota the incarnation was created with.
        current: WorkQuota,
    },
    /// Removal was requested while accepted work was still queued.
    QueueNotDrained {
        /// Items still queued for the slot.
        pending: u32,
    },
    /// The slot's incarnation space is exhausted and it can never reopen.
    IncarnationExhausted,
}

/// One lifecycle request's outcome together with anything it retired.
#[derive(Clone, Debug, Eq, PartialEq)]
pub struct LifecycleTransition {
    /// What the request did to the slot.
    pub outcome: LifecycleOutcome,
    /// Accepted items the transition retired without service, in queue order.
    pub failed: Vec<FailureRecord>,
}

impl LifecycleTransition {
    /// Builds a transition that refused the request and retired nothing.
    pub fn rejected(rejection: LifecycleRejection) -> (r: Self)
        ensures
            r.outcome == LifecycleOutcome::Rejected(rejection),
            r.failed@ == Seq::<FailureRecord>::empty(),
    {
        Self { outcome: LifecycleOutcome::Rejected(rejection), failed: Vec::new() }
    }
}

/// Deterministic result of an applied counter command.
#[derive(Clone, Copy, Debug, Eq, PartialEq, Structural)]
pub enum CounterResult {
    /// The counter moved to the reported value.
    Added {
        /// Value after the delta was applied.
        value: i64,
    },
    /// The counter was read.
    Value {
        /// Value observed at service time.
        value: i64,
    },
    /// The command was admitted under its request identity and refused by counter rules.
    Rejected(CounterRejection),
}

/// Counter-level refusal that consumes and caches its request sequence.
#[derive(Clone, Copy, Debug, Eq, PartialEq, Structural)]
pub enum CounterRejection {
    /// The delta would push the counter past a numeric bound. Nothing saturates.
    CounterOverflow {
        /// Value the counter kept.
        current: i64,
    },
}

/// Value the counter holds once `command` has been applied to `counter`.
pub open spec fn counter_after(counter: i64, command: CounterCommand) -> i64 {
    match command {
        CounterCommand::Add { delta } => if i64::MIN <= counter + delta@ <= i64::MAX {
            (counter + delta@) as i64
        } else {
            counter
        },
        CounterCommand::Read => counter,
    }
}

/// Result `command` produces on `counter`.
pub open spec fn counter_result(counter: i64, command: CounterCommand) -> CounterResult {
    match command {
        CounterCommand::Add { delta } => if i64::MIN <= counter + delta@ <= i64::MAX {
            CounterResult::Added { value: (counter + delta@) as i64 }
        } else {
            CounterResult::Rejected(CounterRejection::CounterOverflow { current: counter })
        },
        CounterCommand::Read => CounterResult::Value { value: counter },
    }
}

/// Applies one command to a counter value, refusing an overflow without moving the counter.
pub(crate) fn apply_counter_command(counter: i64, command: CounterCommand) -> (r: (
    i64,
    CounterResult,
))
    ensures
        r.0 == counter_after(counter, command),
        r.1 == counter_result(counter, command),
{
    match command {
        CounterCommand::Add { delta } => match counter.checked_add(delta.get()) {
            Some(value) => (value, CounterResult::Added { value }),
            None => (
                counter,
                CounterResult::Rejected(CounterRejection::CounterOverflow { current: counter }),
            ),
        },
        CounterCommand::Read => (counter, CounterResult::Value { value: counter }),
    }
}

/// Stable result of submitting one unit of work.
#[derive(Clone, Copy, Debug, Eq, PartialEq, Structural)]
pub enum AdmissionOutcome {
    /// The work took a queue slot and will be serviced.
    Queued {
        /// Identifier that will name the item's service or failure.
        work: WorkId,
    },
    /// An exact retry of a request that is already queued and not yet serviced.
    AlreadyQueued {
        /// Identifier of the item already holding the slot.
        work: WorkId,
    },
    /// An exact retry of the session's highest completed request, answered from its cache.
    Replayed {
        /// Result the first execution produced.
        result: CounterResult,
    },
    /// The work was refused before it took a slot.
    Rejected(AdmissionRejection),
}

/// Explicit refusal at the admission gate. None of these consumes a sequence.
#[allow(inconsistent_fields)]
#[derive(Clone, Copy, Debug, Eq, PartialEq, Structural)]
pub enum AdmissionRejection {
    /// The group identifier is outside the configured range.
    GroupOutOfRange,
    /// The slot has never been created.
    GroupUnknown,
    /// The slot is tombstoned and accepts nothing, forever.
    GroupTombstoned,
    /// The work named an incarnation that is no longer current.
    StaleIncarnation {
        /// Incarnation the slot carries.
        current: GroupIncarnation,
    },
    /// The work named an incarnation the slot has not reached.
    FutureIncarnation {
        /// Incarnation the slot carries.
        current: GroupIncarnation,
    },
    /// The slot's lifecycle state does not admit work of this class.
    GroupNotAcceptingWork {
        /// State the slot is in.
        state: GroupLifecycle,
        /// Class that was refused.
        class: WorkClass,
    },
    /// The slot's lifecycle state does not establish sessions.
    GroupNotAcceptingSessions {
        /// State the slot is in.
        state: GroupLifecycle,
    },
    /// The slot is poisoned and can service nothing until it is drained.
    GroupPoisoned,
    /// The slot's queue is full.
    GroupQueueFull {
        /// Configured per-group queue bound.
        limit: u32,
    },
    /// The scheduler's global queue is full. Checked after the per-group bound.
    GlobalQueueFull {
        /// Configured global queue bound.
        limit: u32,
    },
    /// The client identifier is outside the group's configured slot range.
    ClientOutOfRange,
    /// No session is open for the client slot in this group.
    SessionNotOpen,
    /// The request names an older session generation.
    StaleSession {
        /// Generation the slot carries.
        current: SessionEpoch,
    },
    /// The request names a newer generation that must be opened first.
    FutureSession {
        /// Generation the slot carries.
        current: SessionEpoch,
    },
    /// The sequence is older than the session's highest completed request.
    StaleSequence {
        /// Highest completed sequence.
        highest: Sequence,
    },
    /// The sequence skipped the required next value.
    SequenceGap {
        /// Sequence the session will accept next.
        expected: Sequence,
    },
    /// A completed or outstanding identity was reused with another command.
    ConflictingRetry,
    /// The session's sequence space is exhausted.
    SequenceExhausted,
    /// The supplied fingerprint does not describe the supplied command.
    FingerprintMismatch {
        /// Digest of the command that was actually supplied.
        expected: RequestFingerprint,
    },
}

/// Stable result of opening a session.
#[derive(Clone, Copy, Debug, Eq, PartialEq, Structural)]
pub enum SessionOutcome {
    /// A previously unused client slot opened.
    Opened {
        /// Generation now active.
        session_epoch: SessionEpoch,
    },
    /// A greater generation replaced the old one and cleared its cache.
    Replaced {
        /// Generation now active.
        session_epoch: SessionEpoch,
    },
    /// The requested generation was already open.
    AlreadyOpen {
        /// Generation already active.
        session_epoch: SessionEpoch,
    },
    /// The request was refused.
    Rejected(AdmissionRejection),
}

/// Why a group in a pass plan was offered a turn it could not take.
///
/// A stall is the only readiness a pass can see revoked: emptying a queue and poisoning a group
/// both need the dispatch this offer would have been, and removal is refused while a queue holds
/// the work that made the group ready.
#[derive(Clone, Copy, Debug, Eq, PartialEq, Structural)]
pub enum SkipReason {
    /// An external readiness signal stalled the group after the plan was armed.
    Stalled,
}

/// External availability of one group, as reported to the scheduler.
#[derive(Clone, Copy, Debug, Eq, PartialEq, Structural)]
pub enum GroupAvailability {
    /// The group may be dispatched.
    Available,
    /// The group may not be dispatched, whatever its queue holds.
    Stalled,
}

/// One external readiness report for one group.
#[derive(Clone, Copy, Debug, Eq, PartialEq, Structural)]
pub struct ReadinessSignal {
    /// Group the report concerns.
    pub group: GroupId,
    /// Availability the host observed.
    pub availability: GroupAvailability,
}

impl ReadinessSignal {
    /// Reports a group as dispatchable again.
    pub fn available(group: GroupId) -> (r: Self)
        ensures
            r == (ReadinessSignal { group, availability: GroupAvailability::Available }),
    {
        Self { group, availability: GroupAvailability::Available }
    }

    /// Reports a group as blocked by external backpressure.
    pub fn stalled(group: GroupId) -> (r: Self)
        ensures
            r == (ReadinessSignal { group, availability: GroupAvailability::Stalled }),
    {
        Self { group, availability: GroupAvailability::Stalled }
    }
}

/// What happened when a group in the pass plan was offered its turn.
#[derive(Clone, Copy, Debug, Eq, PartialEq, Structural)]
pub enum OfferOutcome {
    /// A worker took the group and serviced work under its quota.
    Dispatched {
        /// Items serviced in this opportunity.
        serviced: u32,
        /// Worker occupancy the opportunity consumed: the exact sum of the serviced costs.
        cost: u64,
    },
    /// The group was offered its turn and had nothing to take.
    Skipped(SkipReason),
}

impl OfferOutcome {
    /// Returns the number of items the opportunity serviced.
    #[verifier::allow_in_spec]
    pub fn serviced(self) -> u32
        returns
            (match self {
                OfferOutcome::Dispatched { serviced, .. } => serviced,
                OfferOutcome::Skipped(_) => 0u32,
            }),
    {
        match self {
            OfferOutcome::Dispatched { serviced, .. } => serviced,
            OfferOutcome::Skipped(_) => 0,
        }
    }

    /// Returns the worker occupancy the opportunity consumed, in ticks.
    #[verifier::allow_in_spec]
    pub fn cost(self) -> u64
        returns
            (match self {
                OfferOutcome::Dispatched { cost, .. } => cost,
                OfferOutcome::Skipped(_) => 0u64,
            }),
    {
        match self {
            OfferOutcome::Dispatched { cost, .. } => cost,
            OfferOutcome::Skipped(_) => 0,
        }
    }
}

/// One group's turn within one pass.
#[derive(Clone, Copy, Debug, Eq, PartialEq, Structural)]
pub struct Offer {
    /// Group whose turn it was.
    pub group: GroupId,
    /// What the group did with it.
    pub outcome: OfferOutcome,
}

/// Why a pass did not finish within the tick that advanced it.
#[derive(Clone, Copy, Debug, Eq, PartialEq, Structural)]
pub enum PassSuspension {
    /// Every worker is occupied. The pass keeps its remaining plan and resumes at the same entry.
    NoFreeWorker,
}

/// What a tick did to the pass in progress.
#[derive(Clone, Copy, Debug, Eq, PartialEq, Structural)]
pub enum PassProgress {
    /// No group was ready, so no plan was armed.
    Idle,
    /// The pass advanced and remains open.
    Suspended(PassSuspension),
    /// Every group in the plan was offered its turn and the plan retired.
    Completed,
}

/// One serviced unit of work.
#[derive(Clone, Copy, Debug, Eq, PartialEq, Structural)]
pub struct ServiceRecord {
    /// Item that was serviced.
    pub work: WorkId,
    /// Group that serviced it.
    pub group: GroupId,
    /// Class it was serviced in.
    pub class: WorkClass,
    /// Counter result, for command-class work.
    pub result: Option<CounterResult>,
}

/// One accepted item retired without being serviced.
#[derive(Clone, Copy, Debug, Eq, PartialEq, Structural)]
pub struct FailureRecord {
    /// Item that was retired.
    pub work: WorkId,
    /// Group that held it.
    pub group: GroupId,
    /// Why it could not be serviced.
    pub reason: WorkFailure,
}

/// Why accepted work was retired without service.
#[derive(Clone, Copy, Debug, Eq, PartialEq, Structural)]
pub enum WorkFailure {
    /// The group was poisoned, and draining reported the loss item by item.
    GroupPoisoned,
}

/// Everything one tick did. The scheduler retains none of it.
#[derive(Clone, Debug, Eq, PartialEq)]
pub struct TickReport {
    /// Tick this report describes.
    pub tick: TickIndex,
    /// Pass the tick advanced, when one was open or armed.
    pub pass: Option<PassIndex>,
    /// Plan armed during this tick, in offer order.
    pub armed: Option<Vec<GroupId>>,
    /// Turns taken during this tick, in order.
    pub offers: Vec<Offer>,
    /// Work serviced during this tick, in order.
    pub serviced: Vec<ServiceRecord>,
    /// Workers whose occupancy ended at this tick, in group order.
    pub released: Vec<GroupId>,
    /// What the tick did to the pass.
    pub progress: PassProgress,
}

/// Public deterministic inspection of one group slot.
#[derive(Clone, Copy, Debug, Eq, PartialEq, Structural)]
pub struct GroupView {
    /// Slot this view describes.
    pub group: GroupId,
    /// Current incarnation.
    pub incarnation: GroupIncarnation,
    /// Current lifecycle state.
    pub state: GroupLifecycle,
    /// Whether the group's own work has poisoned it.
    pub poisoned: bool,
    /// Whether an external readiness signal is holding the group back.
    pub stalled: bool,
    /// Counter value.
    pub counter: i64,
    /// Items queued and not yet retired.
    pub queued: u32,
    /// Work quota for this incarnation.
    pub quota: WorkQuota,
    /// Whether the group is occupying a worker whose cost is not yet paid.
    pub servicing: bool,
}

/// Canonical deterministic state view for differential assertions.
#[derive(Clone, Debug, Eq, PartialEq)]
pub struct SchedulerView {
    /// Every slot that has ever been created, sorted by identifier.
    pub groups: Vec<GroupView>,
    /// Items queued across every group.
    pub queued: u32,
}

/// Aggregate counts for one scheduler.
#[derive(Clone, Copy, Debug, Eq, PartialEq, Structural)]
pub struct SchedulerSummary {
    /// Slots that have been created and not yet removed.
    pub live_groups: u32,
    /// Groups whose own work has poisoned them.
    pub poisoned_groups: u32,
    /// Groups currently in the ready set.
    pub ready_groups: u32,
    /// Items queued across every group.
    pub queued: u32,
    /// Items admitted over the scheduler's life.
    pub admitted: u64,
    /// Items serviced over the scheduler's life.
    pub serviced: u64,
    /// Items retired without service over the scheduler's life.
    pub failed: u64,
}

/// Fixed resource limits for one scheduler.
#[derive(Clone, Copy, Debug, Eq, PartialEq, Structural)]
pub struct SchedulerConfig {
    pub(crate) max_groups: u32,
    pub(crate) workers: u32,
    pub(crate) max_clients_per_group: u32,
    pub(crate) max_group_queue: u32,
    pub(crate) max_global_queue: u32,
}

impl SchedulerConfig {
    /// Bound on addressable group slots.
    pub open(crate) spec fn groups_bound(self) -> u32 {
        self.max_groups
    }

    /// Number of workers.
    pub open(crate) spec fn workers_bound(self) -> u32 {
        self.workers
    }

    /// Bound on client slots per group.
    pub open(crate) spec fn clients_bound(self) -> u32 {
        self.max_clients_per_group
    }

    /// Bound on items one group may hold.
    pub open(crate) spec fn group_queue_bound(self) -> u32 {
        self.max_group_queue
    }

    /// Bound on items the scheduler may hold.
    pub open(crate) spec fn global_queue_bound(self) -> u32 {
        self.max_global_queue
    }

    /// Every bound is positive, and the global queue holds at least one group's queue.
    #[verifier::type_invariant]
    pub open(crate) spec fn valid(self) -> bool {
        &&& self.max_groups > 0
        &&& self.workers > 0
        &&& self.max_clients_per_group > 0
        &&& self.max_group_queue > 0
        &&& self.max_global_queue >= self.max_group_queue
    }

    /// Creates a bounded scheduler configuration.
    ///
    /// A zero bound is refused, and so is a global queue bound below one group's, which would make
    /// the per-group bound unreachable. The first violated bound, in argument order, is named.
    pub fn new(
        max_groups: u32,
        workers: u32,
        max_clients_per_group: u32,
        max_group_queue: u32,
        max_global_queue: u32,
    ) -> (r: Result<Self, SchedulerConfigError>)
        ensures
            match r {
                Ok(config) => {
                    &&& config.valid()
                    &&& config.groups_bound() == max_groups
                    &&& config.workers_bound() == workers
                    &&& config.clients_bound() == max_clients_per_group
                    &&& config.group_queue_bound() == max_group_queue
                    &&& config.global_queue_bound() == max_global_queue
                },
                Err(error) => error == (if max_groups == 0 {
                    SchedulerConfigError::ZeroGroups
                } else if workers == 0 {
                    SchedulerConfigError::ZeroWorkers
                } else if max_clients_per_group == 0 {
                    SchedulerConfigError::ZeroClients
                } else if max_group_queue == 0 {
                    SchedulerConfigError::ZeroGroupQueue
                } else {
                    SchedulerConfigError::GlobalQueueBelowGroupQueue
                }),
            },
            r is Ok <==> max_groups > 0 && workers > 0 && max_clients_per_group > 0
                && max_group_queue > 0 && max_global_queue >= max_group_queue,
    {
        if max_groups == 0 {
            return Err(SchedulerConfigError::ZeroGroups);
        }
        if workers == 0 {
            return Err(SchedulerConfigError::ZeroWorkers);
        }
        if max_clients_per_group == 0 {
            return Err(SchedulerConfigError::ZeroClients);
        }
        if max_group_queue == 0 {
            return Err(SchedulerConfigError::ZeroGroupQueue);
        }
        if max_global_queue < max_group_queue {
            return Err(SchedulerConfigError::GlobalQueueBelowGroupQueue);
        }
        Ok(
            Self {
                max_groups,
                workers,
                max_clients_per_group,
                max_group_queue,
                max_global_queue,
            },
        )
    }

    /// Maximum number of addressable group slots.
    pub fn max_groups(self) -> (r: u32)
        ensures
            r == self.groups_bound(),
            self.valid(),
    {
        proof {
            use_type_invariant(&self);
        }
        self.max_groups
    }

    /// Number of workers that may hold dispatches at once.
    pub fn workers(self) -> (r: u32)
        ensures
            r == self.workers_bound(),
            self.valid(),
    {
        proof {
            use_type_invariant(&self);
        }
        self.workers
    }

    /// Maximum number of client session slots per group.
    pub fn max_clients_per_group(self) -> (r: u32)
        ensures
            r == self.clients_bound(),
    {
        self.max_clients_per_group
    }

    /// Maximum number of items one group may hold.
    pub fn max_group_queue(self) -> (r: u32)
        ensures
            r == self.group_queue_bound(),
    {
        self.max_group_queue
    }

    /// Maximum number of items the scheduler may hold across every group.
    pub fn max_global_queue(self) -> (r: u32)
        ensures
            r == self.global_queue_bound(),
    {
        self.max_global_queue
    }

    /// Returns whether a group identifier addresses a configured slot.
    pub fn admits_group(self, group: GroupId) -> (r: bool)
        ensures
            r == (group@ < self.groups_bound()),
    {
        group.get() < self.max_groups
    }

    /// Returns whether a client identifier addresses a configured session slot.
    pub fn admits_client(self, client: ClientId) -> (r: bool)
        ensures
            r == (client@ < self.clients_bound()),
    {
        client.get() < self.max_clients_per_group
    }
}

/// Invalid scheduler configuration.
#[derive(Clone, Copy, Debug, Eq, PartialEq, Structural)]
pub enum SchedulerConfigError {
    /// No group could ever be created.
    ZeroGroups,
    /// No work could ever be dispatched.
    ZeroWorkers,
    /// No session could ever open.
    ZeroClients,
    /// No work could ever be queued.
    ZeroGroupQueue,
    /// The global bound is below one group's, making the group bound unreachable.
    GlobalQueueBelowGroupQueue,
}


} // verus!
