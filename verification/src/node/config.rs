//! Settings of the programs, read from their arguments, and the failures that a test directs.

pub mod laws;

use vstd::prelude::*;
use vstd::string::{StrSliceExecFns, StringExecFns};

use crate::node::render::{joined, numbered};
use crate::profile::plan::{Profile, ProfileName};
use crate::text::{decimal, is_space, letters, read_unsigned, same_text, separates, unsigned_of};
use crate::types::WorkQuota;

verus! {

/// Most groups of a node.
pub const MAX_GROUPS: u32 = 4096;

/// A setting of a node.
#[derive(Clone, Copy, Debug, Eq, PartialEq, Structural)]
pub enum Setting {
    /// The node's own identity.
    Id,
    /// The members of the cluster.
    Members,
    /// How many groups there are.
    Groups,
    /// Most clients of a group.
    MaxSessions,
    /// Quota of a group.
    Quota,
    /// Directory of the cluster.
    ClusterDirectory,
    /// Ticks until an election.
    ElectionTimeout,
    /// Milliseconds between ticks.
    TickInterval,
    /// Milliseconds until a client is told that nobody knows.
    RequestTimeout,
    /// Workers of the managed host.
    Workers,
    /// Bound of a group's queue.
    MaxGroupQueue,
    /// Bound of all queues together.
    MaxGlobalQueue,
}

/// Why the arguments are refused.
#[derive(Clone, Copy, Debug, Eq, PartialEq, Structural)]
pub enum ConfigError {
    /// A setting is missing.
    Missing {
        /// The setting.
        setting: Setting,
    },
    /// A setting is no number of its range.
    Invalid {
        /// The setting.
        setting: Setting,
    },
    /// A setting is zero.
    Zero {
        /// The setting.
        setting: Setting,
    },
    /// There are not three members, or this node is none of them.
    Members,
    /// There are no groups, or too many.
    GroupCount,
}

impl Setting {
    /// Argument before the setting's value.
    pub open spec fn flag(self) -> Seq<char> {
        match self {
            Setting::Id => "--id"@,
            Setting::Members => "--members"@,
            Setting::Groups => "--groups"@,
            Setting::MaxSessions => "--max-sessions"@,
            Setting::Quota => "--quota"@,
            Setting::ClusterDirectory => "--cluster-dir"@,
            Setting::ElectionTimeout => "--election-timeout-ticks"@,
            Setting::TickInterval => "--tick-interval-ms"@,
            Setting::RequestTimeout => "--request-timeout-ms"@,
            Setting::Workers => "--workers"@,
            Setting::MaxGroupQueue => "--max-group-queue"@,
            Setting::MaxGlobalQueue => "--max-global-queue"@,
        }
    }

    /// Words for the setting.
    pub open spec fn label(self) -> Seq<char> {
        match self {
            Setting::Id => "node id"@,
            Setting::Members => "member id"@,
            Setting::Groups => "group count"@,
            Setting::MaxSessions => "session bound"@,
            Setting::Quota => "quota"@,
            Setting::ClusterDirectory => "cluster directory"@,
            Setting::ElectionTimeout => "election timeout"@,
            Setting::TickInterval => "tick interval"@,
            Setting::RequestTimeout => "request timeout"@,
            Setting::Workers => "worker count"@,
            Setting::MaxGroupQueue => "group queue bound"@,
            Setting::MaxGlobalQueue => "global queue bound"@,
        }
    }

    /// Returns the argument before the setting's value.
    pub fn argument(self) -> (r: &'static str)
        ensures
            r@ == self.flag(),
    {
        match self {
            Setting::Id => "--id",
            Setting::Members => "--members",
            Setting::Groups => "--groups",
            Setting::MaxSessions => "--max-sessions",
            Setting::Quota => "--quota",
            Setting::ClusterDirectory => "--cluster-dir",
            Setting::ElectionTimeout => "--election-timeout-ticks",
            Setting::TickInterval => "--tick-interval-ms",
            Setting::RequestTimeout => "--request-timeout-ms",
            Setting::Workers => "--workers",
            Setting::MaxGroupQueue => "--max-group-queue",
            Setting::MaxGlobalQueue => "--max-global-queue",
        }
    }

    /// Returns words for the setting.
    pub fn words(self) -> (r: &'static str)
        ensures
            r@ == self.label(),
    {
        match self {
            Setting::Id => "node id",
            Setting::Members => "member id",
            Setting::Groups => "group count",
            Setting::MaxSessions => "session bound",
            Setting::Quota => "quota",
            Setting::ClusterDirectory => "cluster directory",
            Setting::ElectionTimeout => "election timeout",
            Setting::TickInterval => "tick interval",
            Setting::RequestTimeout => "request timeout",
            Setting::Workers => "worker count",
            Setting::MaxGroupQueue => "group queue bound",
            Setting::MaxGlobalQueue => "global queue bound",
        }
    }
}

impl ConfigError {
    /// Renders the refusal.
    pub fn render(self) -> (r: String)
        ensures
            r@ == match self {
                ConfigError::Missing { setting } => "missing required argument "@ + setting.flag(),
                ConfigError::Invalid { setting } => setting.label() + " is invalid"@,
                ConfigError::Zero { setting } => setting.label() + " must be nonzero"@,
                ConfigError::Members =>
                    "members must name exactly three nodes including this node"@,
                ConfigError::GroupCount => "group count must be in 1..=4096"@,
            },
    {
        match self {
            ConfigError::Missing { setting } => joined(
                "missing required argument ",
                setting.argument(),
            ),
            ConfigError::Invalid { setting } => joined(setting.words(), " is invalid"),
            ConfigError::Zero { setting } => joined(setting.words(), " must be nonzero"),
            ConfigError::Members => {
                "members must name exactly three nodes including this node".to_owned()
            },
            ConfigError::GroupCount => "group count must be in 1..=4096".to_owned(),
        }
    }
}

// ---------------------------------------------------------------- arguments

/// Contents of arguments.
pub open spec fn words(arguments: Seq<String>) -> Seq<Seq<char>> {
    Seq::new(arguments.len(), |i: int| arguments[i]@)
}

/// Argument after the first `flag` at or after `from`.
pub open spec fn value_from(arguments: Seq<Seq<char>>, flag: Seq<char>, from: nat) -> Option<Seq<char>>
    decreases arguments.len() - from,
{
    if from + 1 >= arguments.len() {
        None
    } else if arguments[from as int] == flag {
        Some(arguments[(from + 1) as int])
    } else {
        value_from(arguments, flag, from + 1)
    }
}

/// Value of a flag: the argument after its first occurrence.
pub open spec fn value_of(arguments: Seq<Seq<char>>, flag: Seq<char>) -> Option<Seq<char>> {
    value_from(arguments, flag, 0)
}

/// Finds the value of a flag.
pub fn find_value<'a>(arguments: &'a Vec<String>, flag: &str) -> (r: Option<&'a String>)
    ensures
        match r {
            Some(value) => value_of(words(arguments@), flag@) == Some(value@),
            None => value_of(words(arguments@), flag@) is None,
        },
{
    let mut i: usize = 0;
    let ghost all = words(arguments@);
    while arguments.len() - i >= 2
        invariant
            all == words(arguments@),
            i <= arguments@.len(),
            value_of(all, flag@) == value_from(all, flag@, i as nat),
        decreases arguments@.len() - i,
    {
        if same_text(arguments[i].as_str(), flag) {
            return Some(&arguments[i + 1]);
        }
        i = i + 1;
    }
    None
}

/// Fields between commas.
pub open spec fn fields_of(text: Seq<char>) -> Seq<Seq<char>>
    decreases text.len(),
{
    if text.len() == 0 {
        seq![Seq::empty()]
    } else {
        let before = fields_of(text.drop_last());
        if text.last() == ',' {
            before.push(Seq::empty())
        } else {
            before.drop_last().push(before.last().push(text.last()))
        }
    }
}

/// Contents of fields.
pub open spec fn field_texts(fields: Seq<Vec<char>>) -> Seq<Seq<char>> {
    Seq::new(fields.len(), |i: int| fields[i]@)
}

fn split_fields(text: &str) -> (r: Vec<Vec<char>>)
    ensures
        field_texts(r@) == fields_of(text@),
{
    let mut fields: Vec<Vec<char>> = Vec::new();
    let mut field: Vec<char> = Vec::new();
    let n: usize = text.unicode_len();
    let mut i: usize = 0;
    assert(text@.take(0) =~= Seq::empty());
    assert(fields_of(text@.take(0)) =~= field_texts(fields@).push(field@));
    while i < n
        invariant
            n == text@.len(),
            i <= n,
            fields_of(text@.take(i as int)) == field_texts(fields@).push(field@),
        decreases n - i,
    {
        let c = text.get_char(i);
        let ghost before = field_texts(fields@).push(field@);
        let ghost more = text@.take(i + 1);
        assert(more.drop_last() =~= text@.take(i as int));
        assert(more.last() == c);
        if c == ',' {
            let ghost old_fields = fields@;
            let ghost old_field = field@;
            fields.push(field);
            field = Vec::new();
            assert(field_texts(fields@) =~= field_texts(old_fields).push(old_field));
        } else {
            field.push(c);
            assert(before.drop_last() =~= field_texts(fields@));
        }
        i = i + 1;
        assert(fields_of(more) =~= field_texts(fields@).push(field@));
    }
    assert(text@.take(i as int) =~= text@);
    let ghost old_fields = fields@;
    let ghost old_field = field@;
    fields.push(field);
    assert(field_texts(fields@) =~= field_texts(old_fields).push(old_field));
    fields
}

// ----------------------------------------------------------------- settings

/// Number of a setting, no larger than `max`.
pub open spec fn number_setting(arguments: Seq<Seq<char>>, setting: Setting, max: nat) -> Result<
    nat,
    ConfigError,
> {
    match value_of(arguments, setting.flag()) {
        None => Err(ConfigError::Missing { setting }),
        Some(value) => match unsigned_of(value, max) {
            None => Err(ConfigError::Invalid { setting }),
            Some(n) => Ok(n),
        },
    }
}

/// Number of a setting that may not be zero.
pub open spec fn nonzero_setting(arguments: Seq<Seq<char>>, setting: Setting, max: nat) -> Result<
    nat,
    ConfigError,
> {
    match number_setting(arguments, setting, max) {
        Err(error) => Err(error),
        Ok(n) => if n == 0 {
            Err(ConfigError::Zero { setting })
        } else {
            Ok(n)
        },
    }
}

fn read_setting(arguments: &Vec<String>, setting: Setting, max: u64) -> (r: Result<
    u64,
    ConfigError,
>)
    ensures
        match number_setting(words(arguments@), setting, max as nat) {
            Ok(n) => r == Ok::<u64, ConfigError>(n as u64) && n <= max,
            Err(error) => r == Err::<u64, ConfigError>(error),
        },
{
    let Some(value) = find_value(arguments, setting.argument()) else {
        return Err(ConfigError::Missing { setting });
    };
    let digits = letters(value.as_str());
    match read_unsigned(&digits, max) {
        None => Err(ConfigError::Invalid { setting }),
        Some(n) => Ok(n),
    }
}

fn read_nonzero(arguments: &Vec<String>, setting: Setting, max: u64) -> (r: Result<
    u64,
    ConfigError,
>)
    ensures
        match nonzero_setting(words(arguments@), setting, max as nat) {
            Ok(n) => r == Ok::<u64, ConfigError>(n as u64) && 0 < n <= max,
            Err(error) => r == Err::<u64, ConfigError>(error),
        },
{
    match read_setting(arguments, setting, max) {
        Err(error) => Err(error),
        Ok(n) => if n == 0 {
            Err(ConfigError::Zero { setting })
        } else {
            Ok(n)
        },
    }
}

/// The numbers of fields, or the refusal of the first that is none.
pub open spec fn numbers_of(fields: Seq<Seq<char>>) -> Result<Seq<u64>, ConfigError>
    decreases fields.len(),
{
    if fields.len() == 0 {
        Ok(Seq::empty())
    } else {
        match numbers_of(fields.drop_last()) {
            Err(error) => Err(error),
            Ok(numbers) => match unsigned_of(fields.last(), u64::MAX as nat) {
                None => Err(ConfigError::Invalid { setting: Setting::Members }),
                Some(n) => Ok(numbers.push(n as u64)),
            },
        }
    }
}

/// A refusal stands whatever follows.
proof fn lemma_numbers_refused(fields: Seq<Seq<char>>, n: int)
    requires
        0 <= n <= fields.len(),
        numbers_of(fields.take(n)) is Err,
    ensures
        numbers_of(fields) == numbers_of(fields.take(n)),
    decreases fields.len(),
{
    if n == fields.len() {
        assert(fields.take(n) =~= fields);
    } else {
        assert(fields.drop_last().take(n) =~= fields.take(n));
        lemma_numbers_refused(fields.drop_last(), n);
    }
}

/// The members of the cluster.
pub open spec fn members_setting(arguments: Seq<Seq<char>>) -> Result<Seq<u64>, ConfigError> {
    match value_of(arguments, Setting::Members.flag()) {
        None => Err(ConfigError::Missing { setting: Setting::Members }),
        Some(value) => numbers_of(fields_of(value)),
    }
}

fn read_members(arguments: &Vec<String>) -> (r: Result<Vec<u64>, ConfigError>)
    ensures
        match members_setting(words(arguments@)) {
            Ok(members) => r is Ok && r->Ok_0@ == members,
            Err(error) => r is Err && r->Err_0 == error,
        },
{
    let Some(value) = find_value(arguments, Setting::Members.argument()) else {
        return Err(ConfigError::Missing { setting: Setting::Members });
    };
    let fields = split_fields(value.as_str());
    let ghost all = fields_of(value@);
    let mut members: Vec<u64> = Vec::new();
    let mut i: usize = 0;
    assert(all.take(0) =~= Seq::empty());
    while i < fields.len()
        invariant
            value_of(words(arguments@), Setting::Members.flag()) == Some(value@),
            all == fields_of(value@),
            field_texts(fields@) == all,
            i <= fields@.len(),
            numbers_of(all.take(i as int)) == Ok::<Seq<u64>, ConfigError>(members@),
        decreases fields@.len() - i,
    {
        let ghost more = all.take(i + 1);
        assert(more.drop_last() =~= all.take(i as int));
        assert(more.last() == fields@[i as int]@);
        match read_unsigned(&fields[i], u64::MAX) {
            None => {
                proof {
                    lemma_numbers_refused(all, i + 1);
                }
                return Err(ConfigError::Invalid { setting: Setting::Members });
            },
            Some(n) => {
                members.push(n);
            },
        }
        i = i + 1;
    }
    assert(all.take(i as int) =~= all);
    Ok(members)
}

fn contains_node(members: &Vec<u64>, node: u64) -> (r: bool)
    ensures
        r == members@.contains(node),
{
    let mut i: usize = 0;
    while i < members.len()
        invariant
            i <= members@.len(),
            forall|k: int| 0 <= k < i ==> members@[k] != node,
        decreases members@.len() - i,
    {
        if members[i] == node {
            assert(members@[i as int] == node);
            return true;
        }
        i = i + 1;
    }
    false
}

/// Settings of a node.
#[derive(Debug)]
pub struct Config {
    /// The node's own identity.
    pub node_id: u64,
    /// The members of the cluster.
    pub members: Vec<u64>,
    /// Directory of the cluster.
    pub cluster_dir: String,
    /// How many groups there are.
    pub group_count: u32,
    /// Ticks until an election.
    pub election_timeout_ticks: u64,
    /// Milliseconds between ticks.
    pub tick_interval: u64,
    /// Milliseconds until a client is told that nobody knows.
    pub request_timeout: u64,
    /// Most clients of a group.
    pub max_sessions: usize,
    /// Quota of a group.
    pub quota: WorkQuota,
    /// Workers of the managed host.
    pub workers: usize,
    /// Bound of a group's queue.
    pub max_group_queue: usize,
    /// Bound of all queues together.
    pub max_global_queue: usize,
}

/// Settings of a node, as mathematical values.
#[verifier::ext_equal]
pub struct ConfigView {
    /// The node's own identity.
    pub node_id: nat,
    /// The members of the cluster.
    pub members: Seq<u64>,
    /// Directory of the cluster.
    pub cluster_dir: Seq<char>,
    /// How many groups there are.
    pub group_count: nat,
    /// Ticks until an election.
    pub election_timeout_ticks: nat,
    /// Milliseconds between ticks.
    pub tick_interval: nat,
    /// Milliseconds until a client is told that nobody knows.
    pub request_timeout: nat,
    /// Most clients of a group.
    pub max_sessions: nat,
    /// Quota of a group.
    pub quota: nat,
    /// Workers of the managed host.
    pub workers: nat,
    /// Bound of a group's queue.
    pub max_group_queue: nat,
    /// Bound of all queues together.
    pub max_global_queue: nat,
}

/// Who the node is: its identity, and the members of its cluster.
pub open spec fn identity_of(arguments: Seq<Seq<char>>) -> Result<(nat, Seq<u64>), ConfigError> {
    match number_setting(arguments, Setting::Id, u64::MAX as nat) {
        Err(error) => Err(error),
        Ok(node) => match members_setting(arguments) {
            Err(error) => Err(error),
            Ok(members) => if members.len() != 3 || !members.contains(node as u64) {
                Err(ConfigError::Members)
            } else {
                Ok((node, members))
            },
        },
    }
}

/// What the node serves: its groups, the clients of a group, and a group's quota.
pub open spec fn service_of(arguments: Seq<Seq<char>>) -> Result<(nat, nat, nat), ConfigError> {
    match number_setting(arguments, Setting::Groups, u32::MAX as nat) {
        Err(error) => Err(error),
        Ok(groups) => if groups == 0 || groups > MAX_GROUPS {
            Err(ConfigError::GroupCount)
        } else {
            match nonzero_setting(arguments, Setting::MaxSessions, usize::MAX as nat) {
                Err(error) => Err(error),
                Ok(sessions) => match nonzero_setting(arguments, Setting::Quota, u32::MAX as nat) {
                    Err(error) => Err(error),
                    Ok(quota) => Ok((groups, sessions, quota)),
                },
            }
        },
    }
}

/// When the node acts: the ticks until an election, the time between ticks, and the time that a
/// client waits.
pub open spec fn times_of(arguments: Seq<Seq<char>>) -> Result<(nat, nat, nat), ConfigError> {
    match number_setting(arguments, Setting::ElectionTimeout, u64::MAX as nat) {
        Err(error) => Err(error),
        Ok(election) => match nonzero_setting(arguments, Setting::TickInterval, u64::MAX as nat) {
            Err(error) => Err(error),
            Ok(tick) => match nonzero_setting(
                arguments,
                Setting::RequestTimeout,
                u64::MAX as nat,
            ) {
                Err(error) => Err(error),
                Ok(request) => Ok((election, tick, request)),
            },
        },
    }
}

/// Bounds of the managed host.
pub open spec fn bounds_of(arguments: Seq<Seq<char>>) -> Result<(nat, nat, nat), ConfigError> {
    match nonzero_setting(arguments, Setting::Workers, usize::MAX as nat) {
        Err(error) => Err(error),
        Ok(workers) => match nonzero_setting(
            arguments,
            Setting::MaxGroupQueue,
            usize::MAX as nat,
        ) {
            Err(error) => Err(error),
            Ok(group) => match nonzero_setting(
                arguments,
                Setting::MaxGlobalQueue,
                usize::MAX as nat,
            ) {
                Err(error) => Err(error),
                Ok(global) => Ok((workers, group, global)),
            },
        },
    }
}

/// Settings that arguments stand for.
pub open spec fn config_of(arguments: Seq<Seq<char>>) -> Result<ConfigView, ConfigError> {
    match identity_of(arguments) {
        Err(error) => Err(error),
        Ok(identity) => match service_of(arguments) {
            Err(error) => Err(error),
            Ok(service) => match value_of(arguments, Setting::ClusterDirectory.flag()) {
                None => Err(ConfigError::Missing { setting: Setting::ClusterDirectory }),
                Some(cluster_dir) => match times_of(arguments) {
                    Err(error) => Err(error),
                    Ok(times) => match bounds_of(arguments) {
                        Err(error) => Err(error),
                        Ok(bounds) => Ok(
                            ConfigView {
                                node_id: identity.0,
                                members: identity.1,
                                cluster_dir,
                                group_count: service.0,
                                election_timeout_ticks: times.0,
                                tick_interval: times.1,
                                request_timeout: times.2,
                                max_sessions: service.1,
                                quota: service.2,
                                workers: bounds.0,
                                max_group_queue: bounds.1,
                                max_global_queue: bounds.2,
                            },
                        ),
                    },
                },
            },
        },
    }
}

fn read_identity(arguments: &Vec<String>) -> (r: Result<(u64, Vec<u64>), ConfigError>)
    ensures
        match identity_of(words(arguments@)) {
            Ok(identity) => r is Ok && r->Ok_0.0 == identity.0 && r->Ok_0.1@ == identity.1,
            Err(error) => r is Err && r->Err_0 == error,
        },
{
    let node: u64 = match read_setting(arguments, Setting::Id, u64::MAX) {
        Ok(node) => node,
        Err(error) => {
            return Err(error);
        },
    };
    let members = match read_members(arguments) {
        Ok(members) => members,
        Err(error) => {
            return Err(error);
        },
    };
    if members.len() != 3 || !contains_node(&members, node) {
        return Err(ConfigError::Members);
    }
    Ok((node, members))
}

fn read_service(arguments: &Vec<String>) -> (r: Result<(u32, usize, WorkQuota), ConfigError>)
    ensures
        match service_of(words(arguments@)) {
            Ok(service) => r is Ok && r->Ok_0.0 == service.0 && r->Ok_0.1 == service.1
                && r->Ok_0.2@ == service.2 && r->Ok_0.2.valid(),
            Err(error) => r is Err && r->Err_0 == error,
        },
{
    let groups: u64 = match read_setting(arguments, Setting::Groups, u32::MAX as u64) {
        Ok(groups) => groups,
        Err(error) => {
            return Err(error);
        },
    };
    if groups == 0 || groups > MAX_GROUPS as u64 {
        return Err(ConfigError::GroupCount);
    }
    let sessions: u64 = match read_nonzero(arguments, Setting::MaxSessions, usize::MAX as u64) {
        Ok(sessions) => sessions,
        Err(error) => {
            return Err(error);
        },
    };
    match read_nonzero(arguments, Setting::Quota, u32::MAX as u64) {
        Ok(quota) => Ok((groups as u32, sessions as usize, WorkQuota(quota as u32))),
        Err(error) => Err(error),
    }
}

fn read_times(arguments: &Vec<String>) -> (r: Result<(u64, u64, u64), ConfigError>)
    ensures
        match times_of(words(arguments@)) {
            Ok(times) => r is Ok && r->Ok_0.0 == times.0 && r->Ok_0.1 == times.1 && r->Ok_0.2
                == times.2,
            Err(error) => r is Err && r->Err_0 == error,
        },
{
    let election: u64 = match read_setting(arguments, Setting::ElectionTimeout, u64::MAX) {
        Ok(election) => election,
        Err(error) => {
            return Err(error);
        },
    };
    let tick: u64 = match read_nonzero(arguments, Setting::TickInterval, u64::MAX) {
        Ok(tick) => tick,
        Err(error) => {
            return Err(error);
        },
    };
    match read_nonzero(arguments, Setting::RequestTimeout, u64::MAX) {
        Ok(request) => Ok((election, tick, request)),
        Err(error) => Err(error),
    }
}

fn read_bounds(arguments: &Vec<String>) -> (r: Result<(usize, usize, usize), ConfigError>)
    ensures
        match bounds_of(words(arguments@)) {
            Ok(bounds) => r is Ok && r->Ok_0.0 == bounds.0 && r->Ok_0.1 == bounds.1 && r->Ok_0.2
                == bounds.2,
            Err(error) => r is Err && r->Err_0 == error,
        },
{
    let workers: u64 = match read_nonzero(arguments, Setting::Workers, usize::MAX as u64) {
        Ok(workers) => workers,
        Err(error) => {
            return Err(error);
        },
    };
    let group: u64 = match read_nonzero(arguments, Setting::MaxGroupQueue, usize::MAX as u64) {
        Ok(group) => group,
        Err(error) => {
            return Err(error);
        },
    };
    match read_nonzero(arguments, Setting::MaxGlobalQueue, usize::MAX as u64) {
        Ok(global) => Ok((workers as usize, group as usize, global as usize)),
        Err(error) => Err(error),
    }
}

impl Config {
    /// The settings as mathematical values.
    pub open(crate) spec fn view(self) -> ConfigView {
        ConfigView {
            node_id: self.node_id as nat,
            members: self.members@,
            cluster_dir: self.cluster_dir@,
            group_count: self.group_count as nat,
            election_timeout_ticks: self.election_timeout_ticks as nat,
            tick_interval: self.tick_interval as nat,
            request_timeout: self.request_timeout as nat,
            max_sessions: self.max_sessions as nat,
            quota: self.quota@ as nat,
            workers: self.workers as nat,
            max_group_queue: self.max_group_queue as nat,
            max_global_queue: self.max_global_queue as nat,
        }
    }

    /// Reads the settings of a node.
    pub fn parse(arguments: &Vec<String>) -> (r: Result<Self, ConfigError>)
        ensures
            match config_of(words(arguments@)) {
                Ok(config) => r is Ok && r->Ok_0@ == config && r->Ok_0.quota.valid(),
                Err(error) => r is Err && r->Err_0 == error,
            },
    {
        let (node_id, members) = match read_identity(arguments) {
            Ok(identity) => identity,
            Err(error) => {
                return Err(error);
            },
        };
        let (group_count, max_sessions, quota) = match read_service(arguments) {
            Ok(service) => service,
            Err(error) => {
                return Err(error);
            },
        };
        let Some(cluster_dir) = find_value(
            arguments,
            Setting::ClusterDirectory.argument(),
        ) else {
            return Err(ConfigError::Missing { setting: Setting::ClusterDirectory });
        };
        let (election_timeout_ticks, tick_interval, request_timeout) = match read_times(
            arguments,
        ) {
            Ok(times) => times,
            Err(error) => {
                return Err(error);
            },
        };
        let (workers, max_group_queue, max_global_queue) = match read_bounds(arguments) {
            Ok(bounds) => bounds,
            Err(error) => {
                return Err(error);
            },
        };
        let config = Self {
            node_id,
            members,
            cluster_dir: cluster_dir.as_str().to_owned(),
            group_count,
            election_timeout_ticks,
            tick_interval,
            request_timeout,
            max_sessions,
            quota,
            workers,
            max_group_queue,
            max_global_queue,
        };
        assert(config@ =~= config_of(words(arguments@))->Ok_0);
        Ok(config)
    }
}

/// Returns the name of a node's directory within its cluster's.
pub fn host_dir(node_id: u64) -> (r: String)
    ensures
        r@ == "host-"@ + decimal(node_id as nat),
{
    numbered("host-", node_id)
}

// ------------------------------------------------------------------ profiles

/// Why the arguments of a profile are refused.
#[derive(Clone, Copy, Debug, Eq, PartialEq, Structural)]
pub enum ProfileError {
    /// The profile's name is missing.
    MissingProfile,
    /// No profile has the name.
    UnknownProfile,
    /// The seed is no number.
    Seed,
    /// The artifact directory is missing.
    MissingArtifacts,
}

impl ProfileError {
    /// Renders the refusal. `name` is the name that was given, with its quotes and control
    /// characters escaped.
    pub fn render(self, name: &str) -> (r: String)
        ensures
            r@ == match self {
                ProfileError::MissingProfile => "missing required argument --profile"@,
                ProfileError::UnknownProfile => "unknown profile \""@ + name@
                    + "\"; expected counter-fast, counter-nightly, or counter-weekly"@,
                ProfileError::Seed => "seed is not a u64"@,
                ProfileError::MissingArtifacts => "missing required argument --artifacts"@,
            },
    {
        match self {
            ProfileError::MissingProfile => "missing required argument --profile".to_owned(),
            ProfileError::UnknownProfile => {
                let mut text = joined("unknown profile \"", name);
                text.append("\"; expected counter-fast, counter-nightly, or counter-weekly");
                text
            },
            ProfileError::Seed => "seed is not a u64".to_owned(),
            ProfileError::MissingArtifacts => "missing required argument --artifacts".to_owned(),
        }
    }
}

/// Settings of a profile.
#[derive(Debug)]
pub struct ProfileConfig {
    /// The profile.
    pub profile: Profile,
    /// Its seed.
    pub seed: u64,
    /// Directory of its artifacts.
    pub artifacts: String,
}

/// Profile of a name.
pub open spec fn profile_named(name: Seq<char>) -> Option<Profile> {
    if name == "counter-fast"@ {
        Some(ProfileName::Fast.profile())
    } else if name == "counter-nightly"@ {
        Some(ProfileName::Nightly.profile())
    } else if name == "counter-weekly"@ {
        Some(ProfileName::Weekly.profile())
    } else {
        None
    }
}

/// Profile, seed and artifact directory that arguments stand for.
pub open spec fn profile_config_of(arguments: Seq<Seq<char>>) -> Result<
    (Profile, nat, Seq<char>),
    ProfileError,
> {
    match value_of(arguments, "--profile"@) {
        None => Err(ProfileError::MissingProfile),
        Some(name) => match profile_named(name) {
            None => Err(ProfileError::UnknownProfile),
            Some(profile) => {
                let seed = match value_of(arguments, "--seed"@) {
                    None => Some(profile.default_seed as nat),
                    Some(value) => unsigned_of(value, u64::MAX as nat),
                };
                match seed {
                    None => Err(ProfileError::Seed),
                    Some(seed) => match value_of(arguments, "--artifacts"@) {
                        None => Err(ProfileError::MissingArtifacts),
                        Some(artifacts) => Ok((profile, seed, artifacts)),
                    },
                }
            },
        },
    }
}

impl ProfileConfig {
    /// Reads the settings of a profile.
    pub fn parse(arguments: &Vec<String>) -> (r: Result<Self, ProfileError>)
        ensures
            match profile_config_of(words(arguments@)) {
                Ok(config) => r is Ok && r->Ok_0.profile == config.0 && r->Ok_0.seed == config.1
                    && r->Ok_0.artifacts@ == config.2,
                Err(error) => r is Err && r->Err_0 == error,
            },
    {
        let Some(name) = find_value(arguments, "--profile") else {
            return Err(ProfileError::MissingProfile);
        };
        let Some(profile) = Profile::named(name.as_str()) else {
            return Err(ProfileError::UnknownProfile);
        };
        let seed: u64 = match find_value(arguments, "--seed") {
            None => profile.default_seed,
            Some(value) => {
                let digits = letters(value.as_str());
                match read_unsigned(&digits, u64::MAX) {
                    None => {
                        return Err(ProfileError::Seed);
                    },
                    Some(seed) => seed,
                }
            },
        };
        let Some(artifacts) = find_value(arguments, "--artifacts") else {
            return Err(ProfileError::MissingArtifacts);
        };
        Ok(Self { profile, seed, artifacts: artifacts.as_str().to_owned() })
    }
}

// ---------------------------------------------------------- directed failures

/// A text without the separators around it.
pub open spec fn trimmed(text: Seq<char>) -> Seq<char>
    decreases text.len(),
{
    if text.len() > 0 && is_space(text[0]) {
        trimmed(text.skip(1))
    } else if text.len() > 0 && is_space(text.last()) {
        trimmed(text.drop_last())
    } else {
        text
    }
}

fn is_trimmed(text: &str, name: &str) -> (r: bool)
    ensures
        r == (trimmed(text@) == name@),
{
    let n: usize = text.unicode_len();
    let mut from: usize = 0;
    assert(text@.subrange(0, n as int) =~= text@);
    while from < n && separates(text.get_char(from))
        invariant
            n == text@.len(),
            from <= n,
            trimmed(text@) == trimmed(text@.subrange(from as int, n as int)),
        ensures
            from <= n,
            trimmed(text@) == trimmed(text@.subrange(from as int, n as int)),
            from < n ==> !is_space(text@[from as int]),
        decreases n - from,
    {
        assert(text@.subrange(from as int, n as int).skip(1) =~= text@.subrange(
            from + 1,
            n as int,
        ));
        from = from + 1;
    }
    let mut to: usize = n;
    while from < to && separates(text.get_char(to - 1))
        invariant
            n == text@.len(),
            from <= to <= n,
            from < n ==> !is_space(text@[from as int]),
            trimmed(text@) == trimmed(text@.subrange(from as int, to as int)),
        ensures
            from <= to <= n,
            trimmed(text@) == trimmed(text@.subrange(from as int, to as int)),
            from < to ==> !is_space(text@[from as int]) && !is_space(text@[to - 1]),
        decreases to - from,
    {
        assert(text@.subrange(from as int, to as int).drop_last() =~= text@.subrange(
            from as int,
            to - 1,
        ));
        to = to - 1;
    }
    let ghost rest = text@.subrange(from as int, to as int);
    assert(trimmed(text@) == rest);
    if name.unicode_len() != to - from {
        return false;
    }
    let mut i: usize = 0;
    while i < to - from
        invariant
            from <= to <= text@.len(),
            rest == text@.subrange(from as int, to as int),
            trimmed(text@) == rest,
            name@.len() == to - from,
            i <= to - from,
            forall|k: int| 0 <= k < i ==> rest[k] == name@[k],
        decreases to - from - i,
    {
        if text.get_char(from + i) != name.get_char(i) {
            assert(rest[i as int] != name@[i as int]);
            return false;
        }
        i = i + 1;
    }
    assert(rest =~= name@);
    true
}

/// The failure point is armed: the variable names it, or the file does, whatever separators stand
/// around the name there.
pub open spec fn armed(name: Seq<char>, variable: Option<Seq<char>>, file: Option<Seq<char>>) -> bool {
    variable == Some(name) || (file is Some && trimmed(file->0) == name)
}

/// Content of an optional text.
pub open spec fn content(text: Option<&str>) -> Option<Seq<char>> {
    match text {
        Some(text) => Some(text@),
        None => None,
    }
}

/// Returns whether a failure point is armed by the variable, or by the file.
pub fn directed_failpoint_armed(name: &str, variable: Option<&str>, file: Option<&str>) -> (r: bool)
    ensures
        r == armed(name@, content(variable), content(file)),
{
    let by_variable = match variable {
        Some(value) => same_text(value, name),
        None => false,
    };
    let by_file = match file {
        Some(text) => is_trimmed(text, name),
        None => false,
    };
    by_variable || by_file
}

/// Fails where the failure point is armed.
pub fn directed_io_failure(name: &str, variable: Option<&str>, file: Option<&str>) -> (r: Result<
    (),
    String,
>)
    ensures
        r is Err <==> armed(name@, content(variable), content(file)),
        r is Err ==> r->Err_0@ == "directed I/O failure at "@ + name@,
{
    if directed_failpoint_armed(name, variable, file) {
        return Err(joined("directed I/O failure at ", name));
    }
    Ok(())
}

} // verus!
