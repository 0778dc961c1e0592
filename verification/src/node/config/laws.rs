//! What arguments configure, stated by the arguments themselves.

use vstd::prelude::*;

use crate::node::config::{
    directed_failpoint_armed, fields_of, find_value, host_dir, numbers_of, trimmed, value_from,
    value_of, words, Config, ConfigError, ProfileConfig, ProfileError, Setting,
};
use crate::profile::plan::ProfileName;
use crate::text::laws::law_decimal_is_positional;
use crate::text::{decimal, is_space, law_unsigned_round_trips, unsigned_of};

verus! {

// ---------------------------------------------------------------------- flags

/// The flag stands at this place, with an argument behind it, and nowhere before.
pub open spec fn stands_first(arguments: Seq<String>, flag: Seq<char>, i: int) -> bool {
    &&& 0 <= i < arguments.len() - 1
    &&& arguments[i]@ == flag
    &&& forall|k: int| 0 <= k < i ==> (#[trigger] arguments[k])@ != flag
}

/// The argument behind the first such flag is this text.
pub open spec fn gives(arguments: Seq<String>, flag: Seq<char>, value: Seq<char>) -> bool {
    exists|i: int| #[trigger] stands_first(arguments, flag, i) && arguments[i + 1]@ == value
}

/// No such flag has an argument behind it.
pub open spec fn lacks(arguments: Seq<String>, flag: Seq<char>) -> bool {
    forall|i: int| 0 <= i < arguments.len() - 1 ==> (#[trigger] arguments[i])@ != flag
}

/// The argument behind the first such flag is this number.
pub open spec fn counts(arguments: Seq<String>, flag: Seq<char>, max: nat, n: nat) -> bool {
    exists|value: Seq<char>| #[trigger]
        gives(arguments, flag, value) && unsigned_of(value, max) == Some(n)
}

proof fn lemma_value(arguments: Seq<String>, flag: Seq<char>, from: nat)
    requires
        from <= arguments.len(),
        forall|k: int| 0 <= k < from ==> (#[trigger] arguments[k])@ != flag,
    ensures
        match value_from(words(arguments), flag, from) {
            Some(value) => gives(arguments, flag, value),
            None => lacks(arguments, flag),
        },
    decreases arguments.len() - from,
{
    if from + 1 < arguments.len() {
        if arguments[from as int]@ == flag {
            assert(stands_first(arguments, flag, from as int));
        } else {
            lemma_value(arguments, flag, from + 1);
        }
    }
}

proof fn lemma_one_value(arguments: Seq<String>, flag: Seq<char>, a: Seq<char>, b: Seq<char>)
    requires
        gives(arguments, flag, a),
        gives(arguments, flag, b),
    ensures
        a == b,
{
    let i = choose|i: int| #[trigger]
        stands_first(arguments, flag, i) && arguments[i + 1]@ == a;
    let j = choose|j: int| #[trigger]
        stands_first(arguments, flag, j) && arguments[j + 1]@ == b;
    if i < j {
        assert(arguments[i]@ != flag);
    }
    if j < i {
        assert(arguments[j]@ != flag);
    }
}

/// A flag's value is the argument behind its first occurrence. It has none where no argument follows.
pub proof fn law_flags_give_the_next_argument(
    arguments: Vec<String>,
    flag: &str,
    r: Option<&String>,
)
    requires
        call_ensures(find_value, (&arguments, flag), r),
    ensures
        r is Some ==> gives(arguments@, flag@, r->0@),
        r is None <==> lacks(arguments@, flag@),
{
    lemma_value(arguments@, flag@, 0);
    if r is Some {
        let i = choose|i: int| #[trigger]
            stands_first(arguments@, flag@, i) && arguments@[i + 1]@ == r->0@;
        assert(arguments@[i]@ == flag@);
    }
}

/// Every setting stands behind its own flag.
pub proof fn law_settings_have_flags(setting: Setting, r: &str)
    requires
        call_ensures(Setting::argument, (setting,), r),
    ensures
        setting == Setting::Id ==> r@ == "--id"@,
        setting == Setting::Members ==> r@ == "--members"@,
        setting == Setting::Groups ==> r@ == "--groups"@,
        setting == Setting::MaxSessions ==> r@ == "--max-sessions"@,
        setting == Setting::Quota ==> r@ == "--quota"@,
        setting == Setting::ClusterDirectory ==> r@ == "--cluster-dir"@,
        setting == Setting::ElectionTimeout ==> r@ == "--election-timeout-ticks"@,
        setting == Setting::TickInterval ==> r@ == "--tick-interval-ms"@,
        setting == Setting::RequestTimeout ==> r@ == "--request-timeout-ms"@,
        setting == Setting::Workers ==> r@ == "--workers"@,
        setting == Setting::MaxGroupQueue ==> r@ == "--max-group-queue"@,
        setting == Setting::MaxGlobalQueue ==> r@ == "--max-global-queue"@,
{
}

// --------------------------------------------------------------------- fields

/// The text has no comma.
pub open spec fn is_field(text: Seq<char>) -> bool {
    forall|i: int| 0 <= i < text.len() ==> #[trigger] text[i] != ','
}

proof fn lemma_fields(text: Seq<char>, field: Seq<char>)
    requires
        is_field(field),
    ensures
        fields_of(text).len() > 0,
        fields_of(text + field) == fields_of(text).drop_last().push(fields_of(text).last() + field),
    decreases field.len(),
{
    lemma_some_field(text);
    if field.len() == 0 {
        assert(text + field =~= text);
        assert(fields_of(text).last() + field =~= fields_of(text).last());
        assert(fields_of(text).drop_last().push(fields_of(text).last()) =~= fields_of(text));
    } else {
        let shorter = field.drop_last();
        assert(is_field(shorter)) by {
            assert forall|i: int| 0 <= i < shorter.len() implies #[trigger] shorter[i] != ',' by {
                assert(shorter[i] == field[i]);
            }
        }
        lemma_fields(text, shorter);
        assert((text + field).drop_last() =~= text + shorter);
        assert((text + field).last() == field.last());
        assert(field.last() == field[field.len() - 1]);
        let before = fields_of(text + shorter);
        assert(before.drop_last() =~= fields_of(text).drop_last());
        assert(before.last().push(field.last()) =~= fields_of(text).last() + field);
    }
}

proof fn lemma_some_field(text: Seq<char>)
    ensures
        fields_of(text).len() > 0,
    decreases text.len(),
{
    if text.len() > 0 {
        lemma_some_field(text.drop_last());
    }
}

proof fn lemma_comma(text: Seq<char>)
    ensures
        fields_of(text + seq![',']) == fields_of(text).push(Seq::empty()),
{
    assert((text + seq![',']).drop_last() =~= text);
}

proof fn lemma_decimal_is_a_field(n: nat)
    ensures
        is_field(decimal(n)),
    decreases n,
{
    law_decimal_is_positional(n);
    if n >= 10 {
        lemma_decimal_is_a_field(n / 10);
        assert forall|i: int| 0 <= i < decimal(n).len() implies #[trigger] decimal(n)[i] != ',' by {
            if i < decimal(n / 10).len() {
                assert(decimal(n)[i] == decimal(n / 10)[i]);
            }
        }
    }
}

/// Fields come back as they were put between commas.
pub proof fn law_fields_stand_between_commas(a: Seq<char>, b: Seq<char>, c: Seq<char>)
    requires
        is_field(a),
        is_field(b),
        is_field(c),
    ensures
        fields_of(a + seq![','] + b + seq![','] + c) == seq![a, b, c],
{
    let none = Seq::<char>::empty();
    lemma_fields(none, a);
    assert(none + a =~= a);
    assert(fields_of(a) =~= seq![a]);
    lemma_comma(a);
    lemma_fields(a + seq![','], b);
    assert(none + b =~= b);
    assert(fields_of(a + seq![','] + b) =~= seq![a, b]);
    lemma_comma(a + seq![','] + b);
    lemma_fields(a + seq![','] + b + seq![','], c);
    assert(none + c =~= c);
    assert(fields_of(a + seq![','] + b + seq![','] + c) =~= seq![a, b, c]);
}

/// Three numbers written between commas are the three members.
pub proof fn law_written_members_are_read(a: u64, b: u64, c: u64)
    ensures
        numbers_of(
            fields_of(
                decimal(a as nat) + seq![','] + decimal(b as nat) + seq![','] + decimal(c as nat),
            ),
        ) == Ok::<Seq<u64>, ConfigError>(seq![a, b, c]),
{
    lemma_decimal_is_a_field(a as nat);
    lemma_decimal_is_a_field(b as nat);
    lemma_decimal_is_a_field(c as nat);
    let (x, y, z) = (decimal(a as nat), decimal(b as nat), decimal(c as nat));
    law_fields_stand_between_commas(x, y, z);
    law_unsigned_round_trips(a as nat, u64::MAX as nat);
    law_unsigned_round_trips(b as nat, u64::MAX as nat);
    law_unsigned_round_trips(c as nat, u64::MAX as nat);
    let three = seq![x, y, z];
    assert(three.drop_last() =~= seq![x, y]);
    assert(seq![x, y].drop_last() =~= seq![x]);
    assert(seq![x].drop_last() =~= Seq::<Seq<char>>::empty());
    assert(numbers_of(Seq::<Seq<char>>::empty()) == Ok::<Seq<u64>, ConfigError>(Seq::empty()));
    assert(numbers_of(seq![x]) == Ok::<Seq<u64>, ConfigError>(Seq::<u64>::empty().push(a)));
    assert(numbers_of(seq![x, y]) == Ok::<Seq<u64>, ConfigError>(
        Seq::<u64>::empty().push(a).push(b),
    ));
    assert(numbers_of(three)->Ok_0 =~= seq![a, b, c]);
}

// ---------------------------------------------------------------------- parse

/// A node is configured by what its flags give: its identity among three members, its directory, and
/// its numbers, of which only the identity and the election timeout can be zero. There are at most 4096
/// groups.
pub proof fn law_flags_configure_the_node(
    arguments: Vec<String>,
    r: Result<Config, ConfigError>,
)
    requires
        call_ensures(Config::parse, (&arguments,), r),
        r is Ok,
    ensures
        ({
            let config = r->Ok_0;
            let given = arguments@;
            &&& counts(given, "--id"@, u64::MAX as nat, config.node_id as nat)
            &&& config.members@.len() == 3 && config.members@.contains(config.node_id)
            &&& counts(given, "--groups"@, u32::MAX as nat, config.group_count as nat)
            &&& 1 <= config.group_count <= 4096
            &&& counts(given, "--max-sessions"@, usize::MAX as nat, config.max_sessions as nat)
            &&& counts(given, "--quota"@, u32::MAX as nat, config.quota@ as nat)
            &&& gives(given, "--cluster-dir"@, config.cluster_dir@)
            &&& counts(
                given,
                "--election-timeout-ticks"@,
                u64::MAX as nat,
                config.election_timeout_ticks as nat,
            )
            &&& counts(given, "--tick-interval-ms"@, u64::MAX as nat, config.tick_interval as nat)
            &&& counts(given, "--request-timeout-ms"@, u64::MAX as nat, config.request_timeout as nat)
            &&& counts(given, "--workers"@, usize::MAX as nat, config.workers as nat)
            &&& counts(given, "--max-group-queue"@, usize::MAX as nat, config.max_group_queue as nat)
            &&& counts(given, "--max-global-queue"@, usize::MAX as nat, config.max_global_queue as nat)
            &&& config.max_sessions > 0 && config.quota@ > 0 && config.tick_interval > 0
            &&& config.request_timeout > 0 && config.workers > 0
            &&& config.max_group_queue > 0 && config.max_global_queue > 0
            &&& exists|value: Seq<char>| #[trigger]
                gives(given, "--members"@, value) && numbers_of(fields_of(value)) == Ok::<
                    Seq<u64>,
                    ConfigError,
                >(config.members@)
        }),
{
    let given = arguments@;
    assert(r->Ok_0@.node_id == r->Ok_0.node_id);
    lemma_value(given, "--id"@, 0);
    lemma_value(given, "--members"@, 0);
    lemma_value(given, "--groups"@, 0);
    lemma_value(given, "--max-sessions"@, 0);
    lemma_value(given, "--quota"@, 0);
    lemma_value(given, "--cluster-dir"@, 0);
    lemma_value(given, "--election-timeout-ticks"@, 0);
    lemma_value(given, "--tick-interval-ms"@, 0);
    lemma_value(given, "--request-timeout-ms"@, 0);
    lemma_value(given, "--workers"@, 0);
    lemma_value(given, "--max-group-queue"@, 0);
    lemma_value(given, "--max-global-queue"@, 0);
}

/// A node without one of its flags is not configured. Its identity is asked for first.
pub proof fn law_missing_flags_are_refused(
    arguments: Vec<String>,
    r: Result<Config, ConfigError>,
    setting: Setting,
    flag: &str,
    value: Option<&String>,
)
    requires
        call_ensures(Config::parse, (&arguments,), r),
        call_ensures(Setting::argument, (setting,), flag),
        call_ensures(find_value, (&arguments, flag), value),
        value is None,
    ensures
        r is Err,
        setting == Setting::Id ==> r == Err::<Config, ConfigError>(ConfigError::Missing { setting }),
{
    assert(value_of(words(arguments@), setting.flag()) is None);
}

/// A node that is none of the members is refused, and so is one with no groups or too many.
pub proof fn law_members_and_groups_are_bounded(
    arguments: Vec<String>,
    r: Result<Config, ConfigError>,
    node: u64,
    members: Seq<char>,
    list: Seq<u64>,
    groups: nat,
)
    requires
        call_ensures(Config::parse, (&arguments,), r),
        counts(arguments@, "--id"@, u64::MAX as nat, node as nat),
        gives(arguments@, "--members"@, members),
        numbers_of(fields_of(members)) == Ok::<Seq<u64>, ConfigError>(list),
        counts(arguments@, "--groups"@, u32::MAX as nat, groups),
    ensures
        list.len() != 3 || !list.contains(node) <==> r == Err::<Config, ConfigError>(
            ConfigError::Members,
        ),
        list.len() == 3 && list.contains(node) && (groups == 0 || groups > 4096) <==> r == Err::<
            Config,
            ConfigError,
        >(ConfigError::GroupCount),
{
    let given = arguments@;
    lemma_value(given, "--id"@, 0);
    lemma_value(given, "--members"@, 0);
    lemma_value(given, "--groups"@, 0);
    let id = choose|value: Seq<char>| #[trigger]
        gives(given, "--id"@, value) && unsigned_of(value, u64::MAX as nat) == Some(node as nat);
    let count = choose|value: Seq<char>| #[trigger]
        gives(given, "--groups"@, value) && unsigned_of(value, u32::MAX as nat) == Some(groups);
    lemma_given(given, "--id"@, id);
    lemma_given(given, "--members"@, members);
    lemma_given(given, "--groups"@, count);
}

proof fn lemma_given(arguments: Seq<String>, flag: Seq<char>, value: Seq<char>)
    requires
        gives(arguments, flag, value),
    ensures
        value_of(words(arguments), flag) == Some(value),
{
    lemma_value(arguments, flag, 0);
    let i = choose|i: int| #[trigger]
        stands_first(arguments, flag, i) && arguments[i + 1]@ == value;
    assert(arguments[i]@ == flag);
    match value_of(words(arguments), flag) {
        Some(found) => {
            lemma_one_value(arguments, flag, found, value);
        },
        None => {},
    }
}

/// A profile run is configured by its profile's name, its seed, or the profile's own seed where none is
/// given, and its directory.
pub proof fn law_flags_configure_the_profile(
    arguments: Vec<String>,
    r: Result<ProfileConfig, ProfileError>,
)
    requires
        call_ensures(ProfileConfig::parse, (&arguments,), r),
    ensures
        ({
            let given = arguments@;
            &&& r matches Ok(config) ==> {
                &&& config.profile.name == ProfileName::Fast ==> gives(
                    given,
                    "--profile"@,
                    "counter-fast"@,
                )
                &&& config.profile.name == ProfileName::Nightly ==> gives(
                    given,
                    "--profile"@,
                    "counter-nightly"@,
                )
                &&& config.profile.name == ProfileName::Weekly ==> gives(
                    given,
                    "--profile"@,
                    "counter-weekly"@,
                )
                &&& lacks(given, "--seed"@) ==> config.seed == config.profile.default_seed
                &&& !lacks(given, "--seed"@) ==> counts(
                    given,
                    "--seed"@,
                    u64::MAX as nat,
                    config.seed as nat,
                )
                &&& gives(given, "--artifacts"@, config.artifacts@)
            }
            &&& lacks(given, "--profile"@) <==> r is Err && r->Err_0 == ProfileError::MissingProfile
            &&& r matches Err(error) ==> (error == ProfileError::MissingArtifacts ==> lacks(
                given,
                "--artifacts"@,
            ))
            &&& lacks(given, "--artifacts"@) ==> r is Err
        }),
{
    let given = arguments@;
    lemma_value(given, "--profile"@, 0);
    lemma_value(given, "--seed"@, 0);
    lemma_value(given, "--artifacts"@, 0);
    lemma_lacking(given, "--profile"@);
    lemma_lacking(given, "--seed"@);
    lemma_lacking(given, "--artifacts"@);
}

proof fn lemma_lacking(arguments: Seq<String>, flag: Seq<char>)
    ensures
        lacks(arguments, flag) <==> value_of(words(arguments), flag) is None,
{
    lemma_value(arguments, flag, 0);
    if let Some(value) = value_of(words(arguments), flag) {
        let i = choose|i: int| #[trigger]
            stands_first(arguments, flag, i) && arguments[i + 1]@ == value;
        assert(arguments[i]@ == flag);
    }
}

// ----------------------------------------------------------------- failpoints

/// The text is made of spaces.
pub open spec fn is_blank(text: Seq<char>) -> bool {
    forall|i: int| 0 <= i < text.len() ==> is_space(#[trigger] text[i])
}

proof fn lemma_trimmed(left: Seq<char>, name: Seq<char>, right: Seq<char>)
    requires
        is_blank(left),
        is_blank(right),
        name.len() > 0,
        !is_space(name[0]),
        !is_space(name.last()),
    ensures
        trimmed(left + name + right) == name,
    decreases left.len() + right.len(),
{
    let text = left + name + right;
    if left.len() > 0 {
        assert(text[0] == left[0]);
        assert(text.skip(1) =~= left.skip(1) + name + right);
        assert(is_blank(left.skip(1))) by {
            assert forall|i: int| 0 <= i < left.skip(1).len() implies is_space(
                #[trigger] left.skip(1)[i],
            ) by {
                assert(left.skip(1)[i] == left[i + 1]);
            }
        }
        lemma_trimmed(left.skip(1), name, right);
    } else if right.len() > 0 {
        assert(text[0] == name[0]);
        assert(text.last() == right[right.len() - 1]);
        assert(text.drop_last() =~= left + name + right.drop_last());
        assert(is_blank(right.drop_last())) by {
            assert forall|i: int| 0 <= i < right.drop_last().len() implies is_space(
                #[trigger] right.drop_last()[i],
            ) by {
                assert(right.drop_last()[i] == right[i]);
            }
        }
        lemma_trimmed(left, name, right.drop_last());
    } else {
        assert(text =~= name);
    }
}

/// A failpoint is armed by the variable that names it, or by the file that names it between spaces.
pub proof fn law_failpoints_are_named(
    name: &str,
    variable: Option<&str>,
    file: Option<&str>,
    r: bool,
    left: Seq<char>,
    right: Seq<char>,
)
    requires
        call_ensures(directed_failpoint_armed, (name, variable, file), r),
    ensures
        variable is Some && variable->0@ == name@ ==> r,
        file is None ==> (r <==> variable is Some && variable->0@ == name@),
        file is Some && file->0@ == left + name@ + right && is_blank(left) && is_blank(right)
            && name@.len() > 0 && !is_space(name@[0]) && !is_space(name@.last()) ==> r,
{
    if file is Some && file->0@ == left + name@ + right && is_blank(left) && is_blank(right)
        && name@.len() > 0 && !is_space(name@[0]) && !is_space(name@.last()) {
        lemma_trimmed(left, name@, right);
    }
}

/// A node's own directory is named by its number.
pub proof fn law_hosts_have_directories(node: u64, r: String)
    requires
        call_ensures(host_dir, (node,), r),
    ensures
        r@ == "host-"@ + decimal(node as nat),
{
}

} // verus!
