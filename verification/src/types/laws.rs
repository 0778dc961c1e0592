//! What the shared types mean.

use vstd::prelude::*;

use crate::bytes::{le_bytes_u64, lemma_i64_round_trip, lemma_le_u64_round_trip};
use crate::types::{
    fingerprint_of, CounterCommand, CounterRejection, CounterResult, GroupId, ClientId,
    GroupIncarnation, GroupLifecycle, LifecycleRequest, OfferOutcome, PassIndex, RequestFingerprint,
    RequestIdentity, SchedulerConfig, SchedulerConfigError, Sequence, ServiceCost, SystemClass,
    Work, WorkClass, WorkQuota, counter_after, counter_result, fnv_digest, fingerprint_bytes,
};

verus! {

/// Control traffic comes before commands, commands before snapshots, snapshots before bulk.
pub proof fn law_classes_are_ranked(a: WorkClass, b: WorkClass)
    ensures
        a == b <==> a.rank() == b.rank(),
        WorkClass::Control.rank() < WorkClass::Command.rank(),
        WorkClass::Command.rank() < WorkClass::Snapshot.rank(),
        WorkClass::Snapshot.rank() < WorkClass::Bulk.rank(),
        WorkClass::Control.rank() == 0,
        a.rank() <= 3,
{
}

/// System traffic is scheduled in the class of its own name, and never as a command.
pub proof fn law_system_traffic_is_no_command(system: SystemClass)
    ensures
        system == SystemClass::Control <==> system.class() == WorkClass::Control,
        system == SystemClass::Snapshot <==> system.class() == WorkClass::Snapshot,
        system == SystemClass::Bulk <==> system.class() == WorkClass::Bulk,
        system.class() != WorkClass::Command,
{
}

/// A counter request is a command with an identity; system traffic has none, and neither has a
/// failing item, which stands in the class that it was scheduled in. Each costs what it carries.
pub proof fn law_work_is_what_it_carries(
    request: RequestIdentity,
    command: CounterCommand,
    class: SystemClass,
    cost: ServiceCost,
)
    ensures
        ({
            let counter = Work::Counter { request, command, cost };
            let system = Work::System { class, cost };
            let faulty = Work::Faulty { class, cost };
            &&& counter.class() == WorkClass::Command && counter.request_identity() == Some(request)
                && counter.cost() == cost
            &&& system.class() != WorkClass::Command && system.request_identity() is None
                && system.cost() == cost
            &&& faulty.class() == system.class() && faulty.request_identity() is None
                && faulty.cost() == cost
            &&& class == SystemClass::Control <==> system.class() == WorkClass::Control
            &&& class == SystemClass::Snapshot <==> system.class() == WorkClass::Snapshot
            &&& class == SystemClass::Bulk <==> system.class() == WorkClass::Bulk
        }),
{
}

/// A serving group admits every class and a recovering one everything but commands; no other group
/// admits work. Sessions open on both. Only these and a draining group are scheduled.
pub proof fn law_lifecycle_states_admit(state: GroupLifecycle, class: WorkClass, remains: bool)
    ensures
        state == GroupLifecycle::Serving ==> state.admits(class) && state.admits_sessions()
            && state.is_serviceable() && state.permits_protocol_continuation(remains),
        state == GroupLifecycle::Recovering ==> state.admits_sessions() && state.is_serviceable()
            && state.permits_protocol_continuation(remains),
        state == GroupLifecycle::Recovering ==> (state.admits(class) <==> class
            != WorkClass::Command),
        state == GroupLifecycle::Draining ==> !state.admits(class) && !state.admits_sessions()
            && state.is_serviceable(),
        state == GroupLifecycle::Draining ==> state.permits_protocol_continuation(remains)
            == remains,
        state == GroupLifecycle::Creating || state == GroupLifecycle::Removed || state
            == GroupLifecycle::Tombstoned ==> !state.admits(class) && !state.admits_sessions()
            && !state.is_serviceable() && !state.permits_protocol_continuation(remains),
{
}

/// Each administrative request asks for its own state.
pub proof fn law_requests_name_their_state(request: LifecycleRequest)
    ensures
        request is Create <==> request.target() == GroupLifecycle::Creating,
        request is Recover <==> request.target() == GroupLifecycle::Recovering,
        request is Serve <==> request.target() == GroupLifecycle::Serving,
        request is Drain <==> request.target() == GroupLifecycle::Draining,
        request is Remove <==> request.target() == GroupLifecycle::Removed,
        request is Tombstone <==> request.target() == GroupLifecycle::Tombstoned,
{
}

/// An addition moves the counter by its delta and reports where it stands, unless the sum leaves the
/// range: then the counter keeps its value and the refusal reports it. A read changes nothing and
/// reports the counter.
pub proof fn law_counter_commands_take_effect(counter: i64, command: CounterCommand)
    ensures
        ({
            let after = counter_after(counter, command);
            let result = counter_result(counter, command);
            &&& command == CounterCommand::Read ==> after == counter && result == (
            CounterResult::Value { value: counter })
            &&& command matches CounterCommand::Add { delta } ==> {
                let sum = counter + delta@;
                &&& -0x8000_0000_0000_0000 <= sum <= 0x7fff_ffff_ffff_ffff ==> after == sum && (
                result matches CounterResult::Added { value } && value == sum)
                &&& sum < -0x8000_0000_0000_0000 || sum > 0x7fff_ffff_ffff_ffff ==> after == counter
                    && result == CounterResult::Rejected(
                    CounterRejection::CounterOverflow { current: counter },
                )
            }
        }),
{
}

/// A delta that was added is taken back by the opposite one.
pub proof fn law_additions_cancel(counter: i64, command: CounterCommand, back: CounterCommand)
    requires
        command is Add,
        back is Add,
        back->delta@ == -command->delta@,
        counter_result(counter, command) is Added,
    ensures
        counter_after(counter_after(counter, command), back) == counter,
        counter_result(counter_after(counter, command), back) == (CounterResult::Added {
            value: counter,
        }),
{
}

/// The identities and amounts hold the number they are made of; those that count from one refuse zero
/// and nothing else.
pub proof fn law_numbers_are_kept(
    n: u32,
    wide: u64,
    group: GroupId,
    client: ClientId,
    incarnation: Option<GroupIncarnation>,
    sequence: Option<Sequence>,
    quota: Option<WorkQuota>,
    cost: Option<ServiceCost>,
    pass: Option<PassIndex>,
)
    requires
        call_ensures(GroupId::new, (n,), group),
        call_ensures(ClientId::new, (n,), client),
        call_ensures(GroupIncarnation::new, (n,), incarnation),
        call_ensures(Sequence::new, (wide,), sequence),
        call_ensures(WorkQuota::new, (n,), quota),
        call_ensures(ServiceCost::new, (n,), cost),
        call_ensures(PassIndex::new, (wide,), pass),
    ensures
        group@ == n,
        client@ == n,
        incarnation is None <==> n == 0,
        incarnation is Some ==> incarnation->0@ == n,
        sequence is None <==> wide == 0,
        sequence is Some ==> sequence->0@ == wide,
        quota is None <==> n == 0,
        quota is Some ==> quota->0@ == n,
        cost is None <==> n == 0,
        cost is Some ==> cost->0@ == n,
        pass is None <==> wide == 0,
        pass is Some ==> pass->0@ == wide,
{
}

/// A successor is one more, and only the last number has none.
pub proof fn law_successors_count_up(
    incarnation: GroupIncarnation,
    next: Option<GroupIncarnation>,
    sequence: Sequence,
    following: Option<Sequence>,
    pass: PassIndex,
    later: Option<PassIndex>,
)
    requires
        call_ensures(GroupIncarnation::successor, (incarnation,), next),
        call_ensures(Sequence::successor, (sequence,), following),
        call_ensures(PassIndex::successor, (pass,), later),
    ensures
        next is None <==> incarnation@ == 0xffff_ffff,
        next is Some ==> next->0@ == incarnation@ + 1,
        following is None <==> sequence@ == 0xffff_ffff_ffff_ffff,
        following is Some ==> following->0@ == sequence@ + 1,
        later is None <==> pass@ == 0xffff_ffff_ffff_ffff,
        later is Some ==> later->0@ == pass@ + 1,
{
}

/// A fingerprint starts from the offset basis of 64-bit FNV-1a and takes in one byte after the other:
/// the byte is mixed into the low bits, then the whole is multiplied by the prime, modulo 2^64.
pub proof fn law_fingerprint_takes_in_bytes(digest: u64, bytes: Seq<u8>, byte: u8)
    ensures
        fnv_digest(digest, Seq::empty()) == digest,
        fnv_digest(digest, bytes.push(byte)) as int == ((fnv_digest(digest, bytes) ^ (byte as u64))
            * 0x0000_0100_0000_01b3) % 0x1_0000_0000_0000_0000,
{
    assert(bytes.push(byte).drop_last() =~= bytes);
}

/// The fingerprint of a command is that of one tag byte, one for an addition and two for a read, and
/// behind an addition's tag of the eight bytes of its delta, lowest first.
pub proof fn law_fingerprint_is_of_the_command(command: CounterCommand, r: RequestFingerprint)
    requires
        call_ensures(RequestFingerprint::of, (&command,), r),
    ensures
        command == CounterCommand::Read ==> r@ == fnv_digest(0xcbf2_9ce4_8422_2325, seq![2u8]),
        command matches CounterCommand::Add { delta } ==> r@ == fnv_digest(
            0xcbf2_9ce4_8422_2325,
            seq![1u8] + le_bytes_u64(delta@ as u64),
        ),
        r@ == fingerprint_of(command),
{
}

/// Different commands have different bytes.
pub proof fn law_fingerprint_bytes_tell_commands_apart(a: CounterCommand, b: CounterCommand)
    requires
        fingerprint_bytes(a) == fingerprint_bytes(b),
    ensures
        a == b,
{
    let left = fingerprint_bytes(a);
    let right = fingerprint_bytes(b);
    assert(left[0] == right[0]);
    if a is Add {
        let x = a->delta@;
        assert(left[0] == 1u8);
        if b is Add {
            let y = b->delta@;
            assert(left.skip(1) =~= le_bytes_u64(x as u64));
            assert(right.skip(1) =~= le_bytes_u64(y as u64));
            lemma_le_u64_round_trip(x as u64);
            lemma_le_u64_round_trip(y as u64);
            lemma_i64_round_trip(x);
            lemma_i64_round_trip(y);
        }
    } else {
        assert(left[0] == 2u8);
    }
}

/// A turn that ran reports its items and their cost; a turn without work reports none.
pub proof fn law_offers_report_what_they_ran(outcome: OfferOutcome)
    ensures
        outcome is Skipped ==> outcome.serviced() == 0 && outcome.cost() == 0,
        outcome matches OfferOutcome::Dispatched { serviced, cost } ==> outcome.serviced()
            == serviced && outcome.cost() == cost,
{
}

/// A configuration holds the bounds that it is made of, and lets in the groups and clients below them.
/// It is refused for the first bound that is zero, and then for a shared queue smaller than a group's.
pub proof fn law_configuration_holds_its_bounds(
    max_groups: u32,
    workers: u32,
    max_clients: u32,
    group_queue: u32,
    global_queue: u32,
    r: Result<SchedulerConfig, SchedulerConfigError>,
    group: GroupId,
    client: ClientId,
    admits_group: bool,
    admits_client: bool,
    groups: u32,
    clients: u32,
    queue: u32,
    shared: u32,
    busy: u32,
)
    requires
        call_ensures(
            SchedulerConfig::new,
            (max_groups, workers, max_clients, group_queue, global_queue),
            r,
        ),
        r is Ok ==> {
            let config = r->Ok_0;
            &&& call_ensures(SchedulerConfig::admits_group, (config, group), admits_group)
            &&& call_ensures(SchedulerConfig::admits_client, (config, client), admits_client)
            &&& call_ensures(SchedulerConfig::max_groups, (config,), groups)
            &&& call_ensures(SchedulerConfig::workers, (config,), busy)
            &&& call_ensures(SchedulerConfig::max_clients_per_group, (config,), clients)
            &&& call_ensures(SchedulerConfig::max_group_queue, (config,), queue)
            &&& call_ensures(SchedulerConfig::max_global_queue, (config,), shared)
        },
    ensures
        r is Ok <==> max_groups != 0 && workers != 0 && max_clients != 0 && group_queue != 0
            && group_queue <= global_queue,
        r is Ok ==> groups == max_groups && busy == workers && clients == max_clients && queue
            == group_queue && shared == global_queue && (admits_group <==> group@ < max_groups) && (
        admits_client <==> client@ < max_clients),
        r == Err::<SchedulerConfig, SchedulerConfigError>(SchedulerConfigError::ZeroGroups)
            <==> max_groups == 0,
        r == Err::<SchedulerConfig, SchedulerConfigError>(SchedulerConfigError::ZeroWorkers)
            <==> max_groups != 0 && workers == 0,
        r == Err::<SchedulerConfig, SchedulerConfigError>(SchedulerConfigError::ZeroClients)
            <==> max_groups != 0 && workers != 0 && max_clients == 0,
        r == Err::<SchedulerConfig, SchedulerConfigError>(SchedulerConfigError::ZeroGroupQueue)
            <==> max_groups != 0 && workers != 0 && max_clients != 0 && group_queue == 0,
{
}

} // verus!
