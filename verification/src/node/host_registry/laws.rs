//! What a registry holds, and how it lies on disk.

use vstd::prelude::*;

use crate::bytes::le_bytes_u32;
use crate::checksum::crc32_of;
use crate::layout::field;
use crate::node::engine::lifecycle::{
    bootstrap_slots, read_entry, registry_source, EntryFault, RegistrySource,
};
use crate::node::host_registry::{
    first_missing, framed, registry_body, slot_bytes, slots_bytes, HostRecord, HostRegistry,
    RegistryError, SlotRecord,
};
use crate::node::record::lifecycle_byte;
use crate::table::{contents, holds, lemma_row, Row};
use crate::types::{GroupId, GroupLifecycle, WorkQuota};

verus! {

// ---------------------------------------------------------------------- slots

proof fn lemma_none_is_missing(rows: Seq<Row<SlotRecord>>, raw: int, group_count: u32, g: int)
    requires
        raw <= g <= group_count,
        first_missing(rows, raw, group_count) is None,
    ensures
        contents(rows).contains_key(g as u64),
    decreases g - raw,
{
    if raw < g {
        lemma_none_is_missing(rows, raw + 1, group_count, g);
    }
}

/// An opened registry has a slot for every configured group, under the group's own number, with an
/// incarnation and a quota that are not zero, and as many slots as there are groups.
pub proof fn law_opened_registries_are_complete(
    bytes: &[u8],
    group_count: u32,
    actual: u32,
    r: Result<HostRegistry, RegistryError>,
    group: GroupId,
    slot: Result<SlotRecord, RegistryError>,
)
    requires
        call_ensures(HostRegistry::open_checked, (bytes, group_count, actual), r),
        r is Ok,
        1 <= group@ <= group_count,
        call_ensures(HostRegistry::slot, (&r->Ok_0, group), slot),
    ensures
        slot is Ok,
        slot->Ok_0.group_id == group,
        slot->Ok_0.incarnation@ != 0,
        slot->Ok_0.quota@ != 0,
        r->Ok_0.rows().len() == group_count,
{
    let rows = r->Ok_0.rows();
    lemma_none_is_missing(rows, 1, group_count, group@ as int);
    lemma_slot(rows, group@ as u64);
}

proof fn lemma_slot(rows: Seq<Row<SlotRecord>>, key: u64)
    requires
        contents(rows).contains_key(key),
        crate::node::host_registry::slots_by_group(rows),
    ensures
        contents(rows)[key].group_id@ == key,
        contents(rows)[key].valid(),
{
    let i = choose|i: int| holds(rows, key, i);
    assert(rows[i].key == key);
    lemma_row(rows, i);
}

/// A published slot is what the registry then holds of its group, and every other slot stays as it was.
/// A group without a slot cannot be published.
pub proof fn law_published_slots_are_held(
    registry: HostRegistry,
    slot: SlotRecord,
    r: Result<HostRegistry, RegistryError>,
    group: GroupId,
    before: Result<SlotRecord, RegistryError>,
    after: Result<SlotRecord, RegistryError>,
)
    requires
        call_ensures(HostRegistry::publish, (&registry, slot), r),
        call_ensures(HostRegistry::slot, (&registry, group), before),
        r is Ok ==> call_ensures(HostRegistry::slot, (&r->Ok_0, group), after),
    ensures
        r is Ok && group == slot.group_id ==> after == Ok::<SlotRecord, RegistryError>(slot),
        r is Ok && group != slot.group_id ==> (after is Ok <==> before is Ok),
        r is Ok && group != slot.group_id && before is Ok ==> after == before,
        group == slot.group_id ==> (r is Ok <==> before is Ok),
        r is Err ==> r->Err_0 == (RegistryError::Unconfigured { group: slot.group_id }),
        before is Err ==> before->Err_0 == (RegistryError::NoSlot { group }),
{
}

/// What a created registry holds of a group is the last of its slots.
pub proof fn law_last_slots_are_held(
    slots: Vec<SlotRecord>,
    r: HostRegistry,
    i: int,
    found: Result<SlotRecord, RegistryError>,
)
    requires
        call_ensures(HostRegistry::create, (&slots,), r),
        0 <= i < slots@.len(),
        forall|k: int| i < k < slots@.len() ==> (#[trigger] slots@[k]).group_id != slots@[i].group_id,
        call_ensures(HostRegistry::slot, (&r, slots@[i].group_id), found),
    ensures
        found is Ok ==> found->Ok_0 == slots@[i],
{
    let key = slots@[i].group_id@ as u64;
    if found is Ok {
        let slot = contents(r.rows())[key];
        let j = choose|j: int| crate::node::host_registry::last_slot_at(slots@, key, slot, j);
        if j < i {
            assert(slots@[i].group_id@ != key);
        }
        if i < j {
            assert(slots@[j].group_id != slots@[i].group_id);
        }
    }
}

// --------------------------------------------------------------------- layout

proof fn lemma_slot_field(rows: Seq<Row<SlotRecord>>, i: int)
    requires
        0 <= i < rows.len(),
    ensures
        slots_bytes(rows).len() == 13 * rows.len(),
        field(slots_bytes(rows), 13 * i, 13) == slot_bytes(rows[i].value),
    decreases rows.len(),
{
    let before = rows.drop_last();
    assert(slot_bytes(rows.last().value).len() == 13);
    if i < rows.len() - 1 {
        lemma_slot_field(before, i);
        assert(field(slots_bytes(rows), 13 * i, 13) =~= field(slots_bytes(before), 13 * i, 13));
    } else {
        lemma_slots_len(before);
        assert(field(slots_bytes(rows), 13 * i, 13) =~= slot_bytes(rows.last().value));
    }
}

proof fn lemma_slots_len(rows: Seq<Row<SlotRecord>>)
    ensures
        slots_bytes(rows).len() == 13 * rows.len(),
    decreases rows.len(),
{
    if rows.len() > 0 {
        lemma_slots_len(rows.drop_last());
        assert(slot_bytes(rows.last().value).len() == 13);
    }
}

/// A registry is its head, the number of its slots, and for each of them the group, the incarnation, the
/// lifecycle in one byte and the quota; then the checksum of all of these.
#[verifier::spinoff_prover]
#[verifier::rlimit(60)]
pub proof fn law_registry_layout(
    registry: HostRegistry,
    r: Result<Vec<u8>, RegistryError>,
    i: int,
)
    requires
        call_ensures(HostRegistry::encode, (&registry,), r),
        r is Ok,
        registry.rows().len() <= u32::MAX,
        0 <= i < registry.rows().len(),
    ensures
        ({
            let bytes = r->Ok_0@;
            let n = registry.rows().len() as int;
            let slot = registry.rows()[i].value;
            &&& bytes.len() == 13 + 13 * n && bytes.len() <= 131072
            &&& field(bytes, 0, 4) == HostRecord::Registry.magic() && bytes[4] == 1
            &&& field(bytes, 5, 4) == le_bytes_u32(n as u32)
            &&& field(bytes, 9 + 13 * i, 4) == le_bytes_u32(slot.group_id@)
            &&& field(bytes, 13 + 13 * i, 4) == le_bytes_u32(slot.incarnation@)
            &&& bytes[17 + 13 * i] == lifecycle_byte(slot.lifecycle)
            &&& field(bytes, 18 + 13 * i, 4) == le_bytes_u32(slot.quota@)
            &&& field(bytes, bytes.len() - 4, 4) == le_bytes_u32(
                crc32_of(bytes.take(bytes.len() - 4)),
            )
        }),
{
    let rows = registry.rows();
    let n = rows.len() as int;
    let slots = slots_bytes(rows);
    let bytes = r->Ok_0@;
    let head = framed(HostRecord::Registry, registry_body(rows));
    let slot = rows[i].value;
    lemma_slot_field(rows, i);
    assert(head.len() == 9 + 13 * n);
    assert(bytes.take(bytes.len() - 4) =~= head);
    assert(field(bytes, 0, 4) =~= HostRecord::Registry.magic());
    assert(field(bytes, 5, 4) =~= le_bytes_u32(n as u32));
    let mine = field(slots, 13 * i, 13);
    assert(field(bytes, 9 + 13 * i, 13) =~= mine);
    assert(field(bytes, 9 + 13 * i, 4) =~= field(mine, 0, 4));
    assert(field(bytes, 13 + 13 * i, 4) =~= field(mine, 4, 4));
    assert(bytes[17 + 13 * i] == mine[8]);
    assert(field(bytes, 18 + 13 * i, 4) =~= field(mine, 9, 4));
    assert(field(slot_bytes(slot), 0, 4) =~= le_bytes_u32(slot.group_id@));
    assert(field(slot_bytes(slot), 4, 4) =~= le_bytes_u32(slot.incarnation@));
    assert(field(slot_bytes(slot), 9, 4) =~= le_bytes_u32(slot.quota@));
    assert(field(bytes, bytes.len() - 4, 4) =~= le_bytes_u32(crc32_of(head)));
}

// -------------------------------------------------------------------- startup

/// A host that boots for the first time has one slot for every configured group, and serves its first
/// incarnation.
pub proof fn law_first_boot_serves_every_group(
    group_count: u32,
    quota: WorkQuota,
    slots: Vec<SlotRecord>,
    registry: HostRegistry,
    group: GroupId,
    found: Result<SlotRecord, RegistryError>,
)
    requires
        call_ensures(bootstrap_slots, (group_count, quota), slots),
        call_ensures(HostRegistry::create, (&slots,), registry),
        1 <= group@ <= group_count,
        call_ensures(HostRegistry::slot, (&registry, group), found),
    ensures
        slots@.len() == group_count,
        slots@[group@ - 1].group_id == group,
        found is Ok ==> {
            &&& found->Ok_0.group_id == group
            &&& found->Ok_0.incarnation@ == 1
            &&& found->Ok_0.lifecycle == GroupLifecycle::Serving
            &&& found->Ok_0.quota == quota
        },
{
    let i = group@ - 1;
    assert(slots@[i].group_id@ == i + 1);
    assert(slots@[i].group_id == group);
    law_last_slots_are_held(slots, registry, i, found);
}

/// The registry on disk is used where there is one. Without one, an empty directory is a first boot, a
/// directory of configured groups is read, and any other entry is refused, the first such one.
pub proof fn law_registry_is_found_or_made(
    found: bool,
    names: Vec<Option<String>>,
    group_count: u32,
    r: Result<RegistrySource, (usize, EntryFault)>,
    i: int,
    name: &str,
    entry: Result<GroupId, EntryFault>,
)
    requires
        call_ensures(registry_source, (found, &names, group_count), r),
        call_ensures(read_entry, (name, group_count), entry),
        0 <= i < names@.len() ==> names@[i] is Some && names@[i]->0@ == name@,
    ensures
        r == Ok::<RegistrySource, (usize, EntryFault)>(RegistrySource::Disk) <==> found,
        r == Ok::<RegistrySource, (usize, EntryFault)>(RegistrySource::Bootstrap) <==> !found
            && names@.len() == 0,
        !found && 0 <= i < names@.len() && entry is Err ==> r is Err && (r matches Err(
            (at, fault),
        ) && at <= i && (at == i ==> fault == entry->Err_0)),
        !found && 0 <= i < names@.len() && entry is Ok ==> (r matches Err((at, fault)) ==> at != i),
{
}

} // verus!
