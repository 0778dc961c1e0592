//! Snapshot payloads promoted by the caller's snapshot store, held in `rafter`'s in-memory source.

use rafter::{InMemorySnapshotChunkSource, InMemorySnapshotSourceError, RaftSnapshot};
use vstd::prelude::*;

verus! {

/// `rafter::InMemorySnapshotChunkSource`: payloads by transfer.
#[verifier::external_type_specification]
#[verifier::external_body]
pub struct ExInMemorySnapshotChunkSource(rafter::InMemorySnapshotChunkSource);

/// `rafter::InMemorySnapshotSourceError`: why a payload was refused.
#[verifier::external_type_specification]
#[verifier::external_body]
pub struct ExInMemorySnapshotSourceError(rafter::InMemorySnapshotSourceError);

/// `rafter::RaftSnapshot`: the descriptor of a snapshot.
#[verifier::external_type_specification]
#[verifier::external_body]
pub struct ExRaftSnapshot(rafter::RaftSnapshot);

/// Payloads that a source holds, by transfer.
pub uninterp spec fn held_payloads(source: InMemorySnapshotChunkSource) -> Map<u64, Seq<u8>>;

/// Identity of the transfer that carries a snapshot, as `rafter::RaftSnapshot::transfer_id` derives
/// it from the descriptor.
pub uninterp spec fn transfer_of(snapshot: RaftSnapshot) -> u64;

/// Payload length that a descriptor declares, its field `application_payload_len`.
pub uninterp spec fn declared_length(snapshot: RaftSnapshot) -> u64;

/// Makes a source with `rafter::InMemorySnapshotChunkSource::new`. The contract claims that it
/// holds no payload.
#[verifier::external_body]
pub(crate) fn no_payloads() -> (r: InMemorySnapshotChunkSource)
    ensures
        held_payloads(r).is_empty(),
{
    InMemorySnapshotChunkSource::new()
}

/// Registers a payload with `rafter::InMemorySnapshotChunkSource::insert`. The contract claims that
/// a payload of the declared length takes the place of whatever its transfer held, and that any
/// other is refused with the source unchanged.
#[verifier::external_body]
pub(crate) fn hold_payload(
    source: &mut InMemorySnapshotChunkSource,
    snapshot: &RaftSnapshot,
    payload: Vec<u8>,
) -> (r: Result<(), InMemorySnapshotSourceError>)
    ensures
        r is Ok <==> payload@.len() == declared_length(*snapshot),
        r is Ok ==> held_payloads(*final(source)) == held_payloads(*old(source)).insert(
            transfer_of(*snapshot),
            payload@,
        ),
        r is Err ==> held_payloads(*final(source)) == held_payloads(*old(source)),
{
    source.insert(snapshot, payload)
}

/// Looks a payload up with `rafter::InMemorySnapshotChunkSource::payload`. The contract claims that
/// the result is the payload held for the transfer, and none where none is held.
#[verifier::external_body]
pub(crate) fn held_payload(source: &InMemorySnapshotChunkSource, transfer_id: u64) -> (r: Option<
    &[u8],
>)
    ensures
        r is Some <==> held_payloads(*source).contains_key(transfer_id),
        r is Some ==> r->Some_0@ == held_payloads(*source)[transfer_id],
{
    source.payload(rafter::SnapshotTransferId(transfer_id))
}

/// Copies a source with its `clone`. The contract claims that the copy holds the same payloads.
#[verifier::external_body]
pub(crate) fn copy_payloads(source: &InMemorySnapshotChunkSource) -> (r:
    InMemorySnapshotChunkSource)
    ensures
        held_payloads(r) == held_payloads(*source),
{
    source.clone()
}

} // verus!
