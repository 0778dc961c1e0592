//! Every event keeps the desk sound.

use vstd::prelude::*;

use crate::node::engine::desk::state::{
    candidates_besides, first_standing, pair_key, stands, stands_at, waiters_besides,
    waiters_besides_read, waits_for_read, AcceptedOperation, Candidate, DeskState, Place, Waiter,
};
use crate::types::{GroupId, GroupIncarnation};

verus! {

/// Where the first standing is, it stands.
pub proof fn lemma_first_standing(
    candidates: Seq<Candidate>,
    read_id: u64,
    operation: AcceptedOperation,
    from: int,
    at: int,
)
    requires
        0 <= from <= at,
        stands_at(candidates, read_id, operation, at),
    ensures
        stands_at(
            candidates,
            read_id,
            operation,
            first_standing(candidates, read_id, operation, from),
        ),
        from <= first_standing(candidates, read_id, operation, from) <= at,
    decreases candidates.len() - from,
{
    if !stands_at(candidates, read_id, operation, from) {
        lemma_first_standing(candidates, read_id, operation, from + 1, at);
    }
}

/// Waiters that stay are among the waiters, and wait elsewhere.
pub proof fn lemma_besides(waiters: Seq<Waiter>, place: Place)
    ensures
        forall|i: int|
            0 <= i < waiters_besides(waiters, place).len() ==> waiters.contains(
                #[trigger] waiters_besides(waiters, place)[i],
            ) && waiters_besides(waiters, place)[i].place != place,
    decreases waiters.len(),
{
    if waiters.len() > 0 {
        let rest = waiters.drop_last();
        lemma_besides(rest, place);
        let kept = waiters_besides(waiters, place);
        let before = waiters_besides(rest, place);
        assert forall|i: int| 0 <= i < kept.len() implies waiters.contains(#[trigger] kept[i])
            && kept[i].place != place by {
            if i < before.len() {
                assert(before[i] == kept[i]);
                let k = choose|k: int| 0 <= k < rest.len() && rest[k] == before[i];
                assert(waiters[k] == kept[i]);
            } else {
                assert(waiters[waiters.len() - 1] == kept[i]);
            }
        }
    }
}

/// Waiters that stay are among the waiters, and do not wait for the barrier.
pub proof fn lemma_besides_read(waiters: Seq<Waiter>, read_id: u64)
    ensures
        forall|i: int|
            0 <= i < waiters_besides_read(waiters, read_id).len() ==> waiters.contains(
                #[trigger] waiters_besides_read(waiters, read_id)[i],
            ) && !waits_for_read(waiters_besides_read(waiters, read_id)[i].place, read_id),
    decreases waiters.len(),
{
    if waiters.len() > 0 {
        let rest = waiters.drop_last();
        lemma_besides_read(rest, read_id);
        let kept = waiters_besides_read(waiters, read_id);
        let before = waiters_besides_read(rest, read_id);
        assert forall|i: int| 0 <= i < kept.len() implies waiters.contains(#[trigger] kept[i])
            && !waits_for_read(kept[i].place, read_id) by {
            if i < before.len() {
                assert(before[i] == kept[i]);
                let k = choose|k: int| 0 <= k < rest.len() && rest[k] == before[i];
                assert(waiters[k] == kept[i]);
            } else {
                assert(waiters[waiters.len() - 1] == kept[i]);
            }
        }
    }
}

/// Candidates that stay are among the candidates, in order, and wait for another barrier; and
/// every such candidate stays.
pub proof fn lemma_candidates_besides(candidates: Seq<Candidate>, read_id: u64)
    ensures
        forall|i: int|
            0 <= i < candidates_besides(candidates, read_id).len() ==> candidates.contains(
                #[trigger] candidates_besides(candidates, read_id)[i],
            ) && candidates_besides(candidates, read_id)[i].read_id != read_id,
        forall|j: int|
            0 <= j < candidates.len() && (#[trigger] candidates[j]).read_id != read_id
                ==> candidates_besides(candidates, read_id).contains(candidates[j]),
    decreases candidates.len(),
{
    if candidates.len() > 0 {
        let rest = candidates.drop_last();
        lemma_candidates_besides(rest, read_id);
        let kept = candidates_besides(candidates, read_id);
        let before = candidates_besides(rest, read_id);
        assert forall|i: int| 0 <= i < kept.len() implies candidates.contains(#[trigger] kept[i])
            && kept[i].read_id != read_id by {
            if i < before.len() {
                assert(before[i] == kept[i]);
                let k = choose|k: int| 0 <= k < rest.len() && rest[k] == before[i];
                assert(candidates[k] == kept[i]);
            } else {
                assert(candidates[candidates.len() - 1] == kept[i]);
            }
        }
        assert forall|j: int|
            0 <= j < candidates.len() && (#[trigger] candidates[j]).read_id
                != read_id implies kept.contains(candidates[j]) by {
            if j < rest.len() {
                assert(rest[j] == candidates[j]);
                let k = choose|k: int| 0 <= k < before.len() && before[k] == rest[j];
                assert(kept[k] == candidates[j]);
            } else {
                assert(kept[kept.len() - 1] == candidates[j]);
            }
        }
    }
}

/// No two candidates are of one operation and one barrier.
pub open(crate) spec fn candidates_distinct(candidates: Seq<Candidate>) -> bool {
    forall|i: int, j: int|
        0 <= i < j < candidates.len() ==> !(candidates[i].read_id == candidates[j].read_id
            && candidates[i].operation == candidates[j].operation)
}

/// Candidates that stay are still distinct.
proof fn lemma_candidates_stay_distinct(candidates: Seq<Candidate>, read_id: u64)
    requires
        candidates_distinct(candidates),
    ensures
        candidates_distinct(candidates_besides(candidates, read_id)),
    decreases candidates.len(),
{
    if candidates.len() > 0 {
        let rest = candidates.drop_last();
        assert(candidates_distinct(rest)) by {
            assert forall|i: int, j: int| 0 <= i < j < rest.len() implies !(rest[i].read_id
                == rest[j].read_id && rest[i].operation == rest[j].operation) by {
                assert(rest[i] == candidates[i] && rest[j] == candidates[j]);
            }
        }
        lemma_candidates_stay_distinct(rest, read_id);
        lemma_candidates_besides(rest, read_id);
        let kept = candidates_besides(candidates, read_id);
        let before = candidates_besides(rest, read_id);
        assert forall|i: int, j: int| 0 <= i < j < kept.len() implies !(kept[i].read_id
            == kept[j].read_id && kept[i].operation == kept[j].operation) by {
            assert(before[i] == kept[i]);
            if j < before.len() {
                assert(before[j] == kept[j]);
            } else {
                let k = choose|k: int| 0 <= k < rest.len() && rest[k] == before[i];
                assert(candidates[k] == kept[i]);
                assert(candidates[candidates.len() - 1] == kept[j]);
            }
        }
    }
}

/// Joining an operation in progress keeps the desk sound.
pub proof fn lemma_join(state: DeskState, now: u64, id: u64, replies: Seq<u64>)
    requires
        state.sound(),
        state.pending.contains_key(id),
    ensures
        state.join(now, id, replies).sound(),
{
    let after = state.join(now, id, replies);
    assert forall|key: u64| #[trigger] after.operations.contains_key(key) implies ({
        let at = after.operations[key];
        &&& after.pending.contains_key(at)
        &&& after.pending[at].operation is Some
        &&& key == pair_key(after.pending[at].group_id, after.pending[at].operation->0.client_id())
    }) by {
        assert(state.operations.contains_key(key));
    }
    assert forall|other: u64| #[trigger] after.pending.contains_key(other) implies ({
        &&& other < after.next_proposal
        &&& match after.pending[other].operation {
            Some(operation) => {
                let key = pair_key(after.pending[other].group_id, operation.client_id());
                after.operations.contains_key(key) && after.operations[key] == other
            },
            None => true,
        }
    }) by {
        assert(state.pending.contains_key(other));
    }
    assert forall|i: int| 0 <= i < after.waiters.len() implies after.attended(
        #[trigger] after.waiters[i],
    ) by {
        if i < state.waiters.len() {
            assert(after.waiters[i] == state.waiters[i]);
            assert(state.attended(state.waiters[i]));
            match state.waiters[i].place {
                Place::Proposal { id: other } => {
                    assert(state.pending.contains_key(other));
                    assert(after.pending.contains_key(other));
                },
                Place::Candidate { read_id, operation } => {
                    assert(after.candidates == state.candidates);
                    assert(exists|j: int| stands_at(state.candidates, read_id, operation, j));
                },
            }
            assert(after.attended(after.waiters[i]));
        } else {
            assert(after.waiters[i].place == (Place::Proposal { id }));
            assert(after.pending.contains_key(id));
            assert(after.attended(after.waiters[i]));
        }
    }
}

/// Joining a barrier keeps the desk sound.
pub proof fn lemma_queue(
    state: DeskState,
    now: u64,
    read_id: u64,
    operation: AcceptedOperation,
    reply: u64,
    durable: bool,
)
    requires
        state.sound(),
        state.admissions.contains_key(read_id),
        state.admissions[read_id].client_id == operation.client_id(),
    ensures
        state.queue(now, read_id, operation, reply, durable).sound(),
{
    let after = state.queue(now, read_id, operation, reply, durable);
    let before = state.candidates;
    let candidates = after.candidates;
    let known = stands(before, read_id, operation);
    let spot = if known {
        first_standing(before, read_id, operation, 0)
    } else {
        before.len() as int
    };
    if known {
        let at = choose|i: int| stands_at(before, read_id, operation, i);
        lemma_first_standing(before, read_id, operation, 0, at);
        let first = first_standing(before, read_id, operation, 0);
        assert forall|i: int| 0 <= i < candidates.len() implies (#[trigger] candidates[i]).read_id
            == before[i].read_id && candidates[i].operation == before[i].operation by {}
        assert(stands_at(candidates, read_id, operation, first));
        assert forall|read: u64, op: AcceptedOperation, j: int|
            stands_at(before, read, op, j) implies #[trigger] stands_at(candidates, read, op, j) by {}
    } else {
        assert(stands_at(candidates, read_id, operation, before.len() as int));
        assert forall|i: int, j: int| 0 <= i < j < candidates.len() implies !(
        candidates[i].read_id == candidates[j].read_id && candidates[i].operation
            == candidates[j].operation) by {
            assert(candidates[i] == before[i]);
            if j == before.len() {
                if candidates[i].read_id == read_id && candidates[i].operation == operation {
                    assert(stands_at(before, read_id, operation, i));
                }
            } else {
                assert(candidates[j] == before[j]);
            }
        }
        assert forall|read: u64, op: AcceptedOperation, j: int|
            stands_at(before, read, op, j) implies #[trigger] stands_at(candidates, read, op, j) by {
            assert(candidates[j] == before[j]);
        }
    }
    assert forall|i: int| 0 <= i < candidates.len() implies ({
        let candidate = #[trigger] candidates[i];
        &&& after.admissions.contains_key(candidate.read_id)
        &&& candidate.operation.client_id() == after.admissions[candidate.read_id].client_id
    }) by {
        if i < before.len() {
            assert(state.admissions.contains_key(before[i].read_id));
        }
    }
    assert forall|i: int| 0 <= i < after.waiters.len() implies after.attended(
        #[trigger] after.waiters[i],
    ) by {
        if i < state.waiters.len() {
            assert(after.waiters[i] == state.waiters[i]);
            assert(state.attended(state.waiters[i]));
            match state.waiters[i].place {
                Place::Candidate { read_id: read, operation: op } => {
                    let j = choose|j: int| stands_at(before, read, op, j);
                    assert(stands_at(candidates, read, op, j));
                },
                Place::Proposal { id } => {
                    assert(after.pending.contains_key(id));
                },
            }
            assert(after.attended(after.waiters[i]));
        } else {
            assert(after.waiters[i].place == (Place::Candidate { read_id, operation }));
            assert(stands_at(after.candidates, read_id, operation, spot));
            assert(stands(after.candidates, read_id, operation));
            let waiter = Waiter { reply, place: Place::Candidate { read_id, operation } };
            assert(after.attended(waiter));
            assert(after.waiters[i] == waiter);
        }
    }
    assert forall|key: u64| #[trigger] after.reads.contains_key(key) implies ({
        let read = after.reads[key];
        &&& after.admissions.contains_key(read)
        &&& key == pair_key(after.admissions[read].group_id, after.admissions[read].client_id)
    }) by {
        assert(state.reads.contains_key(key));
    }
    assert forall|read: u64| #[trigger] after.admissions.contains_key(read) implies ({
        let key = pair_key(after.admissions[read].group_id, after.admissions[read].client_id);
        &&& read < after.next_read
        &&& after.reads.contains_key(key)
        &&& after.reads[key] == read
    }) by {
        assert(state.admissions.contains_key(read));
    }
}

/// A barrier that starts keeps the desk sound.
pub proof fn lemma_start(
    state: DeskState,
    now: u64,
    group_id: GroupId,
    incarnation: GroupIncarnation,
    operation: AcceptedOperation,
    reply: u64,
    durable: bool,
)
    requires
        state.sound(),
        state.next_read < u64::MAX,
        !state.reads.contains_key(pair_key(group_id, operation.client_id())),
    ensures
        state.start(now, group_id, incarnation, operation, reply, durable).sound(),
{
    let after = state.start(now, group_id, incarnation, operation, reply, durable);
    let read_id = state.next_read;
    let before = state.candidates;
    let candidates = after.candidates;
    assert(!state.admissions.contains_key(read_id));
    assert(stands_at(candidates, read_id, operation, before.len() as int));
    assert forall|i: int| 0 <= i < before.len() implies (#[trigger] before[i]).read_id
        != read_id by {
        assert(state.admissions.contains_key(before[i].read_id));
    }
    assert forall|i: int, j: int| 0 <= i < j < candidates.len() implies !(candidates[i].read_id
        == candidates[j].read_id && candidates[i].operation == candidates[j].operation) by {
        assert(candidates[i] == before[i]);
        if j < before.len() {
            assert(candidates[j] == before[j]);
        }
    }
    assert forall|i: int| 0 <= i < candidates.len() implies ({
        let candidate = #[trigger] candidates[i];
        &&& after.admissions.contains_key(candidate.read_id)
        &&& candidate.operation.client_id() == after.admissions[candidate.read_id].client_id
    }) by {
        if i < before.len() {
            assert(candidates[i] == before[i]);
            assert(state.admissions.contains_key(before[i].read_id));
        }
    }
    assert forall|i: int| 0 <= i < after.waiters.len() implies after.attended(
        #[trigger] after.waiters[i],
    ) by {
        if i < state.waiters.len() {
            assert(after.waiters[i] == state.waiters[i]);
            assert(state.attended(state.waiters[i]));
            match state.waiters[i].place {
                Place::Candidate { read_id: read, operation: op } => {
                    let j = choose|j: int| stands_at(before, read, op, j);
                    assert(candidates[j] == before[j]);
                    assert(stands_at(candidates, read, op, j));
                },
                Place::Proposal { id } => {
                    assert(after.pending.contains_key(id));
                },
            }
            assert(after.attended(after.waiters[i]));
        } else {
            assert(after.waiters[i].place == (Place::Candidate { read_id, operation }));
            assert(stands_at(after.candidates, read_id, operation, before.len() as int));
            assert(stands(after.candidates, read_id, operation));
            let waiter = Waiter { reply, place: Place::Candidate { read_id, operation } };
            assert(after.attended(waiter));
            assert(after.waiters[i] == waiter);
        }
    }
    assert forall|key: u64| #[trigger] after.reads.contains_key(key) implies ({
        let read = after.reads[key];
        &&& after.admissions.contains_key(read)
        &&& key == pair_key(after.admissions[read].group_id, after.admissions[read].client_id)
    }) by {
        if key != pair_key(group_id, operation.client_id()) {
            assert(state.reads.contains_key(key));
        }
    }
    assert forall|read: u64| #[trigger] after.admissions.contains_key(read) implies ({
        let key = pair_key(after.admissions[read].group_id, after.admissions[read].client_id);
        &&& read < after.next_read
        &&& after.reads.contains_key(key)
        &&& after.reads[key] == read
    }) by {
        if read != read_id {
            assert(state.admissions.contains_key(read));
        }
    }
}

/// A barrier that ends keeps the desk sound.
pub proof fn lemma_close(state: DeskState, read_id: u64)
    requires
        state.sound(),
    ensures
        state.close(read_id).sound(),
{
    if state.admissions.contains_key(read_id) {
        let after = state.close(read_id);
        let admission = state.admissions[read_id];
        let gone = pair_key(admission.group_id, admission.client_id);
        lemma_candidates_besides(state.candidates, read_id);
        assert(candidates_distinct(state.candidates));
        lemma_candidates_stay_distinct(state.candidates, read_id);
        lemma_besides_read(state.waiters, read_id);
        let kept = after.candidates;
        assert forall|i: int| 0 <= i < kept.len() implies ({
            let candidate = #[trigger] kept[i];
            &&& after.admissions.contains_key(candidate.read_id)
            &&& candidate.operation.client_id() == after.admissions[candidate.read_id].client_id
        }) by {
            let k = choose|k: int|
                0 <= k < state.candidates.len() && state.candidates[k] == kept[i];
            assert(state.admissions.contains_key(state.candidates[k].read_id));
        }
        assert forall|i: int| 0 <= i < after.waiters.len() implies after.attended(
        #[trigger] after.waiters[i],
    ) by {
            let k = choose|k: int| 0 <= k < state.waiters.len() && state.waiters[k]
                == after.waiters[i];
            assert(state.waiters[k] == after.waiters[i]);
            match state.waiters[k].place {
                Place::Candidate { read_id: read, operation: op } => {
                    let j = choose|j: int| stands_at(state.candidates, read, op, j);
                    assert(stands_at(state.candidates, read, op, j));
                    assert(kept.contains(state.candidates[j]));
                    let m = choose|m: int| 0 <= m < kept.len() && kept[m] == state.candidates[j];
                    assert(stands_at(kept, read, op, m));
                },
                Place::Proposal { .. } => {},
            }
        }
        assert forall|key: u64| #[trigger] after.reads.contains_key(key) implies ({
            let read = after.reads[key];
            &&& after.admissions.contains_key(read)
            &&& key == pair_key(after.admissions[read].group_id, after.admissions[read].client_id)
        }) by {
            assert(state.reads.contains_key(key));
        }
        assert forall|read: u64| #[trigger] after.admissions.contains_key(read) implies ({
            let key = pair_key(after.admissions[read].group_id, after.admissions[read].client_id);
            &&& read < after.next_read
            &&& after.reads.contains_key(key)
            &&& after.reads[key] == read
        }) by {
            assert(state.admissions.contains_key(read));
        }
    }
}

/// An accepted operation keeps the desk sound.
pub proof fn lemma_accept(
    state: DeskState,
    now: u64,
    group_id: GroupId,
    operation: Option<AcceptedOperation>,
    replies: Seq<u64>,
)
    requires
        state.sound(),
        state.next_proposal < u64::MAX,
        operation is Some ==> !state.operations.contains_key(
            pair_key(group_id, operation->0.client_id()),
        ),
    ensures
        state.accept(now, group_id, operation, replies).sound(),
{
    let after = state.accept(now, group_id, operation, replies);
    let id = state.next_proposal;
    assert(!state.pending.contains_key(id));
    assert forall|key: u64| #[trigger] after.operations.contains_key(key) implies ({
        let at = after.operations[key];
        &&& after.pending.contains_key(at)
        &&& after.pending[at].operation is Some
        &&& key == pair_key(after.pending[at].group_id, after.pending[at].operation->0.client_id())
    }) by {
        if operation is Some && key == pair_key(group_id, operation->0.client_id()) {
        } else {
            assert(state.operations.contains_key(key));
        }
    }
    assert forall|other: u64| #[trigger] after.pending.contains_key(other) implies ({
        &&& other < after.next_proposal
        &&& match after.pending[other].operation {
            Some(operation) => {
                let key = pair_key(after.pending[other].group_id, operation.client_id());
                after.operations.contains_key(key) && after.operations[key] == other
            },
            None => true,
        }
    }) by {
        if other != id {
            assert(state.pending.contains_key(other));
        }
    }
    assert forall|i: int| 0 <= i < after.waiters.len() implies after.attended(
        #[trigger] after.waiters[i],
    ) by {
        if i < state.waiters.len() {
            assert(after.waiters[i] == state.waiters[i]);
            assert(state.attended(state.waiters[i]));
        }
    }
}

/// A recorded operation that was accepted again keeps the desk sound.
pub proof fn lemma_accept_recovered(
    state: DeskState,
    group_id: GroupId,
    operation: AcceptedOperation,
)
    requires
        state.sound(),
        state.next_proposal < u64::MAX,
        !state.operations.contains_key(pair_key(group_id, operation.client_id())),
    ensures
        state.accept_recovered(group_id, operation).sound(),
{
    let after = state.accept_recovered(group_id, operation);
    let id = state.next_proposal;
    assert(!state.pending.contains_key(id));
    assert forall|key: u64| #[trigger] after.operations.contains_key(key) implies ({
        let at = after.operations[key];
        &&& after.pending.contains_key(at)
        &&& after.pending[at].operation is Some
        &&& key == pair_key(after.pending[at].group_id, after.pending[at].operation->0.client_id())
    }) by {
        if key != pair_key(group_id, operation.client_id()) {
            assert(state.operations.contains_key(key));
        }
    }
    assert forall|other: u64| #[trigger] after.pending.contains_key(other) implies ({
        &&& other < after.next_proposal
        &&& match after.pending[other].operation {
            Some(operation) => {
                let key = pair_key(after.pending[other].group_id, operation.client_id());
                after.operations.contains_key(key) && after.operations[key] == other
            },
            None => true,
        }
    }) by {
        if other != id {
            assert(state.pending.contains_key(other));
        }
    }
}

/// An operation that ends keeps the desk sound.
pub proof fn lemma_take(state: DeskState, id: u64)
    requires
        state.sound(),
    ensures
        state.take(id).sound(),
{
    if state.pending.contains_key(id) {
        let after = state.take(id);
        lemma_besides(state.waiters, Place::Proposal { id });
        assert forall|key: u64| #[trigger] after.operations.contains_key(key) implies ({
            let at = after.operations[key];
            &&& after.pending.contains_key(at)
            &&& after.pending[at].operation is Some
            &&& key == pair_key(
                after.pending[at].group_id,
                after.pending[at].operation->0.client_id(),
            )
        }) by {
            assert(state.operations.contains_key(key));
        }
        assert forall|other: u64| #[trigger] after.pending.contains_key(other) implies ({
            &&& other < after.next_proposal
            &&& match after.pending[other].operation {
                Some(operation) => {
                    let key = pair_key(after.pending[other].group_id, operation.client_id());
                    after.operations.contains_key(key) && after.operations[key] == other
                },
                None => true,
            }
        }) by {
            assert(state.pending.contains_key(other));
        }
        lemma_kept_waiters(state, after, id);
    }
}

/// Waiters that stay still wait for something.
proof fn lemma_kept_waiters(state: DeskState, after: DeskState, id: u64)
    requires
        state.sound(),
        after.waiters == waiters_besides(state.waiters, Place::Proposal { id }),
        after.candidates == state.candidates,
        forall|other: u64|
            other != id && state.pending.contains_key(other) ==> #[trigger]
                after.pending.contains_key(other),
    ensures
        forall|i: int|
            0 <= i < after.waiters.len() ==> after.attended(#[trigger] after.waiters[i]),
{
    lemma_besides(state.waiters, Place::Proposal { id });
    assert forall|i: int| 0 <= i < after.waiters.len() implies after.attended(
        #[trigger] after.waiters[i],
    ) by {
        let k = choose|k: int| 0 <= k < state.waiters.len() && state.waiters[k] == after.waiters[i];
        assert(state.waiters[k] == after.waiters[i]);
    }
}

/// Clients that were told of an unknown outcome leave the desk sound.
pub proof fn lemma_expire(state: DeskState, id: u64)
    requires
        state.sound(),
        state.pending.contains_key(id),
    ensures
        state.expire(id).sound(),
{
    let after = state.expire(id);
    assert forall|key: u64| #[trigger] after.operations.contains_key(key) implies ({
        let at = after.operations[key];
        &&& after.pending.contains_key(at)
        &&& after.pending[at].operation is Some
        &&& key == pair_key(after.pending[at].group_id, after.pending[at].operation->0.client_id())
    }) by {
        assert(state.operations.contains_key(key));
    }
    assert forall|other: u64| #[trigger] after.pending.contains_key(other) implies ({
        &&& other < after.next_proposal
        &&& match after.pending[other].operation {
            Some(operation) => {
                let key = pair_key(after.pending[other].group_id, operation.client_id());
                after.operations.contains_key(key) && after.operations[key] == other
            },
            None => true,
        }
    }) by {
        assert(state.pending.contains_key(other));
    }
    lemma_kept_waiters(state, after, id);
}

} // verus!
