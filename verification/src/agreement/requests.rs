//! Requests keep the scheduler and its judge in agreement, and are answered alike.

use vstd::prelude::*;

use crate::agreement::relation::{
    ascending, lemma_entry, lemma_found, lemma_replaced, lemma_same_empty, lemma_same_len,
    lemma_same_push, mirrors, same_groups, same_workers, settled_agree,
};
use crate::history::Operation;
use crate::model::reachable::inv;
use crate::model::run::{answers, called, failures, Call};
use crate::model::state::{
    abandoned, find_session, ClassQueues, GroupState, QueuedWork, SchedulerState, Session,
};
use crate::oracle::fold::{find_entry, rank_of, FoldState, GroupFold};
use crate::oracle::sound::{lemma_entry_at, lemma_rank, lemma_some_entry};
use crate::types::{
    ClientId, GroupId, GroupIncarnation, GroupLifecycle, LifecycleRequest, SessionEpoch, Work,
    WorkQuota,
};

verus! {

/// The fold after a request differs from the one before in nothing that agreement does not name.
pub open spec fn quiet(f: FoldState, g: FoldState) -> bool {
    &&& g.recording == f.recording
    &&& g.violation == f.violation
    &&& g.services == f.services
    &&& g.outcomes == f.outcomes
}

/// A slot and its entry replaced alike.
proof fn lemma_moved(
    s: SchedulerState,
    f: FoldState,
    group: GroupId,
    slot: GroupState,
    entry: GroupFold,
)
    requires
        settled_agree(s, f),
        s.slot(group) is Some,
        entry.group == group,
        mirrors(slot, entry, s.next_work as int),
        slot.servicing == s.slot(group)->0.servicing,
        entry.occupancy == f.entry(group)->0.occupancy,
    ensures
        settled_agree(s.with_slot(group, slot), f.with_entry(group, entry)),
        quiet(f, f.with_entry(group, entry)),
        f.with_entry(group, entry).failures == f.failures,
        f.with_entry(group, entry).entry(group) == Some(entry),
{
    lemma_replaced(s, f, group, slot, entry, Seq::empty());
    lemma_entry(s, f, group);
    let g = f.with_entry(group, entry);
    lemma_found(g.groups, find_entry(f.groups, group)->0);
}

/// The slot of a group created for the first time.
spec fn first_slot(quota: WorkQuota) -> GroupState {
    GroupState::fresh(GroupIncarnation(1), quota)
}

/// A slot created for the first time.
#[verifier::spinoff_prover]
#[verifier::rlimit(60)]
proof fn lemma_created(s: SchedulerState, f: FoldState, group: GroupId, quota: WorkQuota)
    requires
        inv(s),
        settled_agree(s, f),
        s.slot(group) is None,
    ensures
        settled_agree(
            s.grown(group).with_slot(group, first_slot(quota)),
            FoldState {
                groups: f.groups.insert(
                    rank_of(f.groups, group) as int,
                    GroupFold::fresh(group, quota),
                ),
                ..f
            },
        ),
{
    let t = s.grown(group).with_slot(group, first_slot(quota));
    let at = rank_of(f.groups, group) as int;
    let fresh = GroupFold::fresh(group, quota);
    let g = FoldState { groups: f.groups.insert(at, fresh), ..f };
    lemma_rank(f.groups, group);
    lemma_same_empty();
    lemma_entry(s, f, group);
    assert forall|i: int| 0 <= i < f.groups.len() implies (#[trigger] f.groups[i]).group != group by {
        if f.groups[i].group == group {
            lemma_some_entry(f.groups, group, i);
        }
    }
    assert(ascending(g.groups)) by {
        assert forall|i: int, j: int| 0 <= i < j < g.groups.len() implies g.groups[i].group@
            < g.groups[j].group@ by {
            let a = if i < at { i } else { i - 1 };
            let b = if j < at { j } else { j - 1 };
            if i != at {
                assert(g.groups[i] == f.groups[a]);
                assert(f.groups[a].group != group);
            }
            if j != at {
                assert(g.groups[j] == f.groups[b]);
                assert(f.groups[b].group != group);
            }
        }
    }
    assert forall|other: GroupId| other != group implies #[trigger] t.slot(other) == s.slot(other) by {}
    assert(t.slot(group) == Some(first_slot(quota)));
    assert forall|i: int| 0 <= i < g.groups.len() implies {
        &&& t.slot((#[trigger] g.groups[i]).group) is Some
        &&& mirrors(t.slot(g.groups[i].group)->0, g.groups[i], t.next_work as int)
        &&& g.groups[i].occupancy is Some <==> t.slot(g.groups[i].group)->0.servicing
    } by {
        if i != at {
            let a = if i < at { i } else { i - 1 };
            assert(g.groups[i] == f.groups[a]);
            assert(s.slot(f.groups[a].group) is Some);
            assert(f.groups[a].occupancy is Some <==> s.slot(f.groups[a].group)->0.servicing
                && !Seq::<GroupId>::empty().contains(f.groups[a].group));
        }
    }
    assert forall|other: GroupId| other != group && f.entry(other) is Some implies g.entry(other)
        == #[trigger] f.entry(other) by {
        lemma_entry_at(f.groups, other);
        let a = find_entry(f.groups, other)->0;
        let i = if a < at { a } else { a + 1 };
        assert(g.groups[i] == f.groups[a]);
        lemma_found(g.groups, i);
    }
    assert forall|other: GroupId| (#[trigger] t.slot(other)) is Some implies g.entry(other) is Some by {
        if other == group {
            lemma_found(g.groups, at);
        } else {
            assert(s.slot(other) is Some);
            assert(f.entry(other) is Some);
        }
    }
    assert forall|w: int|
        0 <= w < t.workers.len() && (#[trigger] t.workers[w]) is Some implies g.entry(
        t.workers[w]->0.group,
    ) is Some && g.entry(t.workers[w]->0.group)->0.occupancy is Some && g.entry(
        t.workers[w]->0.group,
    )->0.occupancy->0.due == t.workers[w]->0.busy_until by {
        let other = s.workers[w]->0.group;
        assert(f.entry(other) is Some);
        lemma_entry(s, f, other);
        assert(s.slot(other) is Some);
    }
    assert forall|i: int| 0 <= i < g.groups.len() implies ((#[trigger] g.groups[i]).occupancy is Some
        <==> t.slot(g.groups[i].group)->0.servicing && !Seq::<GroupId>::empty().contains(
        g.groups[i].group,
    )) by {}
}

/// A poisoned queue is retired alike.
proof fn lemma_retired(s: SchedulerState, f: FoldState, group: GroupId)
    requires
        settled_agree(s, f),
    ensures
        settled_agree(s.retire_poisoned(group).0, f.retire_poisoned(group)),
        f.retire_poisoned(group).failures == f.failures + s.retire_poisoned(group).1,
        quiet(f, f.retire_poisoned(group)),
{
    lemma_entry(s, f, group);
    assert(f.failures + Seq::empty() =~= f.failures);
    if s.slot(group) is Some && s.slot(group)->0.poisoned {
        let slot = s.slot(group)->0;
        let entry = f.entry(group)->0;
        lemma_same_len(slot.queue, entry.queue);
        lemma_same_empty();
        lemma_moved(
            s,
            f,
            group,
            GroupState {
                queue: ClassQueues::empty(),
                sessions: abandoned(slot.sessions),
                ..slot
            },
            GroupFold { queue: Seq::empty(), sessions: abandoned(entry.sessions), ..entry },
        );
        let t = s.retire_poisoned(group).0;
        let g = f.retire_poisoned(group);
        assert(same_groups(t, g)) by {
            let a = s.with_slot(group, t.slot(group)->0);
            let b = f.with_entry(group, g.entry(group)->0);
            lemma_same_tables(a, b, t, g);
        }
    }
}

/// The tables decide whether groups and workers agree; counts that are not identifiers do not.
pub proof fn lemma_same_tables(
    s: SchedulerState,
    f: FoldState,
    t: SchedulerState,
    g: FoldState,
)
    requires
        same_groups(s, f),
        t.slots == s.slots,
        t.workers == s.workers,
        t.next_work >= s.next_work,
        g.groups == f.groups,
    ensures
        same_groups(t, g),
        forall|freed: Seq<GroupId>|
            #[trigger] same_workers(s, f, freed) ==> same_workers(t, g, freed),
{
    assert forall|i: int| 0 <= i < g.groups.len() implies {
        &&& t.slot((#[trigger] g.groups[i]).group) is Some
        &&& mirrors(t.slot(g.groups[i].group)->0, g.groups[i], t.next_work as int)
    } by {
        assert(s.slot(f.groups[i].group) is Some);
    }
    assert forall|group: GroupId| (#[trigger] t.slot(group)) is Some implies g.entry(group) is Some by {
        assert(s.slot(group) is Some);
        assert(f.entry(group) is Some);
    }
    assert forall|freed: Seq<GroupId>| #[trigger] same_workers(s, f, freed) implies same_workers(
        t,
        g,
        freed,
    ) by {
        assert forall|i: int| 0 <= i < g.groups.len() implies ((#[trigger] g.groups[i]).occupancy is Some
            <==> t.slot(g.groups[i].group)->0.servicing && !freed.contains(g.groups[i].group)) by {
            assert(f.groups[i].occupancy is Some <==> s.slot(f.groups[i].group)->0.servicing
                && !freed.contains(f.groups[i].group));
        }
        assert forall|w: int|
            0 <= w < t.workers.len() && (#[trigger] t.workers[w]) is Some && !freed.contains(
                t.workers[w]->0.group,
            ) implies g.entry(t.workers[w]->0.group) is Some && g.entry(
            t.workers[w]->0.group,
        )->0.occupancy is Some && g.entry(t.workers[w]->0.group)->0.occupancy->0.due
            == t.workers[w]->0.busy_until by {
            assert(s.workers[w] is Some);
            assert(g.entry(t.workers[w]->0.group) == f.entry(s.workers[w]->0.group));
        }
    }
}

/// A lifecycle request is answered alike.
#[verifier::spinoff_prover]
#[verifier::rlimit(60)]
proof fn lemma_lifecycle(s: SchedulerState, f: FoldState, group: GroupId, request: LifecycleRequest)
    requires
        inv(s),
        settled_agree(s, f),
    ensures
        f.lifecycle_outcome(group, request) == s.lifecycle(group, request).1,
        settled_agree(s.lifecycle(group, request).0, f.lifecycle(group, request)),
        f.lifecycle(group, request).failures == f.failures + s.lifecycle(group, request).2,
        quiet(f, f.lifecycle(group, request)),
{
    lemma_entry(s, f, group);
    lemma_same_empty();
    assert(f.failures + Seq::empty() =~= f.failures);
    if group@ < s.config.groups_bound() {
        if s.slot(group) is None {
            if request is Create {
                lemma_created(s, f, group, request->Create_quota);
            }
        } else {
            let slot = s.slot(group)->0;
            let entry = f.entry(group)->0;
            lemma_same_len(slot.queue, entry.queue);
            let target = request.target();
            match request {
                LifecycleRequest::Create { quota } => {
                    assert(s.grown(group) == s);
                    if slot.state is Removed && slot.incarnation@ < u32::MAX {
                        let next = GroupIncarnation((slot.incarnation@ + 1) as u32);
                        lemma_moved(
                            s,
                            f,
                            group,
                            GroupState {
                                incarnation: next,
                                state: GroupLifecycle::Creating,
                                quota,
                                ..slot
                            }.cleared(),
                            GroupFold {
                                incarnation: next,
                                state: GroupLifecycle::Creating,
                                quota,
                                ..entry
                            }.cleared(),
                        );
                    }
                },
                LifecycleRequest::Drain => {
                    if slot.state is Creating || slot.state is Recovering || slot.state is Serving {
                        lemma_moved(
                            s,
                            f,
                            group,
                            GroupState { state: target, ..slot },
                            GroupFold { state: target, ..entry },
                        );
                        lemma_retired(
                            s.with_slot(group, GroupState { state: target, ..slot }),
                            f.with_entry(group, GroupFold { state: target, ..entry }),
                            group,
                        );
                    } else if slot.state is Draining {
                        lemma_retired(s, f, group);
                    }
                },
                LifecycleRequest::Remove => {
                    if slot.state is Draining && slot.queue.len() == 0 {
                        lemma_moved(
                            s,
                            f,
                            group,
                            GroupState { state: GroupLifecycle::Removed, ..slot }.cleared(),
                            GroupFold { state: GroupLifecycle::Removed, ..entry }.cleared(),
                        );
                    }
                },
                _ => {
                    lemma_moved(
                        s,
                        f,
                        group,
                        GroupState { state: target, ..slot },
                        GroupFold { state: target, ..entry },
                    );
                },
            }
        }
    }
}

/// A session request is answered alike.
proof fn lemma_session(
    s: SchedulerState,
    f: FoldState,
    group: GroupId,
    incarnation: GroupIncarnation,
    client: ClientId,
    epoch: SessionEpoch,
)
    requires
        settled_agree(s, f),
    ensures
        f.session_outcome(group, incarnation, client, epoch) == s.session_outcome(
            group,
            incarnation,
            client,
            epoch,
        ),
        settled_agree(
            s.open_session(group, incarnation, client, epoch),
            f.open_session(group, incarnation, client, epoch),
        ),
        f.open_session(group, incarnation, client, epoch).failures == f.failures,
        quiet(f, f.open_session(group, incarnation, client, epoch)),
{
    lemma_entry(s, f, group);
    let outcome = s.session_outcome(group, incarnation, client, epoch);
    if outcome is Opened || outcome is Replaced {
        let slot = s.slot(group)->0;
        let entry = f.entry(group)->0;
        let blank = Session { client_id: client, epoch, outstanding: None, completed: None };
        let sessions = if outcome is Opened {
            slot.sessions.push(blank)
        } else {
            slot.sessions.update(find_session(slot.sessions, client)->0, blank)
        };
        lemma_moved(
            s,
            f,
            group,
            GroupState { sessions, ..slot },
            GroupFold { sessions, ..entry },
        );
    }
}

/// A submission is answered alike.
proof fn lemma_submission(
    s: SchedulerState,
    f: FoldState,
    group: GroupId,
    incarnation: GroupIncarnation,
    work: Work,
)
    requires
        settled_agree(s, f),
        s.submit_outcome(group, incarnation, work) is Queued ==> s.next_work < u64::MAX,
    ensures
        f.submit_outcome(group, incarnation, work) == s.submit_outcome(group, incarnation, work),
        settled_agree(s.submit(group, incarnation, work), f.submit(group, incarnation, work)),
        f.submit(group, incarnation, work).failures == f.failures,
        quiet(f, f.submit(group, incarnation, work)),
{
    lemma_entry(s, f, group);
    let outcome = s.submit_outcome(group, incarnation, work);
    if s.slot(group) is Some {
        lemma_same_len(s.slot(group)->0.queue, f.entry(group)->0.queue);
    }
    assert(f.submit_outcome(group, incarnation, work) == outcome);
    if outcome is Queued {
        let slot = s.slot(group)->0;
        let entry = f.entry(group)->0;
        let item = QueuedWork { id: outcome->Queued_work, work };
        lemma_same_push(slot.queue, entry.queue, item);
        let t = s.submit(group, incarnation, work);
        let g = f.submit(group, incarnation, work);
        let next = t.slot(group)->0;
        let wider = SchedulerState { next_work: t.next_work, ..s };
        lemma_same_tables(s, f, wider, f);
        let sessions = next.sessions;
        let grown = GroupFold { queue: entry.queue.push(item), sessions, ..entry };
        lemma_replaced(wider, f, group, next, grown, Seq::empty());
        let a = wider.with_slot(group, next);
        let b = f.with_entry(group, grown);
        assert(g.groups == b.groups);
        lemma_same_tables(a, b, t, g);
    }
}

/// A request is answered alike, and leaves the scheduler and its judge in agreement.
pub proof fn lemma_invoked(s: SchedulerState, f: FoldState, operation: Operation)
    requires
        inv(s),
        settled_agree(s, f),
        operation matches Operation::Submit { group, incarnation, work }
            ==> (s.submit_outcome(group, incarnation, work) is Queued ==> s.next_work < u64::MAX),
    ensures
        settled_agree(
            called(
                s,
                Call::Invoke { operation },
            ),
            f.invoked(operation),
        ),
        f.invoked(operation).violation == f.violation,
        f.invoked(operation).services == f.services,
        f.invoked(operation).outcomes == f.outcomes + answers(
            s,
            Call::Invoke { operation },
        ),
        f.invoked(operation).failures == f.failures + failures(
            s,
            Call::Invoke { operation },
        ),
{
    assert(f.failures + Seq::empty() =~= f.failures);
    let call = Call::Invoke { operation };
    let t = called(s, call);
    let g = match operation {
        Operation::Lifecycle { group, request } => {
            lemma_lifecycle(s, f, group, request);
            f.lifecycle(group, request)
        },
        Operation::OpenSession { group, incarnation, client_id, session_epoch } => {
            lemma_session(s, f, group, incarnation, client_id, session_epoch);
            f.open_session(group, incarnation, client_id, session_epoch)
        },
        Operation::Submit { group, incarnation, work } => {
            lemma_submission(s, f, group, incarnation, work);
            f.submit(group, incarnation, work)
        },
    };
    lemma_same_tables(t, g, t, f.invoked(operation));
    assert(f.outcomes.push(f.answer(operation)) =~= f.outcomes
        + answers(s, call));
}

} // verus!
