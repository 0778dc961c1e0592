//! Client operations from request to answer: admission barriers, accepted proposals, and the
//! recovery of what the record holds after a restart.

use vstd::prelude::*;

use crate::adapter::state_machine::CounterAdmissionDecision;
use crate::node::app_store::ReserveOutcome;
use crate::node::engine::desk::sound::{
    lemma_accept, lemma_accept_recovered, lemma_close, lemma_expire, lemma_join, lemma_queue,
    lemma_start, lemma_take,
};
use crate::node::engine::desk::state::{
    candidates_besides, candidates_of, counted, failed_answer, first_standing, granted_action,
    pair_key, replies_at, stands, stands_at, waiters_besides, waiters_besides_read,
    AcceptedOperation, Admission, AdmissionAnswer, AdmissionStep, Candidate, CandidateAction,
    DeskState, DurableOperationState, OutstandingWork, Pending, Place, ProceedStep, RecordAction,
    RecoveryStep, TakenView, Waiter, RECOVERY_RETRY_DELAY_MS,
};
use crate::node::engine::lifecycle::{admission_record, serving_driver, GroupFacts};
use crate::node::record::{OutstandingPhase, TerminalFailure};
use crate::node::render::{
    joined, render_apply_rejection, render_counter_result, render_terminal_failure, Refusal,
};
use crate::table::{lemma_key_count, lemma_row, Table};
use crate::types::{ClientId, GroupId, GroupIncarnation, GroupLifecycle, WorkClass};

pub mod endings;
pub mod laws;
pub mod outcomes;
pub mod sound;
pub mod state;

verus! {

/// Desk that takes client operations.
#[derive(Debug)]
pub struct Desk {
    timeout: u64,
    max_sessions: usize,
    pending: Table<Pending>,
    operations: Table<u64>,
    admissions: Table<Admission>,
    reads: Table<u64>,
    candidates: Vec<Candidate>,
    waiters: Vec<Waiter>,
    deferred: Table<u64>,
    next_proposal: u64,
    next_read: u64,
    barriers_started: u64,
    client_admitted: u64,
    recovery_refused: u64,
}

/// An operation whose barrier ended, with its clients.
#[derive(Debug)]
pub struct TakenCandidate {
    /// The operation.
    pub operation: AcceptedOperation,
    /// The record already held the operation.
    pub durable: bool,
    /// Its clients.
    pub replies: Vec<u64>,
}

impl TakenCandidate {
    /// Content.
    pub open spec fn view(self) -> TakenView {
        TakenView { operation: self.operation, durable: self.durable, replies: self.replies@ }
    }
}

/// Contents of taken candidates.
pub open spec fn taken_views(taken: Seq<TakenCandidate>) -> Seq<TakenView> {
    Seq::new(taken.len(), |i: int| taken[i]@)
}

/// A barrier that ended.
#[derive(Debug)]
pub struct ClosedRead {
    /// The barrier.
    pub read_id: u64,
    /// What it was for.
    pub admission: Admission,
    /// Operations that waited for it.
    pub candidates: Vec<TakenCandidate>,
}

/// An operation that ended, with its clients.
#[derive(Debug)]
pub struct TakenClient {
    /// The operation.
    pub pending: Pending,
    /// Its clients.
    pub replies: Vec<u64>,
    /// What happens to the record before they are answered.
    pub action: RecordAction,
}

/// Clients that were told that the outcome is unknown.
#[derive(Debug)]
pub struct ExpiredClient {
    /// Proposal that they waited for.
    pub id: u64,
    /// The clients.
    pub replies: Vec<u64>,
}

/// Number of a client of a group.
fn client_key(group_id: GroupId, client_id: ClientId) -> (r: u64)
    ensures
        r == pair_key(group_id, client_id),
{
    group_id.get() as u64 * 0x1_0000_0000 + client_id.get() as u64
}

fn count_one(count: u64) -> (r: u64)
    ensures
        r == counted(count),
{
    count.saturating_add(1)
}

impl AdmissionAnswer {
    /// Renders the answer.
    pub fn render(self) -> (r: String)
        ensures
            r@ == self.text(),
    {
        match self {
            AdmissionAnswer::Refused { refusal } => refusal.render(),
            AdmissionAnswer::ClientOutOfRange => "ERR CLIENT_OUT_OF_RANGE".to_owned(),
            AdmissionAnswer::Terminal { failure } => render_terminal_failure(failure).to_owned(),
            AdmissionAnswer::Conflicting => "ERR CONFLICTING_OUTSTANDING".to_owned(),
            AdmissionAnswer::RemainsDurable => {
                "ERR UNKNOWN accepted operation remains durable".to_owned()
            },
            AdmissionAnswer::ReadsExhausted => "ERR READ_ID_EXHAUSTED".to_owned(),
            AdmissionAnswer::SessionAlreadyOpen => "OK SESSION already_open".to_owned(),
            AdmissionAnswer::Replay { result } => {
                let text = render_counter_result(result);
                joined("OK REPLAY ", text.as_str())
            },
            AdmissionAnswer::Rejected { rejection } => render_apply_rejection(rejection),
        }
    }
}

/// Answer to an operation whose barrier ended without a grant.
pub open spec fn barrier_failure_text(durable: bool, detail: Seq<char>) -> Seq<char> {
    if durable {
        "ERR UNKNOWN accepted operation remains durable"@
    } else {
        "ERR NOT_COMMITTED "@ + detail
    }
}

/// Renders the answer to an operation whose barrier ended without a grant.
pub fn render_barrier_failure(durable: bool, detail: &str) -> (r: String)
    ensures
        r@ == barrier_failure_text(durable, detail@),
{
    if durable {
        "ERR UNKNOWN accepted operation remains durable".to_owned()
    } else {
        joined("ERR NOT_COMMITTED ", detail)
    }
}

/// Answer to an operation whose barrier was given up for a reason of the group's.
pub open spec fn admission_failure_text(durable: bool, response: Seq<char>) -> Seq<char> {
    if durable {
        "ERR UNKNOWN accepted operation remains durable"@
    } else {
        response
    }
}

/// Renders the answer to an operation whose barrier was given up for a reason of the group's.
pub fn render_admission_failure(durable: bool, response: &str) -> (r: String)
    ensures
        r@ == admission_failure_text(durable, response@),
{
    if durable {
        "ERR UNKNOWN accepted operation remains durable".to_owned()
    } else {
        response.to_owned()
    }
}

impl Desk {
    /// Everything that the desk holds.
    pub closed spec fn state(self) -> DeskState {
        DeskState {
            timeout: self.timeout,
            max_sessions: self.max_sessions,
            pending: self.pending@,
            operations: self.operations@,
            admissions: self.admissions@,
            reads: self.reads@,
            candidates: self.candidates@,
            waiters: self.waiters@,
            deferred: self.deferred@,
            next_proposal: self.next_proposal,
            next_read: self.next_read,
            barriers_started: self.barriers_started,
            client_admitted: self.client_admitted,
            recovery_refused: self.recovery_refused,
        }
    }

    closed spec fn tables_wf(self) -> bool {
        &&& self.pending.wf()
        &&& self.operations.wf()
        &&& self.admissions.wf()
        &&& self.reads.wf()
        &&& self.deferred.wf()
    }

    /// The tables are in order and the desk is sound.
    pub closed spec fn wf(self) -> bool {
        self.tables_wf() && self.state().sound()
    }

    /// Creates a desk that has taken nothing.
    pub fn new(timeout: u64, max_sessions: usize) -> (r: Self)
        ensures
            r.wf(),
            r.state() == DeskState::initial(timeout, max_sessions),
    {
        Self {
            timeout,
            max_sessions,
            pending: Table::new(),
            operations: Table::new(),
            admissions: Table::new(),
            reads: Table::new(),
            candidates: Vec::new(),
            waiters: Vec::new(),
            deferred: Table::new(),
            next_proposal: 1,
            next_read: 1,
            barriers_started: 0,
            client_admitted: 0,
            recovery_refused: 0,
        }
    }

    /// Returns whether a client or a retry can still be given its time at this moment.
    pub fn takes_time(&self, now: u64) -> (r: bool)
        ensures
            r == self.state().takes(now),
    {
        now <= u64::MAX - self.timeout && now <= u64::MAX - RECOVERY_RETRY_DELAY_MS
    }

    /// Returns whether an operation of the group is in progress.
    pub fn has_pending(&self, group_id: GroupId) -> (r: bool)
        requires
            self.wf(),
        ensures
            r == exists|id: u64| #[trigger]
                self.state().pending.contains_key(id) && self.state().pending[id].group_id
                    == group_id,
    {
        let mut i: usize = 0;
        while i < self.pending.len()
            invariant
                self.wf(),
                i <= self.pending.count(),
                forall|k: int|
                    0 <= k < i ==> (#[trigger] self.pending.all()[k]).value.group_id != group_id,
            decreases self.pending.count() - i,
        {
            let (id, pending) = self.pending.row(i);
            if pending.group_id == group_id {
                assert(self.state().pending.contains_key(id));
                return true;
            }
            i = i + 1;
        }
        proof {
            self.pending.lemma_rows();
            assert forall|id: u64| #[trigger] self.state().pending.contains_key(id) implies
                self.state().pending[id].group_id != group_id by {
                let k = choose|k: int| 0 <= k < self.pending.count() && self.pending.key(k) == id;
                lemma_row(self.pending.all(), k);
                assert(self.pending.all()[k].value.group_id != group_id);
            }
        }
        false
    }

    /// Returns whether an admission barrier of the group is in progress.
    pub fn has_admission(&self, group_id: GroupId) -> (r: bool)
        requires
            self.wf(),
        ensures
            r == exists|read: u64| #[trigger]
                self.state().admissions.contains_key(read)
                    && self.state().admissions[read].group_id == group_id,
    {
        let mut i: usize = 0;
        while i < self.admissions.len()
            invariant
                self.wf(),
                i <= self.admissions.count(),
                forall|k: int|
                    0 <= k < i ==> (#[trigger] self.admissions.all()[k]).value.group_id
                        != group_id,
            decreases self.admissions.count() - i,
        {
            let (read, admission) = self.admissions.row(i);
            if admission.group_id == group_id {
                assert(self.state().admissions.contains_key(read));
                return true;
            }
            i = i + 1;
        }
        proof {
            self.admissions.lemma_rows();
            assert forall|read: u64| #[trigger]
                self.state().admissions.contains_key(read) implies
                self.state().admissions[read].group_id != group_id by {
                let k = choose|k: int|
                    0 <= k < self.admissions.count() && self.admissions.key(k) == read;
                lemma_row(self.admissions.all(), k);
                assert(self.admissions.all()[k].value.group_id != group_id);
            }
        }
        false
    }

    fn replies_to(&self, place: Place) -> (r: Vec<u64>)
        ensures
            r@ == replies_at(self.waiters@, place),
    {
        let mut replies: Vec<u64> = Vec::new();
        let mut i: usize = 0;
        assert(self.waiters@.take(0) =~= Seq::empty());
        while i < self.waiters.len()
            invariant
                i <= self.waiters@.len(),
                replies@ == replies_at(self.waiters@.take(i as int), place),
            decreases self.waiters@.len() - i,
        {
            let ghost more = self.waiters@.take(i + 1);
            assert(more.drop_last() =~= self.waiters@.take(i as int));
            if self.waiters[i].place == place {
                replies.push(self.waiters[i].reply);
            }
            i = i + 1;
        }
        assert(self.waiters@.take(i as int) =~= self.waiters@);
        replies
    }

    fn other_waiters(&self, place: Place) -> (r: Vec<Waiter>)
        ensures
            r@ == waiters_besides(self.waiters@, place),
    {
        let mut kept: Vec<Waiter> = Vec::new();
        let mut i: usize = 0;
        assert(self.waiters@.take(0) =~= Seq::empty());
        while i < self.waiters.len()
            invariant
                i <= self.waiters@.len(),
                kept@ == waiters_besides(self.waiters@.take(i as int), place),
            decreases self.waiters@.len() - i,
        {
            let ghost more = self.waiters@.take(i + 1);
            assert(more.drop_last() =~= self.waiters@.take(i as int));
            if self.waiters[i].place != place {
                kept.push(self.waiters[i]);
            }
            i = i + 1;
        }
        assert(self.waiters@.take(i as int) =~= self.waiters@);
        kept
    }

    fn waiters_of_other_reads(&self, read_id: u64) -> (r: Vec<Waiter>)
        ensures
            r@ == waiters_besides_read(self.waiters@, read_id),
    {
        let mut kept: Vec<Waiter> = Vec::new();
        let mut i: usize = 0;
        assert(self.waiters@.take(0) =~= Seq::empty());
        while i < self.waiters.len()
            invariant
                i <= self.waiters@.len(),
                kept@ == waiters_besides_read(self.waiters@.take(i as int), read_id),
            decreases self.waiters@.len() - i,
        {
            let ghost more = self.waiters@.take(i + 1);
            assert(more.drop_last() =~= self.waiters@.take(i as int));
            let waits = match self.waiters[i].place {
                Place::Candidate { read_id: read, .. } => read == read_id,
                Place::Proposal { .. } => false,
            };
            if !waits {
                kept.push(self.waiters[i]);
            }
            i = i + 1;
        }
        assert(self.waiters@.take(i as int) =~= self.waiters@);
        kept
    }

    fn wait(&mut self, replies: &Vec<u64>, place: Place)
        ensures
            final(self).waiters@ == old(self).waiters@ + Seq::new(
                replies@.len(),
                |i: int| Waiter { reply: replies@[i], place },
            ),
            *final(self) == (Desk { waiters: final(self).waiters, ..*old(self) }),
    {
        let mut i: usize = 0;
        while i < replies.len()
            invariant
                i <= replies@.len(),
                self.waiters@ == old(self).waiters@ + Seq::new(
                    i as nat,
                    |k: int| Waiter { reply: replies@[k], place },
                ),
                *self == (Desk { waiters: self.waiters, ..*old(self) }),
            decreases replies@.len() - i,
        {
            self.waiters.push(Waiter { reply: replies[i], place });
            i = i + 1;
            assert(self.waiters@ =~= old(self).waiters@ + Seq::new(
                i as nat,
                |k: int| Waiter { reply: replies@[k], place },
            ));
        }
    }

    fn find_candidate(&self, read_id: u64, operation: AcceptedOperation) -> (r: Option<usize>)
        ensures
            match r {
                Some(i) => i < self.candidates@.len() && stands_at(
                    self.candidates@,
                    read_id,
                    operation,
                    i as int,
                ) && i == first_standing(self.candidates@, read_id, operation, 0),
                None => !stands(self.candidates@, read_id, operation),
            },
    {
        let mut i: usize = 0;
        while i < self.candidates.len()
            invariant
                i <= self.candidates@.len(),
                forall|k: int|
                    0 <= k < i ==> !#[trigger] stands_at(self.candidates@, read_id, operation, k),
                first_standing(self.candidates@, read_id, operation, 0) == first_standing(
                    self.candidates@,
                    read_id,
                    operation,
                    i as int,
                ),
            decreases self.candidates@.len() - i,
        {
            if self.candidates[i].read_id == read_id && self.candidates[i].operation == operation {
                assert(stands_at(self.candidates@, read_id, operation, i as int));
                return Some(i);
            }
            assert(!stands_at(self.candidates@, read_id, operation, i as int));
            i = i + 1;
        }
        None
    }

    fn find_same_operation(&self, group_id: GroupId, operation: AcceptedOperation) -> (r: Option<u64>)
        requires
            self.wf(),
        ensures
            r == self.state().same_operation(group_id, operation),
            r is Some ==> self.state().pending.contains_key(r->0),
    {
        let key: u64 = client_key(group_id, operation.client_id());
        match self.operations.get(key) {
            None => None,
            Some(id) => match self.pending.get(id) {
                None => {
                    assert(self.state().operations.contains_key(key));
                    None
                },
                Some(pending) => match pending.operation {
                    Some(other) => if other == operation {
                        Some(id)
                    } else {
                        None
                    },
                    None => None,
                },
            },
        }
    }

    fn join_operation(&mut self, now: u64, id: u64, replies: &Vec<u64>)
        requires
            old(self).wf(),
            old(self).state().takes(now),
            old(self).state().pending.contains_key(id),
        ensures
            final(self).wf(),
            final(self).state() == old(self).state().join(now, id, replies@),
    {
        let Some(pending) = self.pending.get(id) else {
            return;
        };
        self.pending.insert(
            id,
            Pending { deadline: Some(now + self.timeout), ..pending },
        );
        self.wait(replies, Place::Proposal { id });
        proof {
            assert(self.state() =~= old(self).state().join(now, id, replies@));
            lemma_join(old(self).state(), now, id, replies@);
        }
    }

    /// Lets a client join what is in progress; `false` when nothing is that it can join.
    fn attach_or_queue_pending_admission(
        &mut self,
        now: u64,
        group_id: GroupId,
        operation: AcceptedOperation,
        reply: u64,
        durable: bool,
    ) -> (r: bool)
        requires
            old(self).wf(),
            old(self).state().takes(now),
        ensures
            final(self).wf(),
            match old(self).state().attach(now, group_id, operation, reply, durable) {
                Some(after) => r && final(self).state() == after,
                None => !r && *final(self) == *old(self),
            },
    {
        if let Some(id) = self.find_same_operation(group_id, operation) {
            let mut replies: Vec<u64> = Vec::new();
            replies.push(reply);
            assert(replies@ =~= seq![reply]);
            self.join_operation(now, id, &replies);
            return true;
        }
        let key: u64 = client_key(group_id, operation.client_id());
        let Some(read_id) = self.reads.get(key) else {
            return false;
        };
        let ghost before = self.state();
        assert(before.reads.contains_key(key));
        let Some(admission) = self.admissions.get(read_id) else {
            return false;
        };
        self.admissions.insert(
            read_id,
            Admission { deadline: now + self.timeout, ..admission },
        );
        match self.find_candidate(read_id, operation) {
            Some(i) => {
                assert(stands_at(before.candidates, read_id, operation, i as int));
                let candidate = self.candidates[i];
                self.candidates.set(
                    i,
                    Candidate { durable: candidate.durable || durable, ..candidate },
                );
            },
            None => {
                self.candidates.push(Candidate { read_id, operation, durable });
            },
        }
        self.waiters.push(Waiter { reply, place: Place::Candidate { read_id, operation } });
        proof {
            assert(self.state() =~= before.queue(now, read_id, operation, reply, durable));
            crate::node::engine::desk::state::lemma_pair_key(
                group_id,
                operation.client_id(),
                admission.group_id,
                admission.client_id,
            );
            lemma_queue(before, now, read_id, operation, reply, durable);
        }
        true
    }

    /// Takes an operation that a client asks for.
    pub fn begin_authoritative_admission(
        &mut self,
        now: u64,
        facts: Option<GroupFacts>,
        group_id: GroupId,
        incarnation: GroupIncarnation,
        operation: AcceptedOperation,
        reply: u64,
        recorded: DurableOperationState,
    ) -> (r: AdmissionStep)
        requires
            old(self).wf(),
            old(self).state().takes(now),
        ensures
            final(self).wf(),
            (final(self).state(), r) == old(self).state().begin(
                now,
                facts,
                group_id,
                incarnation,
                operation,
                reply,
                recorded,
            ),
    {
        if let Some(refusal) = admission_record(facts, incarnation) {
            return AdmissionStep::Answer { answer: AdmissionAnswer::Refused { refusal } };
        }
        if operation.client_id().get() as u64 >= self.max_sessions as u64 {
            return AdmissionStep::Answer { answer: AdmissionAnswer::ClientOutOfRange };
        }
        let durable = match recorded {
            DurableOperationState::ExactTerminal { failure } => {
                return AdmissionStep::Answer { answer: AdmissionAnswer::Terminal { failure } };
            },
            DurableOperationState::ConflictingTerminal => {
                return AdmissionStep::Answer { answer: AdmissionAnswer::Conflicting };
            },
            DurableOperationState::ExactOutstanding { .. } => true,
            DurableOperationState::ConflictingOutstanding | DurableOperationState::Absent => false,
        };
        if self.attach_or_queue_pending_admission(now, group_id, operation, reply, durable) {
            return AdmissionStep::Attached;
        }
        self.start_admission_barrier(now, facts, group_id, incarnation, operation, reply, durable)
    }

    fn start_admission_barrier(
        &mut self,
        now: u64,
        facts: Option<GroupFacts>,
        group_id: GroupId,
        incarnation: GroupIncarnation,
        operation: AcceptedOperation,
        reply: u64,
        durable: bool,
    ) -> (r: AdmissionStep)
        requires
            old(self).wf(),
            old(self).state().takes(now),
            old(self).state().attach(now, group_id, operation, reply, durable) is None,
        ensures
            final(self).wf(),
            match crate::node::engine::lifecycle::serving_refusal(facts, incarnation) {
                Some(refusal) => *final(self) == *old(self) && r == (AdmissionStep::Answer {
                    answer: failed_answer(durable, AdmissionAnswer::Refused { refusal }),
                }),
                None => if old(self).state().next_read == u64::MAX {
                    *final(self) == *old(self) && r == (AdmissionStep::Answer {
                        answer: failed_answer(durable, AdmissionAnswer::ReadsExhausted),
                    })
                } else {
                    final(self).state() == old(self).state().start(
                        now,
                        group_id,
                        incarnation,
                        operation,
                        reply,
                        durable,
                    ) && r == (AdmissionStep::Barrier { read_id: old(self).state().next_read })
                },
            },
    {
        if let Some(refusal) = serving_driver(facts, incarnation) {
            let answer = if durable {
                AdmissionAnswer::RemainsDurable
            } else {
                AdmissionAnswer::Refused { refusal }
            };
            return AdmissionStep::Answer { answer };
        }
        let read_id: u64 = self.next_read;
        if read_id == u64::MAX {
            let answer = if durable {
                AdmissionAnswer::RemainsDurable
            } else {
                AdmissionAnswer::ReadsExhausted
            };
            return AdmissionStep::Answer { answer };
        }
        let ghost before = self.state();
        let client_id = operation.client_id();
        self.next_read = read_id + 1;
        self.barriers_started = count_one(self.barriers_started);
        self.reads.insert(client_key(group_id, client_id), read_id);
        self.admissions.insert(
            read_id,
            Admission { group_id, incarnation, client_id, deadline: now + self.timeout },
        );
        self.candidates.push(Candidate { read_id, operation, durable });
        self.waiters.push(Waiter { reply, place: Place::Candidate { read_id, operation } });
        proof {
            assert(self.state() =~= before.start(
                now,
                group_id,
                incarnation,
                operation,
                reply,
                durable,
            ));
            lemma_start(before, now, group_id, incarnation, operation, reply, durable);
        }
        AdmissionStep::Barrier { read_id }
    }
}

/// Identities in strictly ascending order.
pub open spec fn ids_ascend(ids: Seq<u64>) -> bool {
    forall|i: int, j: int| 0 <= i < j < ids.len() ==> ids[i] < ids[j]
}

/// Barriers that ended.
pub open spec fn closed_ids(closed: Seq<ClosedRead>) -> Seq<u64> {
    Seq::new(closed.len(), |i: int| closed[i].read_id)
}

/// The closed barriers carry what waited for them when they were closed, one after the other.
pub open(crate) spec fn closes(start: DeskState, closed: Seq<ClosedRead>) -> bool {
    forall|i: int|
        0 <= i < closed.len() ==> {
            let read = (#[trigger] closed[i]).read_id;
            let before = start.close_all(closed_ids(closed).take(i));
            &&& before.admissions.contains_key(read)
            &&& closed[i].admission == before.admissions[read]
            &&& taken_views(closed[i].candidates@) == before.waiting(read)
        }
}

impl Desk {
    fn candidates_waiting(&self, read_id: u64) -> (r: Vec<TakenCandidate>)
        ensures
            taken_views(r@) == self.state().waiting(read_id),
    {
        let mut taken: Vec<TakenCandidate> = Vec::new();
        let mut i: usize = 0;
        let ghost all = self.candidates@;
        assert(all.take(0) =~= Seq::empty());
        while i < self.candidates.len()
            invariant
                i <= all.len(),
                all == self.candidates@,
                taken@.len() == candidates_of(all.take(i as int), read_id).len(),
                forall|k: int|
                    0 <= k < taken@.len() ==> {
                        let candidate = candidates_of(all.take(i as int), read_id)[k];
                        (#[trigger] taken@[k])@ == (TakenView {
                            operation: candidate.operation,
                            durable: candidate.durable,
                            replies: replies_at(
                                self.waiters@,
                                Place::Candidate { read_id, operation: candidate.operation },
                            ),
                        })
                    },
            decreases all.len() - i,
        {
            let ghost more = all.take(i + 1);
            assert(more.drop_last() =~= all.take(i as int));
            let candidate = self.candidates[i];
            if candidate.read_id == read_id {
                let replies = self.replies_to(
                    Place::Candidate { read_id, operation: candidate.operation },
                );
                taken.push(
                    TakenCandidate {
                        operation: candidate.operation,
                        durable: candidate.durable,
                        replies,
                    },
                );
            }
            i = i + 1;
        }
        assert(all.take(i as int) =~= all);
        assert(taken_views(taken@) =~= self.state().waiting(read_id));
        taken
    }

    fn candidates_of_other_reads(&self, read_id: u64) -> (r: Vec<Candidate>)
        ensures
            r@ == candidates_besides(self.candidates@, read_id),
    {
        let mut kept: Vec<Candidate> = Vec::new();
        let mut i: usize = 0;
        assert(self.candidates@.take(0) =~= Seq::empty());
        while i < self.candidates.len()
            invariant
                i <= self.candidates@.len(),
                kept@ == candidates_besides(self.candidates@.take(i as int), read_id),
            decreases self.candidates@.len() - i,
        {
            let ghost more = self.candidates@.take(i + 1);
            assert(more.drop_last() =~= self.candidates@.take(i as int));
            if self.candidates[i].read_id != read_id {
                kept.push(self.candidates[i]);
            }
            i = i + 1;
        }
        assert(self.candidates@.take(i as int) =~= self.candidates@);
        kept
    }

    /// Ends a barrier, and hands out the operations that waited for it.
    pub fn take_pending_admission(&mut self, read_id: u64) -> (r: Option<ClosedRead>)
        requires
            old(self).wf(),
        ensures
            final(self).wf(),
            final(self).state() == old(self).state().close(read_id),
            match r {
                Some(closed) => {
                    &&& old(self).state().admissions.contains_key(read_id)
                    &&& closed.read_id == read_id
                    &&& closed.admission == old(self).state().admissions[read_id]
                    &&& taken_views(closed.candidates@) == old(self).state().waiting(read_id)
                },
                None => !old(self).state().admissions.contains_key(read_id),
            },
    {
        let ghost before = self.state();
        let Some(admission) = self.admissions.get(read_id) else {
            return None;
        };
        let candidates = self.candidates_waiting(read_id);
        let kept = self.candidates_of_other_reads(read_id);
        let waiters = self.waiters_of_other_reads(read_id);
        self.admissions.remove(read_id);
        self.reads.remove(client_key(admission.group_id, admission.client_id));
        self.candidates = kept;
        self.waiters = waiters;
        proof {
            assert(self.state() =~= before.close(read_id));
            lemma_close(before, read_id);
        }
        Some(ClosedRead { read_id, admission, candidates })
    }

    fn close_reads(&mut self, reads: &Vec<u64>) -> (r: Vec<ClosedRead>)
        requires
            old(self).wf(),
            ids_ascend(reads@),
            forall|i: int|
                0 <= i < reads@.len() ==> old(self).state().admissions.contains_key(
                    #[trigger] reads@[i],
                ),
        ensures
            final(self).wf(),
            closed_ids(r@) == reads@,
            closes(old(self).state(), r@),
            final(self).state() == old(self).state().close_all(reads@),
    {
        let ghost start = self.state();
        let mut closed: Vec<ClosedRead> = Vec::new();
        let mut i: usize = 0;
        assert(reads@.take(0) =~= Seq::empty());
        while i < reads.len()
            invariant
                i <= reads@.len(),
                self.wf(),
                ids_ascend(reads@),
                start == old(self).state(),
                self.state() == start.close_all(reads@.take(i as int)),
                closed_ids(closed@) == reads@.take(i as int),
                closes(start, closed@),
                forall|k: int|
                    i <= k < reads@.len() ==> self.state().admissions.contains_key(
                        #[trigger] reads@[k],
                    ),
            decreases reads@.len() - i,
        {
            let ghost before = self.state();
            let ghost done = closed@;
            let ghost more = reads@.take(i + 1);
            assert(more.drop_last() =~= reads@.take(i as int));
            assert(before.admissions.contains_key(reads@[i as int]));
            match self.take_pending_admission(reads[i]) {
                Some(read) => {
                    closed.push(read);
                    proof {
                        assert(closed_ids(closed@) =~= more);
                        assert forall|k: int| 0 <= k < closed@.len() implies ({
                            let read = (#[trigger] closed@[k]).read_id;
                            let at = start.close_all(closed_ids(closed@).take(k));
                            &&& at.admissions.contains_key(read)
                            &&& closed@[k].admission == at.admissions[read]
                            &&& taken_views(closed@[k].candidates@) == at.waiting(read)
                        }) by {
                            assert(closed_ids(closed@).take(k) =~= reads@.take(k));
                            if k < i {
                                assert(closed@[k] == done[k]);
                                assert(closed_ids(done).take(k) =~= reads@.take(k));
                            }
                        }
                    }
                },
                None => {},
            }
            proof {
                assert forall|k: int| i + 1 <= k < reads@.len() implies
                    self.state().admissions.contains_key(#[trigger] reads@[k]) by {
                    assert(reads@[i as int] < reads@[k]);
                    assert(before.admissions.contains_key(reads@[k]));
                }
            }
            i = i + 1;
        }
        assert(reads@.take(i as int) =~= reads@);
        closed
    }

    /// Ends every barrier whose time is over.
    pub fn expire_admission_reads(&mut self, now: u64) -> (r: Vec<ClosedRead>)
        requires
            old(self).wf(),
        ensures
            final(self).wf(),
            ids_ascend(closed_ids(r@)),
            forall|read: u64| #[trigger]
                closed_ids(r@).contains(read) <==> old(self).state().overdue_read(now, read),
            closes(old(self).state(), r@),
            final(self).state() == old(self).state().close_all(closed_ids(r@)),
    {
        let mut reads: Vec<u64> = Vec::new();
        let mut i: usize = 0;
        while i < self.admissions.len()
            invariant
                self.wf(),
                *self == *old(self),
                i <= self.admissions.count(),
                ids_ascend(reads@),
                forall|k: int|
                    0 <= k < reads@.len() ==> old(self).state().overdue_read(now, #[trigger] reads@[k]),
                forall|k: int, m: int|
                    0 <= k < reads@.len() && i <= m < self.admissions.count() ==> #[trigger] reads@[k]
                        < #[trigger] self.admissions.key(m),
                forall|k: int|
                    0 <= k < i && old(self).state().overdue_read(
                        now,
                        #[trigger] self.admissions.key(k),
                    ) ==> reads@.contains(self.admissions.key(k)),
            decreases self.admissions.count() - i,
        {
            let (read, admission) = self.admissions.row(i);
            let ghost before = reads@;
            proof {
                self.admissions.lemma_rows();
            }
            if now >= admission.deadline {
                reads.push(read);
                assert(reads@[before.len() as int] == read);
            }
            proof {
                assert forall|k: int|
                    0 <= k < i + 1 && old(self).state().overdue_read(
                        now,
                        #[trigger] self.admissions.key(k),
                    ) implies reads@.contains(self.admissions.key(k)) by {
                    if k < i {
                        let m = choose|m: int|
                            0 <= m < before.len() && before[m] == self.admissions.key(k);
                        assert(reads@[m] == self.admissions.key(k));
                    }
                }
            }
            i = i + 1;
        }
        proof {
            self.admissions.lemma_rows();
            assert forall|read: u64| #[trigger] reads@.contains(read)
                <==> old(self).state().overdue_read(now, read) by {
                if old(self).state().overdue_read(now, read) {
                    let k = choose|k: int|
                        0 <= k < self.admissions.count() && self.admissions.key(k) == read;
                    assert(old(self).state().overdue_read(now, self.admissions.key(k)));
                }
            }
        }
        self.close_reads(&reads)
    }

    /// Ends every barrier of a group.
    pub fn cancel_admission_reads_for_group(&mut self, group_id: GroupId) -> (r: Vec<ClosedRead>)
        requires
            old(self).wf(),
        ensures
            final(self).wf(),
            ids_ascend(closed_ids(r@)),
            forall|read: u64| #[trigger]
                closed_ids(r@).contains(read) <==> old(self).state().admissions.contains_key(read)
                    && old(self).state().admissions[read].group_id == group_id,
            closes(old(self).state(), r@),
            final(self).state() == old(self).state().close_all(closed_ids(r@)),
    {
        let mut reads: Vec<u64> = Vec::new();
        let mut i: usize = 0;
        let ghost state = self.state();
        while i < self.admissions.len()
            invariant
                self.wf(),
                *self == *old(self),
                state == self.state(),
                i <= self.admissions.count(),
                ids_ascend(reads@),
                forall|k: int|
                    0 <= k < reads@.len() ==> state.admissions.contains_key(#[trigger] reads@[k])
                        && state.admissions[reads@[k]].group_id == group_id,
                forall|k: int, m: int|
                    0 <= k < reads@.len() && i <= m < self.admissions.count() ==> #[trigger] reads@[k]
                        < #[trigger] self.admissions.key(m),
                forall|k: int|
                    0 <= k < i && state.admissions[#[trigger] self.admissions.key(k)].group_id
                        == group_id ==> reads@.contains(self.admissions.key(k)),
            decreases self.admissions.count() - i,
        {
            let (read, admission) = self.admissions.row(i);
            let ghost before = reads@;
            proof {
                self.admissions.lemma_rows();
            }
            if admission.group_id == group_id {
                reads.push(read);
                assert(reads@[before.len() as int] == read);
            }
            proof {
                assert forall|k: int|
                    0 <= k < i + 1 && state.admissions[#[trigger] self.admissions.key(k)].group_id
                        == group_id implies reads@.contains(self.admissions.key(k)) by {
                    if k < i {
                        let m = choose|m: int|
                            0 <= m < before.len() && before[m] == self.admissions.key(k);
                        assert(reads@[m] == self.admissions.key(k));
                    }
                }
            }
            i = i + 1;
        }
        proof {
            self.admissions.lemma_rows();
            assert forall|read: u64| #[trigger] reads@.contains(read)
                <==> state.admissions.contains_key(read) && state.admissions[read].group_id
                == group_id by {
                if state.admissions.contains_key(read) && state.admissions[read].group_id
                    == group_id {
                    let k = choose|k: int|
                        0 <= k < self.admissions.count() && self.admissions.key(k) == read;
                    assert(state.admissions[self.admissions.key(k)].group_id == group_id);
                }
            }
        }
        self.close_reads(&reads)
    }
}

/// An operation whose barrier was granted, with what becomes of it.
#[derive(Debug)]
pub struct GrantedCandidate {
    /// The operation and its clients.
    pub candidate: TakenCandidate,
    /// What becomes of it.
    pub action: CandidateAction,
}

/// Decides what becomes of an operation once its barrier is granted. The group's gate is asked
/// again, and the state machine decided from the confirmed view.
pub fn settle_candidate(
    refusal: Option<Refusal>,
    decision: CounterAdmissionDecision,
    durable: bool,
) -> (r: CandidateAction)
    ensures
        r == granted_action(refusal, decision, durable),
{
    if let Some(refusal) = refusal {
        let answer = if durable {
            AdmissionAnswer::RemainsDurable
        } else {
            AdmissionAnswer::Refused { refusal }
        };
        return CandidateAction::Answer { reconcile: false, answer };
    }
    match decision {
        CounterAdmissionDecision::SessionAlreadyOpen => CandidateAction::Answer {
            reconcile: durable,
            answer: AdmissionAnswer::SessionAlreadyOpen,
        },
        CounterAdmissionDecision::CounterReplay(result) => CandidateAction::Answer {
            reconcile: durable,
            answer: AdmissionAnswer::Replay { result },
        },
        CounterAdmissionDecision::Rejected(rejection) => CandidateAction::Answer {
            reconcile: false,
            answer: AdmissionAnswer::Rejected { rejection },
        },
        CounterAdmissionDecision::Proceed => CandidateAction::Proceed,
    }
}

impl Desk {
    /// Returns the operations that wait for a barrier, so that the state machine can decide each of
    /// them from the confirmed view.
    pub fn waiting_operations(&self, read_id: u64) -> (r: Vec<AcceptedOperation>)
        ensures
            r@.len() == self.state().waiting(read_id).len(),
            forall|i: int|
                0 <= i < r@.len() ==> #[trigger] r@[i] == self.state().waiting(read_id)[i].operation,
    {
        let taken = self.candidates_waiting(read_id);
        let ghost views = self.state().waiting(read_id);
        let mut operations: Vec<AcceptedOperation> = Vec::new();
        let mut i: usize = 0;
        while i < taken.len()
            invariant
                i <= taken@.len(),
                operations@.len() == i,
                taken_views(taken@) == views,
                forall|k: int| 0 <= k < i ==> #[trigger] operations@[k] == views[k].operation,
            decreases taken@.len() - i,
        {
            assert(taken_views(taken@)[i as int] == taken@[i as int]@);
            operations.push(taken[i].operation);
            i = i + 1;
        }
        operations
    }

    /// Returns what a barrier waits for.
    pub fn admission(&self, read_id: u64) -> (r: Option<Admission>)
        requires
            self.wf(),
        ensures
            r == if self.state().admissions.contains_key(read_id) {
                Some(self.state().admissions[read_id])
            } else {
                None
            },
    {
        self.admissions.get(read_id)
    }

    /// Ends a granted barrier. `refusal` is what the group's gate says now, and `decisions` what the
    /// state machine decided of each waiting operation.
    pub fn finish_granted_admission(
        &mut self,
        read_id: u64,
        refusal: Option<Refusal>,
        decisions: &Vec<CounterAdmissionDecision>,
    ) -> (r: Vec<GrantedCandidate>)
        requires
            old(self).wf(),
            decisions@.len() == old(self).state().waiting(read_id).len(),
        ensures
            final(self).wf(),
            final(self).state() == old(self).state().close(read_id),
            old(self).state().admissions.contains_key(read_id) ==> {
                let waiting = old(self).state().waiting(read_id);
                &&& r@.len() == waiting.len()
                &&& forall|i: int|
                    0 <= i < r@.len() ==> {
                        &&& (#[trigger] r@[i]).candidate@ == waiting[i]
                        &&& r@[i].action == granted_action(
                            refusal,
                            decisions@[i],
                            waiting[i].durable,
                        )
                    }
            },
            !old(self).state().admissions.contains_key(read_id) ==> r@.len() == 0,
    {
        let ghost waiting = self.state().waiting(read_id);
        let mut granted: Vec<GrantedCandidate> = Vec::new();
        let Some(closed) = self.take_pending_admission(read_id) else {
            return granted;
        };
        let mut candidates = closed.candidates;
        let n: usize = candidates.len();
        let mut reversed: Vec<GrantedCandidate> = Vec::new();
        assert(taken_views(candidates@) =~= waiting);
        while candidates.len() > 0
            invariant
                n == waiting.len(),
                decisions@.len() == n,
                candidates@.len() + reversed@.len() == n,
                taken_views(candidates@) == waiting.take(candidates@.len() as int),
                forall|k: int|
                    0 <= k < reversed@.len() ==> {
                        &&& (#[trigger] reversed@[k]).candidate@ == waiting[n - 1 - k]
                        &&& reversed@[k].action == granted_action(
                            refusal,
                            decisions@[n - 1 - k],
                            waiting[n - 1 - k].durable,
                        )
                    },
            decreases candidates@.len(),
        {
            let i: usize = candidates.len() - 1;
            let ghost views = taken_views(candidates@);
            assert(views[i as int] == candidates@[i as int]@);
            match candidates.pop() {
                Some(candidate) => {
                    let action = settle_candidate(refusal, decisions[i], candidate.durable);
                    reversed.push(GrantedCandidate { candidate, action });
                },
                None => {},
            }
            assert(taken_views(candidates@) =~= waiting.take(candidates@.len() as int));
        }
        while reversed.len() > 0
            invariant
                n == waiting.len(),
                reversed@.len() + granted@.len() == n,
                forall|k: int|
                    0 <= k < reversed@.len() ==> {
                        &&& (#[trigger] reversed@[k]).candidate@ == waiting[n - 1 - k]
                        &&& reversed@[k].action == granted_action(
                            refusal,
                            decisions@[n - 1 - k],
                            waiting[n - 1 - k].durable,
                        )
                    },
                forall|k: int|
                    0 <= k < granted@.len() ==> {
                        &&& (#[trigger] granted@[k]).candidate@ == waiting[k]
                        &&& granted@[k].action == granted_action(
                            refusal,
                            decisions@[k],
                            waiting[k].durable,
                        )
                    },
            decreases reversed@.len(),
        {
            match reversed.pop() {
                Some(candidate) => {
                    granted.push(candidate);
                },
                None => {},
            }
        }
        granted
    }

    /// Decides what becomes of a new operation.
    pub fn proceed_admission(
        &mut self,
        now: u64,
        group_id: GroupId,
        operation: AcceptedOperation,
        replies: &Vec<u64>,
        recorded: DurableOperationState,
    ) -> (r: ProceedStep)
        requires
            old(self).wf(),
            old(self).state().takes(now),
        ensures
            final(self).wf(),
            (final(self).state(), r) == old(self).state().proceed(
                now,
                group_id,
                operation,
                replies@,
                recorded,
            ),
    {
        if let Some(id) = self.find_same_operation(group_id, operation) {
            self.join_operation(now, id, replies);
            return ProceedStep::Attached;
        }
        let key: u64 = client_key(group_id, operation.client_id());
        let conflicting = matches!(
            recorded,
            DurableOperationState::ConflictingOutstanding | DurableOperationState::ConflictingTerminal
        );
        if self.operations.get(key).is_some() || conflicting {
            return ProceedStep::Conflict;
        }
        ProceedStep::Reserve
    }

    /// Returns the identity of the next proposal, if one is left.
    pub fn next_proposal_id(&self) -> (r: Option<u64>)
        ensures
            r == if self.state().next_proposal == u64::MAX {
                None
            } else {
                Some(self.state().next_proposal)
            },
    {
        if self.next_proposal == u64::MAX {
            None
        } else {
            Some(self.next_proposal)
        }
    }

    /// Settles the proposal of an operation, or of an injected fault: `accepted` is what the managed
    /// host said to it. Returns its identity. Nothing changes where no identity is left or the host
    /// refused.
    pub fn admit_client_proposal(
        &mut self,
        now: u64,
        group_id: GroupId,
        operation: Option<AcceptedOperation>,
        replies: &Vec<u64>,
        accepted: bool,
    ) -> (r: Result<u64, ProposalRefusal>)
        requires
            old(self).wf(),
            old(self).state().takes(now),
            operation is Some ==> !old(self).state().operations.contains_key(
                pair_key(group_id, operation->0.client_id()),
            ),
        ensures
            final(self).wf(),
            if old(self).state().next_proposal == u64::MAX {
                &&& r == Err::<u64, ProposalRefusal>(ProposalRefusal::Exhausted)
                &&& final(self).state() == old(self).state()
            } else if !accepted {
                &&& r == Err::<u64, ProposalRefusal>(ProposalRefusal::Backpressure)
                &&& final(self).state() == old(self).state()
            } else {
                &&& r == Ok::<u64, ProposalRefusal>(old(self).state().next_proposal)
                &&& final(self).state() == old(self).state().accept(
                    now,
                    group_id,
                    operation,
                    replies@,
                )
            },
    {
        let Some(id) = self.next_proposal_id() else {
            return Err(ProposalRefusal::Exhausted);
        };
        if !accepted {
            return Err(ProposalRefusal::Backpressure);
        }
        self.proposal_admitted(now, group_id, operation, replies);
        Ok(id)
    }

    fn proposal_admitted(
        &mut self,
        now: u64,
        group_id: GroupId,
        operation: Option<AcceptedOperation>,
        replies: &Vec<u64>,
    )
        requires
            old(self).wf(),
            old(self).state().takes(now),
            old(self).state().next_proposal < u64::MAX,
            operation is Some ==> !old(self).state().operations.contains_key(
                pair_key(group_id, operation->0.client_id()),
            ),
        ensures
            final(self).wf(),
            final(self).state() == old(self).state().accept(now, group_id, operation, replies@),
    {
        let ghost before = self.state();
        let id: u64 = self.next_proposal;
        self.next_proposal = id + 1;
        self.pending.insert(
            id,
            Pending { group_id, operation, deadline: Some(now + self.timeout), recovered: false },
        );
        if let Some(operation) = operation {
            let key: u64 = client_key(group_id, operation.client_id());
            self.client_admitted = count_one(self.client_admitted);
            self.operations.insert(key, id);
            self.deferred.remove(key);
        }
        self.wait(replies, Place::Proposal { id });
        proof {
            assert(self.state() =~= before.accept(now, group_id, operation, replies@));
            lemma_accept(before, now, group_id, operation, replies@);
        }
    }

    fn take_pending(&mut self, id: u64) -> (r: Option<(Pending, Vec<u64>)>)
        requires
            old(self).wf(),
        ensures
            final(self).wf(),
            final(self).state() == old(self).state().take(id),
            match r {
                Some((pending, replies)) => {
                    &&& old(self).state().pending.contains_key(id)
                    &&& pending == old(self).state().pending[id]
                    &&& replies@ == replies_at(old(self).state().waiters, Place::Proposal { id })
                },
                None => !old(self).state().pending.contains_key(id),
            },
    {
        let ghost before = self.state();
        let Some(pending) = self.pending.get(id) else {
            return None;
        };
        let replies = self.replies_to(Place::Proposal { id });
        let waiters = self.other_waiters(Place::Proposal { id });
        self.pending.remove(id);
        self.waiters = waiters;
        if let Some(operation) = pending.operation {
            let key: u64 = client_key(pending.group_id, operation.client_id());
            self.operations.remove(key);
            self.deferred.remove(key);
        }
        proof {
            assert(self.state() =~= before.take(id));
            lemma_take(before, id);
        }
        Some((pending, replies))
    }
}

/// What happens to the record when an operation fails for good.
pub open spec fn failed_record(pending: Pending, failure: TerminalFailure) -> RecordAction {
    match pending.operation {
        Some(operation) => RecordAction::Fail { operation, failure },
        None => RecordAction::Nothing,
    }
}

/// What happens to the record when the leader rejected an operation: a recovered one stays, for it
/// is proposed again.
pub open spec fn rejected_record(pending: Pending) -> RecordAction {
    match pending.operation {
        Some(operation) => if pending.recovered {
            RecordAction::Nothing
        } else {
            RecordAction::Cancel { operation }
        },
        None => RecordAction::Nothing,
    }
}

/// The taken operation is the one that stood there, with its clients.
pub open spec fn takes_client(
    r: Option<TakenClient>,
    before: DeskState,
    id: u64,
    action: RecordAction,
) -> bool {
    match r {
        Some(taken) => {
            &&& before.pending.contains_key(id)
            &&& taken.pending == before.pending[id]
            &&& taken.replies@ == replies_at(before.waiters, Place::Proposal { id })
            &&& taken.action == action
        },
        None => !before.pending.contains_key(id),
    }
}

/// Answer to a rejected operation.
pub open spec fn rejected_text(recovered: bool, detail: Seq<char>) -> Seq<char> {
    if recovered {
        "ERR UNKNOWN recovered request remains pending: "@ + detail
    } else {
        "ERR NOT_COMMITTED "@ + detail
    }
}

/// What the record said to a reservation.
#[derive(Clone, Copy, Debug, Eq, PartialEq, Structural)]
pub enum Reservation {
    /// The operation is recorded now.
    Reserved,
    /// The operation was recorded before.
    ExactRetry,
    /// The record refused it.
    Rejected,
    /// The record may or may not be on disk.
    Uncertain,
}

/// What follows a reservation.
#[derive(Clone, Copy, Debug, Eq, PartialEq, Structural)]
pub enum ReservationStep {
    /// The operation is proposed with this class.
    Propose {
        /// Class of the work.
        class: WorkClass,
    },
    /// The clients are told why the record refused.
    Answer,
    /// The process stops: nobody knows what the record holds.
    Stop,
}

/// Decides what follows a reservation.
pub fn finish_proceeding_admission(operation: AcceptedOperation, reservation: Reservation) -> (r:
    ReservationStep)
    ensures
        r == match reservation {
            Reservation::Reserved | Reservation::ExactRetry => ReservationStep::Propose {
                class: operation.class(),
            },
            Reservation::Rejected => ReservationStep::Answer,
            Reservation::Uncertain => ReservationStep::Stop,
        },
{
    match reservation {
        Reservation::Reserved | Reservation::ExactRetry => ReservationStep::Propose {
            class: operation.class(),
        },
        Reservation::Rejected => ReservationStep::Answer,
        Reservation::Uncertain => ReservationStep::Stop,
    }
}

/// Why a proposal was not made.
#[derive(Clone, Copy, Debug, Eq, PartialEq, Structural)]
pub enum ProposalRefusal {
    /// No proposal identity is left.
    Exhausted,
    /// The managed host has no room.
    Backpressure,
}

impl ProposalRefusal {
    /// Renders the refusal, with the managed host's reason.
    pub fn render(self, detail: &str) -> (r: String)
        ensures
            r@ == match self {
                ProposalRefusal::Exhausted => "ERR PROPOSAL_ID_EXHAUSTED"@,
                ProposalRefusal::Backpressure => "ERR BACKPRESSURE "@ + detail@,
            },
    {
        match self {
            ProposalRefusal::Exhausted => "ERR PROPOSAL_ID_EXHAUSTED".to_owned(),
            ProposalRefusal::Backpressure => joined("ERR BACKPRESSURE ", detail),
        }
    }
}

/// What a refused proposal leaves to its reservation.
#[derive(Clone, Copy, Debug, Eq, PartialEq, Structural)]
pub enum ReservedStep {
    /// The operation was recorded before, so it stays: the clients are told that it remains.
    Remains,
    /// The reservation is cancelled before the clients are told of the refusal.
    Cancel {
        /// The managed host refused the proposal.
        managed: bool,
    },
}

/// Decides what a refused proposal leaves to its reservation.
pub fn finish_reserved_admission(reservation: ReserveOutcome, refusal: ProposalRefusal) -> (r:
    ReservedStep)
    ensures
        r == match reservation {
            ReserveOutcome::ExactRetry => ReservedStep::Remains,
            ReserveOutcome::Reserved => ReservedStep::Cancel { managed: refusal is Backpressure },
        },
{
    match reservation {
        ReserveOutcome::ExactRetry => ReservedStep::Remains,
        ReserveOutcome::Reserved => ReservedStep::Cancel {
            managed: match refusal {
                ProposalRefusal::Backpressure => true,
                ProposalRefusal::Exhausted => false,
            },
        },
    }
}

/// Renders the answer to a rejected operation.
pub fn render_rejected(recovered: bool, detail: &str) -> (r: String)
    ensures
        r@ == rejected_text(recovered, detail@),
{
    if recovered {
        joined("ERR UNKNOWN recovered request remains pending: ", detail)
    } else {
        joined("ERR NOT_COMMITTED ", detail)
    }
}

/// Renders the answer to an operation whose outcome is unknown.
pub fn render_unknown(detail: &str) -> (r: String)
    ensures
        r@ == "ERR UNKNOWN "@ + detail@,
{
    joined("ERR UNKNOWN ", detail)
}

/// Renders the answer to an operation that was not committed.
pub fn render_not_committed(detail: &str) -> (r: String)
    ensures
        r@ == "ERR NOT_COMMITTED "@ + detail@,
{
    joined("ERR NOT_COMMITTED ", detail)
}

/// Renders the answer to work that poisoned its group: an operation may have been committed, an
/// injected fault was not.
pub fn render_poisoned(pending: Pending) -> (r: &'static str)
    ensures
        r@ == if pending.operation is Some {
            "ERR UNKNOWN GROUP_POISONED"@
        } else {
            "ERR NOT_COMMITTED GROUP_POISONED"@
        },
{
    if pending.operation.is_some() {
        "ERR UNKNOWN GROUP_POISONED"
    } else {
        "ERR NOT_COMMITTED GROUP_POISONED"
    }
}

impl Desk {
    /// An operation was applied.
    pub fn complete_applied(&mut self, id: u64) -> (r: Option<TakenClient>)
        requires
            old(self).wf(),
        ensures
            final(self).wf(),
            final(self).state() == old(self).state().take(id),
            takes_client(r, old(self).state(), id, RecordAction::Nothing),
    {
        match self.take_pending(id) {
            None => None,
            Some((pending, replies)) => Some(
                TakenClient { pending, replies, action: RecordAction::Nothing },
            ),
        }
    }

    fn defer_recovered(&mut self, now: u64, pending: Pending)
        requires
            old(self).wf(),
            old(self).state().takes(now),
        ensures
            final(self).wf(),
            final(self).state() == if pending.recovered && pending.operation is Some {
                DeskState {
                    deferred: old(self).state().deferred.insert(
                        pair_key(pending.group_id, pending.operation->0.client_id()),
                        (now + RECOVERY_RETRY_DELAY_MS) as u64,
                    ),
                    ..old(self).state()
                }
            } else {
                old(self).state()
            },
    {
        if pending.recovered {
            if let Some(operation) = pending.operation {
                let key: u64 = client_key(pending.group_id, operation.client_id());
                self.deferred.insert(key, now + RECOVERY_RETRY_DELAY_MS);
            }
        }
    }

    /// The leader rejected an operation.
    pub fn complete_rejected(&mut self, now: u64, id: u64) -> (r: Option<TakenClient>)
        requires
            old(self).wf(),
            old(self).state().takes(now),
        ensures
            final(self).wf(),
            final(self).state() == old(self).state().take_open(now, id),
            takes_client(
                r,
                old(self).state(),
                id,
                rejected_record(old(self).state().pending[id]),
            ),
    {
        match self.take_pending(id) {
            None => None,
            Some((pending, replies)) => {
                self.defer_recovered(now, pending);
                let action = match pending.operation {
                    Some(operation) => if pending.recovered {
                        RecordAction::Nothing
                    } else {
                        RecordAction::Cancel { operation }
                    },
                    None => RecordAction::Nothing,
                };
                Some(TakenClient { pending, replies, action })
            },
        }
    }

    /// The outcome of an operation is unknown.
    pub fn complete_unknown(&mut self, now: u64, id: u64) -> (r: Option<TakenClient>)
        requires
            old(self).wf(),
            old(self).state().takes(now),
        ensures
            final(self).wf(),
            final(self).state() == old(self).state().take_open(now, id),
            takes_client(r, old(self).state(), id, RecordAction::Nothing),
    {
        match self.take_pending(id) {
            None => None,
            Some((pending, replies)) => {
                self.defer_recovered(now, pending);
                Some(TakenClient { pending, replies, action: RecordAction::Nothing })
            },
        }
    }

    /// The dispatch of an operation poisoned its group: the operation may have been committed.
    pub fn complete_poisoned_dispatch(&mut self, id: u64) -> (r: Option<TakenClient>)
        requires
            old(self).wf(),
        ensures
            final(self).wf(),
            final(self).state() == old(self).state().take(id),
            takes_client(
                r,
                old(self).state(),
                id,
                failed_record(
                    old(self).state().pending[id],
                    TerminalFailure::GroupPoisonedUnknown,
                ),
            ),
    {
        self.complete_not_committed(id, TerminalFailure::GroupPoisonedUnknown)
    }

    /// An operation failed for good.
    pub fn complete_not_committed(&mut self, id: u64, failure: TerminalFailure) -> (r: Option<
        TakenClient,
    >)
        requires
            old(self).wf(),
        ensures
            final(self).wf(),
            final(self).state() == old(self).state().take(id),
            takes_client(
                r,
                old(self).state(),
                id,
                failed_record(old(self).state().pending[id], failure),
            ),
    {
        match self.take_pending(id) {
            None => None,
            Some((pending, replies)) => {
                let action = match pending.operation {
                    Some(operation) => RecordAction::Fail { operation, failure },
                    None => RecordAction::Nothing,
                };
                Some(TakenClient { pending, replies, action })
            },
        }
    }

    /// Returns the operation of a proposal that is in progress.
    pub fn operation_of(&self, id: u64) -> (r: Option<(GroupId, AcceptedOperation)>)
        requires
            self.wf(),
        ensures
            r == if self.state().pending.contains_key(id) {
                match self.state().pending[id].operation {
                    Some(operation) => Some((self.state().pending[id].group_id, operation)),
                    None => None,
                }
            } else {
                None
            },
    {
        match self.pending.get(id) {
            None => None,
            Some(pending) => match pending.operation {
                Some(operation) => Some((pending.group_id, operation)),
                None => None,
            },
        }
    }
}

/// Proposals whose clients were told.
pub open spec fn expired_ids(expired: Seq<ExpiredClient>) -> Seq<u64> {
    Seq::new(expired.len(), |i: int| expired[i].id)
}

/// The clients are those that waited when they were told, one proposal after the other.
pub open spec fn expires(start: DeskState, expired: Seq<ExpiredClient>) -> bool {
    forall|i: int|
        0 <= i < expired.len() ==> {
            let before = start.expire_all(expired_ids(expired).take(i));
            (#[trigger] expired[i]).replies@ == replies_at(
                before.waiters,
                Place::Proposal { id: expired[i].id },
            )
        }
}

impl Desk {
    fn overdue_ids(&self, now: u64) -> (r: Vec<u64>)
        requires
            self.wf(),
        ensures
            ids_ascend(r@),
            forall|id: u64| #[trigger] r@.contains(id) <==> self.state().overdue(now, id),
    {
        let mut ids: Vec<u64> = Vec::new();
        let mut i: usize = 0;
        let ghost state = self.state();
        while i < self.pending.len()
            invariant
                self.wf(),
                state == self.state(),
                i <= self.pending.count(),
                ids_ascend(ids@),
                forall|k: int| 0 <= k < ids@.len() ==> state.overdue(now, #[trigger] ids@[k]),
                forall|k: int, m: int|
                    0 <= k < ids@.len() && i <= m < self.pending.count() ==> #[trigger] ids@[k]
                        < #[trigger] self.pending.key(m),
                forall|k: int|
                    0 <= k < i && state.overdue(now, #[trigger] self.pending.key(k))
                        ==> ids@.contains(self.pending.key(k)),
            decreases self.pending.count() - i,
        {
            let (id, pending) = self.pending.row(i);
            let ghost before = ids@;
            proof {
                self.pending.lemma_rows();
            }
            let overdue = match pending.deadline {
                Some(deadline) => now >= deadline,
                None => false,
            };
            if overdue {
                ids.push(id);
                assert(ids@[before.len() as int] == id);
            }
            proof {
                assert forall|k: int|
                    0 <= k < i + 1 && state.overdue(
                        now,
                        #[trigger] self.pending.key(k),
                    ) implies ids@.contains(self.pending.key(k)) by {
                    if k < i {
                        let m = choose|m: int|
                            0 <= m < before.len() && before[m] == self.pending.key(k);
                        assert(ids@[m] == self.pending.key(k));
                    }
                }
            }
            i = i + 1;
        }
        proof {
            self.pending.lemma_rows();
            assert forall|id: u64| #[trigger] ids@.contains(id) <==> state.overdue(now, id) by {
                if state.overdue(now, id) {
                    let k = choose|k: int|
                        0 <= k < self.pending.count() && self.pending.key(k) == id;
                    assert(state.overdue(now, self.pending.key(k)));
                }
            }
        }
        ids
    }

    /// Tells the clients of every operation whose time is over that its outcome is unknown. The
    /// operations stay in progress.
    pub fn expire_clients(&mut self, now: u64) -> (r: Vec<ExpiredClient>)
        requires
            old(self).wf(),
        ensures
            final(self).wf(),
            ids_ascend(expired_ids(r@)),
            forall|id: u64| #[trigger]
                expired_ids(r@).contains(id) <==> old(self).state().overdue(now, id),
            expires(old(self).state(), r@),
            final(self).state() == old(self).state().expire_all(expired_ids(r@)),
    {
        let ids = self.overdue_ids(now);
        let ghost start = self.state();
        proof {
            assert forall|k: int| 0 <= k < ids@.len() implies start.pending.contains_key(
                #[trigger] ids@[k],
            ) by {
                assert(ids@.contains(ids@[k]));
            }
        }
        let mut expired: Vec<ExpiredClient> = Vec::new();
        let mut i: usize = 0;
        assert(ids@.take(0) =~= Seq::empty());
        while i < ids.len()
            invariant
                i <= ids@.len(),
                self.wf(),
                start == old(self).state(),
                self.state() == start.expire_all(ids@.take(i as int)),
                expired_ids(expired@) == ids@.take(i as int),
                expires(start, expired@),
                forall|k: int|
                    0 <= k < ids@.len() ==> self.state().pending.contains_key(#[trigger] ids@[k]),
                forall|k: int| 0 <= k < ids@.len() ==> ids@.contains(#[trigger] ids@[k]),
            decreases ids@.len() - i,
        {
            let id: u64 = ids[i];
            let ghost before = self.state();
            let ghost done = expired@;
            let ghost more = ids@.take(i + 1);
            assert(more.drop_last() =~= ids@.take(i as int));
            assert(before.pending.contains_key(ids@[i as int]));
            match self.pending.get(id) {
                None => {},
                Some(pending) => {
                    let replies = self.replies_to(Place::Proposal { id });
                    let waiters = self.other_waiters(Place::Proposal { id });
                    self.pending.insert(id, Pending { deadline: None, ..pending });
                    self.waiters = waiters;
                    expired.push(ExpiredClient { id, replies });
                },
            }
            proof {
                assert(self.state() =~= before.expire(id));
                lemma_expire(before, id);
                assert(expired_ids(expired@) =~= more);
                assert forall|k: int| 0 <= k < expired@.len() implies ({
                    let at = start.expire_all(expired_ids(expired@).take(k));
                    (#[trigger] expired@[k]).replies@ == replies_at(
                        at.waiters,
                        Place::Proposal { id: expired@[k].id },
                    )
                }) by {
                    assert(expired_ids(expired@).take(k) =~= ids@.take(k));
                    if k < i {
                        assert(expired@[k] == done[k]);
                        assert(expired_ids(done).take(k) =~= ids@.take(k));
                    }
                }
            }
            i = i + 1;
        }
        assert(ids@.take(i as int) =~= ids@);
        expired
    }

    fn interrupted_failure(&self, work: OutstandingWork) -> (r: Option<TerminalFailure>)
        requires
            self.wf(),
        ensures
            r == self.state().interrupted(work),
    {
        let key: u64 = client_key(work.group_id, work.operation.client_id());
        if self.operations.get(key).is_some() {
            return None;
        }
        if work.poisoned {
            return Some(
                match work.phase {
                    OutstandingPhase::Queued => TerminalFailure::GroupPoisoned,
                    OutstandingPhase::EnteredDriver => TerminalFailure::GroupPoisonedUnknown,
                },
            );
        }
        if work.lifecycle == GroupLifecycle::Draining && work.phase == OutstandingPhase::Queued {
            return Some(TerminalFailure::ProcessRestarted);
        }
        None
    }

    fn still_recorded(&self, work: &Vec<OutstandingWork>, key: u64) -> (r: bool)
        requires
            self.wf(),
        ensures
            r == self.state().remains_recorded(work@, key),
    {
        let mut i: usize = 0;
        while i < work.len()
            invariant
                self.wf(),
                i <= work@.len(),
                forall|k: int| 0 <= k < i ==> !#[trigger] self.state().records(work@, key, k),
            decreases work@.len() - i,
        {
            let item = work[i];
            if client_key(item.group_id, item.operation.client_id()) == key
                && self.interrupted_failure(item).is_none() {
                assert(self.state().records(work@, key, i as int));
                return true;
            }
            assert(!self.state().records(work@, key, i as int));
            i = i + 1;
        }
        false
    }

    /// Decides what is owed to every operation that the records hold. A retry is forgotten once the
    /// record no longer holds its operation.
    pub fn recover_outstanding(&mut self, now: u64, work: &Vec<OutstandingWork>) -> (r: Vec<
        RecoveryStep,
    >)
        requires
            old(self).wf(),
        ensures
            final(self).wf(),
            final(self).state() == old(self).state().retain_deferred(work@),
            r@.len() == work@.len(),
            forall|i: int|
                0 <= i < r@.len() ==> #[trigger] r@[i] == old(self).state().recovery(now, work@[i]),
    {
        let ghost state = self.state();
        let mut steps: Vec<RecoveryStep> = Vec::new();
        let mut i: usize = 0;
        while i < work.len()
            invariant
                self.wf(),
                *self == *old(self),
                state == self.state(),
                i <= work@.len(),
                steps@.len() == i,
                forall|k: int| 0 <= k < i ==> #[trigger] steps@[k] == state.recovery(now, work@[k]),
            decreases work@.len() - i,
        {
            let item = work[i];
            let key: u64 = client_key(item.group_id, item.operation.client_id());
            let step = match self.interrupted_failure(item) {
                Some(failure) => RecoveryStep::Fail { failure },
                None => {
                    let due = match self.deferred.get(key) {
                        Some(retry_at) => now >= retry_at,
                        None => true,
                    };
                    if item.driver && self.operations.get(key).is_none() && due {
                        RecoveryStep::Propose
                    } else {
                        RecoveryStep::Leave
                    }
                },
            };
            steps.push(step);
            i = i + 1;
        }
        let mut kept: Table<u64> = Table::new();
        let mut k: usize = 0;
        while k < self.deferred.len()
            invariant
                self.wf(),
                *self == *old(self),
                state == self.state(),
                k <= self.deferred.count(),
                kept.wf(),
                forall|key: u64| #[trigger]
                    kept@.contains_key(key) ==> state.deferred.contains_key(key)
                        && state.remains_recorded(work@, key) && kept@[key] == state.deferred[key],
                forall|m: int|
                    0 <= m < k && state.remains_recorded(work@, #[trigger] self.deferred.key(m))
                        ==> kept@.contains_key(self.deferred.key(m)),
            decreases self.deferred.count() - k,
        {
            let (key, retry_at) = self.deferred.row(k);
            if self.still_recorded(work, key) {
                kept.insert(key, retry_at);
            }
            k = k + 1;
        }
        proof {
            self.deferred.lemma_rows();
            let wanted = state.retain_deferred(work@);
            assert forall|key: u64| #[trigger] wanted.deferred.contains_key(key) implies
                kept@.contains_key(key) by {
                let m = choose|m: int|
                    0 <= m < self.deferred.count() && self.deferred.key(m) == key;
                assert(state.remains_recorded(work@, self.deferred.key(m)));
            }
            assert(kept@ =~= wanted.deferred);
        }
        self.deferred = kept;
        assert(self.state() =~= state.retain_deferred(work@));
        steps
    }

    /// Returns whether an operation of the client is in progress.
    pub fn is_in_progress(&self, group_id: GroupId, client_id: ClientId) -> (r: bool)
        requires
            self.wf(),
        ensures
            r == self.state().operations.contains_key(pair_key(group_id, client_id)),
    {
        self.operations.get(client_key(group_id, client_id)).is_some()
    }

    /// Records whether the managed host accepted a recorded operation again.
    pub fn admit_recovered_outstanding(
        &mut self,
        now: u64,
        group_id: GroupId,
        operation: AcceptedOperation,
        accepted: bool,
    )
        requires
            old(self).wf(),
            old(self).state().takes(now),
            old(self).state().next_proposal < u64::MAX,
            !old(self).state().operations.contains_key(pair_key(group_id, operation.client_id())),
        ensures
            final(self).wf(),
            final(self).state() == if accepted {
                old(self).state().accept_recovered(group_id, operation)
            } else {
                old(self).state().refuse_recovered(now, group_id, operation)
            },
    {
        let ghost before = self.state();
        let key: u64 = client_key(group_id, operation.client_id());
        if accepted {
            let id: u64 = self.next_proposal;
            self.deferred.remove(key);
            self.next_proposal = id + 1;
            self.operations.insert(key, id);
            self.pending.insert(
                id,
                Pending { group_id, operation: Some(operation), deadline: None, recovered: true },
            );
            proof {
                assert(self.state() =~= before.accept_recovered(group_id, operation));
                lemma_accept_recovered(before, group_id, operation);
            }
        } else {
            self.recovery_refused = count_one(self.recovery_refused);
            self.deferred.insert(key, now + RECOVERY_RETRY_DELAY_MS);
            assert(self.state() =~= before.refuse_recovered(now, group_id, operation));
        }
    }

    /// Makes every retry due.
    pub fn resume_recovery(&mut self, now: u64)
        requires
            old(self).wf(),
        ensures
            final(self).wf(),
            final(self).state() == old(self).state().resume(now),
    {
        let ghost state = self.state();
        let mut due: Table<u64> = Table::new();
        let mut k: usize = 0;
        while k < self.deferred.len()
            invariant
                self.wf(),
                *self == *old(self),
                state == self.state(),
                k <= self.deferred.count(),
                due.wf(),
                forall|key: u64| #[trigger]
                    due@.contains_key(key) ==> state.deferred.contains_key(key) && due@[key] == now,
                forall|m: int| 0 <= m < k ==> due@.contains_key(#[trigger] self.deferred.key(m)),
            decreases self.deferred.count() - k,
        {
            let (key, _) = self.deferred.row(k);
            due.insert(key, now);
            k = k + 1;
        }
        proof {
            self.deferred.lemma_rows();
            assert forall|key: u64| #[trigger] state.deferred.contains_key(key) implies
                due@.contains_key(key) by {
                let m = choose|m: int|
                    0 <= m < self.deferred.count() && self.deferred.key(m) == key;
                assert(due@.contains_key(self.deferred.key(m)));
            }
            assert(due@ =~= state.resume(now).deferred);
        }
        self.deferred = due;
        assert(self.state() =~= state.resume(now));
    }
}

/// Numbers that the status line reports of the desk.
#[derive(Clone, Copy, Debug, Eq, PartialEq, Structural)]
pub struct DeskCounts {
    /// Client operations in progress.
    pub operations: usize,
    /// Barriers in progress.
    pub admissions: usize,
    /// Operations that wait for barriers.
    pub candidates: usize,
    /// Operations that joined a barrier which was already in progress.
    pub successors: usize,
    /// Recorded operations that wait for a retry.
    pub deferred: usize,
    /// Barriers started.
    pub barriers_started: u64,
    /// Client operations accepted.
    pub client_admitted: u64,
    /// Recoveries refused.
    pub recovery_refused: u64,
}

impl Desk {
    /// Counts what the status line reports of the desk.
    pub fn counts(&self) -> (r: DeskCounts)
        requires
            self.wf(),
        ensures
            r.operations == self.state().operations.dom().len(),
            r.admissions == self.state().admissions.dom().len(),
            r.candidates == self.state().candidates.len(),
            r.successors == if r.candidates >= r.admissions {
                r.candidates - r.admissions
            } else {
                0
            },
            r.deferred == self.state().deferred.dom().len(),
            r.barriers_started == self.state().barriers_started,
            r.client_admitted == self.state().client_admitted,
            r.recovery_refused == self.state().recovery_refused,
    {
        proof {
            lemma_key_count(self.operations);
            lemma_key_count(self.admissions);
            lemma_key_count(self.deferred);
        }
        let candidates: usize = self.candidates.len();
        let admissions: usize = self.admissions.len();
        DeskCounts {
            operations: self.operations.len(),
            admissions,
            candidates,
            successors: if candidates >= admissions {
                candidates - admissions
            } else {
                0
            },
            deferred: self.deferred.len(),
            barriers_started: self.barriers_started,
            client_admitted: self.client_admitted,
            recovery_refused: self.recovery_refused,
        }
    }
}

/// The clients are those that waited when their operation ended, one after the other.
pub open(crate) spec fn ends(start: DeskState, ended: Seq<ExpiredClient>) -> bool {
    forall|i: int|
        0 <= i < ended.len() ==> {
            let before = start.take_all(expired_ids(ended).take(i));
            (#[trigger] ended[i]).replies@ == replies_at(
                before.waiters,
                Place::Proposal { id: ended[i].id },
            )
        }
}

impl Desk {
    /// Ends every barrier. Nothing waits for one afterwards.
    pub fn close_admissions(&mut self) -> (r: Vec<ClosedRead>)
        requires
            old(self).wf(),
        ensures
            final(self).wf(),
            ids_ascend(closed_ids(r@)),
            forall|read: u64| #[trigger]
                closed_ids(r@).contains(read) <==> old(self).state().admissions.contains_key(read),
            closes(old(self).state(), r@),
            final(self).state() == old(self).state().close_all(closed_ids(r@)),
    {
        let mut reads: Vec<u64> = Vec::new();
        let mut i: usize = 0;
        proof {
            self.admissions.lemma_rows();
        }
        while i < self.admissions.len()
            invariant
                self.wf(),
                *self == *old(self),
                i <= self.admissions.count(),
                reads@.len() == i,
                forall|k: int| 0 <= k < i ==> #[trigger] reads@[k] == self.admissions.key(k),
            decreases self.admissions.count() - i,
        {
            let (read, _) = self.admissions.row(i);
            reads.push(read);
            i = i + 1;
        }
        proof {
            assert(ids_ascend(reads@)) by {
                assert forall|a: int, b: int| 0 <= a < b < reads@.len() implies reads@[a]
                    < reads@[b] by {
                    assert(self.admissions.key(a) < self.admissions.key(b));
                }
            }
            assert forall|k: int| 0 <= k < reads@.len() implies
                self.state().admissions.contains_key(#[trigger] reads@[k]) by {
                assert(self.admissions@.contains_key(self.admissions.key(k)));
            }
            assert forall|read: u64| #[trigger] reads@.contains(read)
                <==> self.state().admissions.contains_key(read) by {
                if self.state().admissions.contains_key(read) {
                    let k = choose|k: int|
                        0 <= k < self.admissions.count() && self.admissions.key(k) == read;
                    assert(reads@[k] == read);
                }
            }
        }
        self.close_reads(&reads)
    }

    /// Ends every operation. Nothing is in progress afterwards.
    pub fn end_operations(&mut self) -> (r: Vec<ExpiredClient>)
        requires
            old(self).wf(),
        ensures
            final(self).wf(),
            ids_ascend(expired_ids(r@)),
            forall|id: u64| #[trigger]
                expired_ids(r@).contains(id) <==> old(self).state().pending.contains_key(id),
            ends(old(self).state(), r@),
            final(self).state() == old(self).state().take_all(expired_ids(r@)),
    {
        let mut ids: Vec<u64> = Vec::new();
        let mut i: usize = 0;
        proof {
            self.pending.lemma_rows();
        }
        while i < self.pending.len()
            invariant
                self.wf(),
                *self == *old(self),
                i <= self.pending.count(),
                ids@.len() == i,
                forall|k: int| 0 <= k < i ==> #[trigger] ids@[k] == self.pending.key(k),
            decreases self.pending.count() - i,
        {
            let (id, _) = self.pending.row(i);
            ids.push(id);
            i = i + 1;
        }
        let ghost start = self.state();
        proof {
            assert(ids_ascend(ids@)) by {
                assert forall|a: int, b: int| 0 <= a < b < ids@.len() implies ids@[a] < ids@[b] by {
                    assert(self.pending.key(a) < self.pending.key(b));
                }
            }
            assert forall|k: int| 0 <= k < ids@.len() implies start.pending.contains_key(
                #[trigger] ids@[k],
            ) by {
                assert(self.pending@.contains_key(self.pending.key(k)));
            }
            assert forall|id: u64| #[trigger] ids@.contains(id)
                <==> start.pending.contains_key(id) by {
                if start.pending.contains_key(id) {
                    let k = choose|k: int|
                        0 <= k < self.pending.count() && self.pending.key(k) == id;
                    assert(ids@[k] == id);
                }
            }
        }
        let mut ended: Vec<ExpiredClient> = Vec::new();
        let mut k: usize = 0;
        assert(ids@.take(0) =~= Seq::empty());
        while k < ids.len()
            invariant
                k <= ids@.len(),
                self.wf(),
                ids_ascend(ids@),
                start == old(self).state(),
                self.state() == start.take_all(ids@.take(k as int)),
                expired_ids(ended@) == ids@.take(k as int),
                ends(start, ended@),
                forall|m: int|
                    k <= m < ids@.len() ==> self.state().pending.contains_key(#[trigger] ids@[m]),
            decreases ids@.len() - k,
        {
            let ghost before = self.state();
            let ghost done = ended@;
            let ghost more = ids@.take(k + 1);
            assert(more.drop_last() =~= ids@.take(k as int));
            assert(before.pending.contains_key(ids@[k as int]));
            match self.take_pending(ids[k]) {
                Some((_, replies)) => {
                    ended.push(ExpiredClient { id: ids[k], replies });
                    proof {
                        assert(expired_ids(ended@) =~= more);
                        assert forall|m: int| 0 <= m < ended@.len() implies ({
                            let at = start.take_all(expired_ids(ended@).take(m));
                            (#[trigger] ended@[m]).replies@ == replies_at(
                                at.waiters,
                                Place::Proposal { id: ended@[m].id },
                            )
                        }) by {
                            assert(expired_ids(ended@).take(m) =~= ids@.take(m));
                            if m < k {
                                assert(ended@[m] == done[m]);
                                assert(expired_ids(done).take(m) =~= ids@.take(m));
                            }
                        }
                    }
                },
                None => {},
            }
            proof {
                assert forall|m: int| k + 1 <= m < ids@.len() implies
                    self.state().pending.contains_key(#[trigger] ids@[m]) by {
                    assert(ids@[k as int] < ids@[m]);
                    assert(before.pending.contains_key(ids@[m]));
                }
            }
            k = k + 1;
        }
        assert(ids@.take(k as int) =~= ids@);
        ended
    }
}

} // verus!
