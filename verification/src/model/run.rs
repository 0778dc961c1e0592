//! Runs of the managed scheduler: calls made one after the other from a new one.

use vstd::prelude::*;

use crate::history::{is_queued, queued_answers, Operation, OperationOutcome};
use crate::model::laws::{law_initial_state_reachable, lemma_traversal_frame};
use crate::model::reachable::{
    inv, lemma_all_signalled_inv, lemma_core_frame, lemma_lifecycle_inv, lemma_open_session_inv,
    lemma_stepped_inv, lemma_submit_inv,
};
use crate::model::state::{PlanState, ReportState, SchedulerState};
use crate::types::{
    FailureRecord, GroupId, GroupIncarnation, LifecycleRequest, PassIndex, ReadinessSignal,
    SchedulerConfig, ServiceRecord, Work,
};

verus! {

/// One call of the scheduler.
#[verifier::ext_equal]
pub enum Call {
    /// A lifecycle request, a session request or a submission.
    Invoke {
        /// What was asked.
        operation: Operation,
    },
    /// A tick with these readiness reports.
    Step {
        /// The reports, in order.
        signals: Seq<ReadinessSignal>,
    },
}

/// The scheduler after a call.
pub open(crate) spec fn called(s: SchedulerState, call: Call) -> SchedulerState {
    match call {
        Call::Invoke { operation } => match operation {
            Operation::Lifecycle { group, request } => s.lifecycle(group, request).0,
            Operation::OpenSession { group, incarnation, client_id, session_epoch } => {
                s.open_session(group, incarnation, client_id, session_epoch)
            },
            Operation::Submit { group, incarnation, work } => s.submit(group, incarnation, work),
        },
        Call::Step { signals } => s.stepped(signals).0,
    }
}

/// What the scheduler answers to a call, when it is one that is answered.
pub open(crate) spec fn answers(s: SchedulerState, call: Call) -> Seq<OperationOutcome> {
    match call {
        Call::Invoke { operation } => match operation {
            Operation::Lifecycle { group, request } => seq![
                OperationOutcome::Lifecycle(s.lifecycle(group, request).1),
            ],
            Operation::OpenSession { group, incarnation, client_id, session_epoch } => seq![
                OperationOutcome::Session(
                    s.session_outcome(group, incarnation, client_id, session_epoch),
                ),
            ],
            Operation::Submit { group, incarnation, work } => seq![
                OperationOutcome::Admission(s.submit_outcome(group, incarnation, work)),
            ],
        },
        Call::Step { .. } => Seq::empty(),
    }
}

/// What the scheduler reports as serviced by a call.
pub open(crate) spec fn services(s: SchedulerState, call: Call) -> Seq<ServiceRecord> {
    match call {
        Call::Invoke { .. } => Seq::empty(),
        Call::Step { signals } => s.stepped(signals).1.serviced,
    }
}

/// What the scheduler reports as failed by a call.
pub open(crate) spec fn failures(s: SchedulerState, call: Call) -> Seq<FailureRecord> {
    match call {
        Call::Invoke { operation } => match operation {
            Operation::Lifecycle { group, request } => s.lifecycle(group, request).2,
            _ => Seq::empty(),
        },
        Call::Step { .. } => Seq::empty(),
    }
}

/// The call can be made: its values can exist, and no counter of the scheduler runs out by it.
pub open(crate) spec fn can_call(s: SchedulerState, call: Call) -> bool {
    match call {
        Call::Invoke { operation } => match operation {
            Operation::Lifecycle { request, .. } => request matches LifecycleRequest::Create {
                quota,
            } ==> quota.valid(),
            Operation::OpenSession { .. } => true,
            Operation::Submit { group, incarnation, work } => {
                &&& work.cost().valid()
                &&& s.submit_outcome(group, incarnation, work) is Queued ==> s.next_work < u64::MAX
            },
        },
        Call::Step { .. } => {
            &&& s.tick < u64::MAX
            &&& s.plan is None ==> s.next_pass@ < u64::MAX
        },
    }
}

/// The scheduler after these calls.
pub open(crate) spec fn ran_from(s: SchedulerState, calls: Seq<Call>) -> SchedulerState
    decreases calls.len(),
{
    if calls.len() == 0 {
        s
    } else {
        called(ran_from(s, calls.drop_last()), calls.last())
    }
}

/// Every one of these calls can be made when its turn comes.
pub open(crate) spec fn can_run_from(s: SchedulerState, calls: Seq<Call>) -> bool
    decreases calls.len(),
{
    calls.len() == 0 || can_run_from(s, calls.drop_last()) && can_call(
        ran_from(s, calls.drop_last()),
        calls.last(),
    )
}

/// Everything these calls serviced, in order.
pub open(crate) spec fn services_from(s: SchedulerState, calls: Seq<Call>) -> Seq<ServiceRecord>
    decreases calls.len(),
{
    if calls.len() == 0 {
        Seq::empty()
    } else {
        services_from(s, calls.drop_last()) + services(
            ran_from(s, calls.drop_last()),
            calls.last(),
        )
    }
}

/// The scheduler after these calls, from a new one.
pub open(crate) spec fn ran(config: SchedulerConfig, calls: Seq<Call>) -> SchedulerState {
    ran_from(SchedulerState::initial(config), calls)
}

/// Every one of these calls can be made of a new scheduler when its turn comes.
pub open(crate) spec fn can_run(config: SchedulerConfig, calls: Seq<Call>) -> bool {
    can_run_from(SchedulerState::initial(config), calls)
}

/// Everything a run answered, in order.
pub open(crate) spec fn run_answers(config: SchedulerConfig, calls: Seq<Call>) -> Seq<
    OperationOutcome,
>
    decreases calls.len(),
{
    if calls.len() == 0 {
        Seq::empty()
    } else {
        run_answers(config, calls.drop_last()) + answers(
            ran(config, calls.drop_last()),
            calls.last(),
        )
    }
}

/// Everything a run serviced, in order.
pub open(crate) spec fn run_services(config: SchedulerConfig, calls: Seq<Call>) -> Seq<
    ServiceRecord,
> {
    services_from(SchedulerState::initial(config), calls)
}

/// Everything a run retired without service, in order.
pub open(crate) spec fn run_failures(config: SchedulerConfig, calls: Seq<Call>) -> Seq<
    FailureRecord,
>
    decreases calls.len(),
{
    if calls.len() == 0 {
        Seq::empty()
    } else {
        run_failures(config, calls.drop_last()) + failures(
            ran(config, calls.drop_last()),
            calls.last(),
        )
    }
}

/// A call leaves a reachable state.
pub proof fn lemma_called_inv(s: SchedulerState, call: Call)
    requires
        inv(s),
        can_call(s, call),
    ensures
        inv(called(s, call)),
{
    match call {
        Call::Invoke { operation } => match operation {
            Operation::Lifecycle { group, request } => {
                lemma_lifecycle_inv(s, group, request);
            },
            Operation::OpenSession { group, incarnation, client_id, session_epoch } => {
                lemma_open_session_inv(s, group, incarnation, client_id, session_epoch);
            },
            Operation::Submit { group, incarnation, work } => {
                lemma_submit_inv(s, group, incarnation, work);
            },
        },
        Call::Step { signals } => {
            lemma_stepped_inv(s, signals);
        },
    }
}

/// Calls leave a reachable state.
pub proof fn lemma_ran_inv(s: SchedulerState, calls: Seq<Call>)
    requires
        inv(s),
        can_run_from(s, calls),
    ensures
        inv(ran_from(s, calls)),
    decreases calls.len(),
{
    if calls.len() > 0 {
        lemma_ran_inv(s, calls.drop_last());
        lemma_called_inv(ran_from(s, calls.drop_last()), calls.last());
    }
}

/// Every state of a run is reachable.
pub proof fn law_runs_stay_reachable(config: SchedulerConfig, calls: Seq<Call>)
    requires
        config.valid(),
        can_run(config, calls),
    ensures
        inv(ran(config, calls)),
        ran(config, calls).config == config,
    decreases calls.len(),
{
    if calls.len() == 0 {
        law_initial_state_reachable(config);
    } else {
        law_runs_stay_reachable(config, calls.drop_last());
        lemma_called_inv(ran(config, calls.drop_last()), calls.last());
        lemma_called_config(ran(config, calls.drop_last()), calls.last());
    }
}

/// A call keeps the bounds.
proof fn lemma_called_config(s: SchedulerState, call: Call)
    requires
        inv(s),
        can_call(s, call),
    ensures
        called(s, call).config == s.config,
{
    match call {
        Call::Invoke { .. } => {},
        Call::Step { signals } => {
            lemma_stepped_counts(s, signals);
        },
    }
}

/// What a step leaves as it was.
pub proof fn lemma_stepped_counts(s: SchedulerState, signals: Seq<ReadinessSignal>)
    requires
        inv(s),
        s.tick < u64::MAX,
    ensures
        s.stepped(signals).0.config == s.config,
        s.stepped(signals).0.next_work == s.next_work,
        s.stepped(signals).0.admitted == s.admitted,
        s.stepped(signals).0.failed == s.failed,
        s.stepped(signals).0.tick == s.tick + 1,
{
    let awake = s.awake(signals);
    let opening = s.opening_report(signals);
    let ticked = SchedulerState { tick: (s.tick + 1) as u64, ..s };
    lemma_core_frame(s, ticked);
    lemma_all_signalled_inv(ticked, signals);
    match awake.plan {
        Some(plan) => {
            lemma_traversal_frame(
                SchedulerState { plan: None, ..awake },
                plan,
                ReportState { pass: Some(plan.pass), ..opening },
            );
        },
        None => {
            let entries = awake.plan_order();
            if entries.len() > 0 {
                lemma_traversal_frame(
                    SchedulerState { next_pass: PassIndex::at(awake.next_pass@ + 1), ..awake },
                    PlanState { pass: awake.next_pass, entries, next: 0 },
                    ReportState { pass: Some(awake.next_pass), armed: Some(entries), ..opening },
                );
            }
        },
    }
}

/// Identifiers are issued without gaps: as many items were admitted as submissions took a queue
/// slot, and the next one, if it takes one, is given the number after them. A submission that takes
/// none changes nothing.
pub proof fn law_identifiers_are_issued_without_gaps(
    config: SchedulerConfig,
    calls: Seq<Call>,
    group: GroupId,
    incarnation: GroupIncarnation,
    work: Work,
)
    requires
        config.valid(),
        can_run(config, calls),
    ensures
        ({
            let s = ran(config, calls);
            let outcome = s.submit_outcome(group, incarnation, work);
            &&& s.admitted == queued_answers(run_answers(config, calls))
            &&& outcome is Queued ==> outcome->Queued_work@ == queued_answers(
                run_answers(config, calls),
            ) + 1
            &&& !(outcome is Queued) ==> s.submit(group, incarnation, work) == s
        }),
    decreases calls.len(),
{
    law_runs_stay_reachable(config, calls);
    if calls.len() > 0 {
        let rest = calls.drop_last();
        let s = ran(config, rest);
        law_identifiers_are_issued_without_gaps(config, rest, group, incarnation, work);
        law_runs_stay_reachable(config, rest);
        let before = run_answers(config, rest);
        let all = run_answers(config, calls);
        match calls.last() {
            Call::Invoke { operation } => {
                assert(all =~= before.push(answers(s, calls.last())[0]));
                assert(all.drop_last() =~= before);
                lemma_invoked_counts(s, operation);
            },
            Call::Step { signals } => {
                assert(all =~= before);
                lemma_stepped_counts(s, signals);
            },
        }
    }
}

/// What a request admits.
proof fn lemma_invoked_counts(s: SchedulerState, operation: Operation)
    ensures
        called(s, Call::Invoke { operation }).admitted == s.admitted + if is_queued(
            answers(s, Call::Invoke { operation })[0],
        ) {
            1nat
        } else {
            0nat
        },
{
}

} // verus!
