//! Transfers that are followed in the register of tasks.

use vstd::prelude::*;
use vstd::string::*;

use crate::text::joined;
use crate::transfer::TransferCancellation;
use crate::transfer::TransferOptions;
use crate::transfer::TransferSummary;
use crate::transfer_task::RegistryView;
use crate::transfer_task::TaskProblem;
use crate::transfer_task::TaskView;
use crate::transfer_task::TransferTaskId;
use crate::transfer_task::TransferTaskKind;
use crate::transfer_task::TransferTaskRegistration;
use crate::transfer_task::TransferTaskRegistry;
use crate::transfer_task::TransferTaskState;

verus! {

/// Progress events that may wait to be taken in.
pub const TRACKED_PROGRESS_QUEUE: usize = 64;

/// Milliseconds between two looks at the caller's flag.
pub const CALLER_CANCELLATION_POLL_MILLIS: u64 = 50;

/// The path under which a task is kept. A path that is no text could not be
/// tried again.
pub fn local_task_path(path: Option<&str>) -> (r: Option<String>)
    ensures
        match r {
            Some(text) => crate::config::option_str(path) == Some(text@),
            None => path is None,
        },
{
    match path {
        Some(text) => Some(text.to_owned()),
        None => None,
    }
}

/// A second try always goes on with what is there.
pub fn retry_options(options: TransferOptions) -> (r: TransferOptions)
    ensures
        r == (TransferOptions { resume: true, ..options }),
{
    let mut changed = options;
    changed.resume = true;
    changed
}

/// How a transfer has ended.
#[derive(Debug, PartialEq, Eq)]
pub enum TransferOutcome {
    Done(TransferSummary),
    Failed(String),
    /// Its progress could not be followed.
    TrackingLost(String),
}

/// The task after its transfer has ended.
pub open spec fn settled(task: TaskView, outcome: TransferOutcome, cancelled: bool) -> TaskView {
    match outcome {
        TransferOutcome::Done(summary) => TaskView {
            state: TransferTaskState::Completed,
            summary: Some(summary),
            error: None,
            ..task
        },
        TransferOutcome::Failed(error) => if cancelled {
            TaskView { state: TransferTaskState::Cancelled, cancel_requested: true, ..task }
        } else {
            TaskView {
                state: TransferTaskState::Failed,
                error: Some(crate::transfer_task::bounded(error@)),
                ..task
            }
        },
        TransferOutcome::TrackingLost(error) => TaskView {
            state: TransferTaskState::Failed,
            error: Some(
                crate::transfer_task::bounded("transfer progress tracking failed: "@ + error@),
            ),
            ..task
        },
    }
}

/// Why the task cannot be settled. A task is cancelled unless it is over; the
/// rest is for running tasks.
pub open spec fn settling_problem(
    task: TaskView,
    outcome: TransferOutcome,
    cancelled: bool,
) -> Option<TaskProblem> {
    if outcome is Failed && cancelled {
        if task.state.is_over() {
            Some(TaskProblem::NotCancellable)
        } else {
            None
        }
    } else if task.state is Running {
        None
    } else {
        Some(TaskProblem::NotRunning)
    }
}

/// Settles a task once its transfer has ended. A transfer that failed after its
/// flag was set was cancelled.
pub fn finish_task(
    registry: &mut TransferTaskRegistry,
    id: TransferTaskId,
    outcome: TransferOutcome,
    cancelled: bool,
) -> (r: Result<(), TaskProblem>)
    requires
        old(registry)@.wf(),
    ensures
        final(registry)@.wf(),
        match old(registry)@.task(id.number()) {
            None => r == Err::<(), TaskProblem>(TaskProblem::Unknown) && final(registry)@ == old(
                registry,
            )@,
            Some(task) => match settling_problem(task, outcome, cancelled) {
                Some(e) => r == Err::<(), TaskProblem>(e) && final(registry)@ == old(registry)@,
                None => r is Ok && final(registry)@ == old(registry)@.with_task(
                    id.number(),
                    settled(task, outcome, cancelled),
                ),
            },
        },
{
    match outcome {
        TransferOutcome::Done(summary) => registry.complete(id, summary),
        TransferOutcome::Failed(error) => if cancelled {
            registry.mark_cancelled(id)
        } else {
            registry.fail(id, error.as_str())
        },
        TransferOutcome::TrackingLost(error) => {
            let text = joined("transfer progress tracking failed: ", error.as_str());
            registry.fail(id, text.as_str())
        },
    }
}

/// The register with one more task, which runs.
pub open spec fn with_started_task(
    room: RegistryView,
    kind: TransferTaskKind,
    source: Seq<char>,
    destination: Seq<char>,
    retry_of: Option<u64>,
    flag: TransferCancellation,
) -> RegistryView {
    room.with_new_task(kind, source, destination, retry_of, flag).with_task(
        room.next_id,
        TaskView {
            state: TransferTaskState::Running,
            ..crate::transfer_task::new_task(room.next_id, kind, source, destination, retry_of)
        },
    )
}

/// Takes in a task and starts it. A full register forgets its oldest task that
/// is over.
pub fn start_task(
    registry: &mut TransferTaskRegistry,
    kind: TransferTaskKind,
    source: &str,
    destination: &str,
) -> (r: Result<TransferTaskRegistration, TaskProblem>)
    requires
        old(registry)@.wf(),
    ensures
        final(registry)@.wf(),
        match crate::transfer_task::text_problem(
            source@,
            TaskProblem::EmptySource,
            TaskProblem::SourceTooLong,
        ) {
            Some(e) => r == Err::<TransferTaskRegistration, TaskProblem>(e) && final(registry)@
                == old(registry)@,
            None => match crate::transfer_task::text_problem(
                destination@,
                TaskProblem::EmptyDestination,
                TaskProblem::DestinationTooLong,
            ) {
                Some(e) => r == Err::<TransferTaskRegistration, TaskProblem>(e) && final(registry)@
                    == old(registry)@,
                None => match old(registry)@.with_room() {
                    None => r == Err::<TransferTaskRegistration, TaskProblem>(TaskProblem::Full)
                        && final(registry)@ == old(registry)@,
                    Some(room) => if room.next_id == u64::MAX {
                        r == Err::<TransferTaskRegistration, TaskProblem>(TaskProblem::IdsExhausted)
                            && final(registry)@ == room
                    } else {
                        r matches Ok(registration) && registration.task() == room.next_id
                            && final(registry)@ == with_started_task(
                            room,
                            kind,
                            source@,
                            destination@,
                            None,
                            registration.flag(),
                        )
                    },
                },
            },
        },
{
    let registration = registry.register(kind, source, destination)?;
    proof {
        lemma_newest(registry@);
    }
    registry.mark_running(registration.id())?;
    Ok(registration)
}

/// Takes in another try of a task that was cancelled or failed, and starts it.
pub fn start_retry(registry: &mut TransferTaskRegistry, previous: TransferTaskId) -> (r: Result<
    TransferTaskRegistration,
    TaskProblem,
>)
    requires
        old(registry)@.wf(),
    ensures
        final(registry)@.wf(),
        match old(registry)@.task(previous.number()) {
            None => r == Err::<TransferTaskRegistration, TaskProblem>(TaskProblem::Unknown)
                && final(registry)@ == old(registry)@,
            Some(task) => if !(task.state is Cancelled) && !(task.state is Failed) {
                r == Err::<TransferTaskRegistration, TaskProblem>(TaskProblem::NotRetryable)
                    && final(registry)@ == old(registry)@
            } else {
                match old(registry)@.with_room() {
                    None => r == Err::<TransferTaskRegistration, TaskProblem>(TaskProblem::Full)
                        && final(registry)@ == old(registry)@,
                    Some(room) => if room.next_id == u64::MAX {
                        r == Err::<TransferTaskRegistration, TaskProblem>(TaskProblem::IdsExhausted)
                            && final(registry)@ == room
                    } else {
                        r matches Ok(registration) && registration.task() == room.next_id
                            && final(registry)@ == with_started_task(
                            room,
                            task.kind,
                            task.source,
                            task.destination,
                            Some(previous.number()),
                            registration.flag(),
                        )
                    },
                }
            },
        },
{
    let registration = registry.register_retry(previous)?;
    proof {
        lemma_newest(registry@);
    }
    registry.mark_running(registration.id())?;
    Ok(registration)
}

/// A task that was started is held as a running one.
pub proof fn started_tasks_run(
    room: RegistryView,
    kind: TransferTaskKind,
    source: Seq<char>,
    destination: Seq<char>,
    retry_of: Option<u64>,
    flag: TransferCancellation,
)
    requires
        room.wf(),
        room.tasks.len() < room.max_retained,
        room.next_id < u64::MAX,
    ensures
        with_started_task(room, kind, source, destination, retry_of, flag).task(room.next_id)
            == Some(
            TaskView {
                state: TransferTaskState::Running,
                ..crate::transfer_task::new_task(room.next_id, kind, source, destination, retry_of)
            },
        ),
{
    let waiting = room.with_new_task(kind, source, destination, retry_of, flag);
    assert(waiting.tasks.last().id == room.next_id);
    lemma_newest(waiting);
    let started = with_started_task(room, kind, source, destination, retry_of, flag);
    assert(started.tasks.last().id == room.next_id);
    lemma_newest(started);
}

proof fn lemma_newest(registry: RegistryView)
    requires
        registry.wf(),
        registry.tasks.len() > 0,
    ensures
        registry.task(registry.tasks.last().id) == Some(registry.tasks.last()),
        crate::transfer_task::task_index(registry.tasks, registry.tasks.last().id, 0)
            == registry.tasks.len() - 1,
{
    let id = registry.tasks.last().id;
    crate::transfer_task::lemma_task_index(registry.tasks, id, 0);
    let p = crate::transfer_task::task_index(registry.tasks, id, 0);
    if p < registry.tasks.len() - 1 {
        assert(registry.tasks[p].id < registry.tasks[registry.tasks.len() - 1].id);
    }
}

} // verus!
