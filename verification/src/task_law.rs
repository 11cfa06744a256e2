//! Laws of the task registry: which task leaves, which stay, and what is kept of
//! a text that is too long.

use vstd::prelude::*;

use crate::transfer::TransferCancellation;
use crate::transfer::TransferDirection;
use crate::transfer_task::RegistryView;
use crate::transfer_task::TaskProblem;
use crate::transfer_task::TaskView;
use crate::transfer_task::TransferTaskKind;
use crate::transfer_task::TransferTaskState;
use crate::transfer_task_manager::TransferOutcome;

verus! {

/// The task waits or runs.
pub open spec fn goes_on(task: TaskView) -> bool {
    task.state == TransferTaskState::Queued || task.state == TransferTaskState::Running
}

/// A task is over when it is completed, cancelled or failed, and goes one way.
pub proof fn tasks_go_one_way(state: TransferTaskState, kind: TransferTaskKind)
    ensures
        state.is_over() == !(state is Queued || state is Running),
        kind.towards() == TransferDirection::Upload <==> kind is UploadFile
            || kind is UploadDirectory,
        kind.towards() == TransferDirection::Download <==> kind is DownloadFile
            || kind is DownloadDirectory,
{
}

proof fn lemma_first_over(tasks: Seq<TaskView>, i: int)
    requires
        0 <= i <= tasks.len(),
    ensures
        ({
            let p = crate::transfer_task::first_over(tasks, i);
            &&& i <= p <= tasks.len()
            &&& p < tasks.len() ==> !goes_on(tasks[p])
            &&& forall|k: int| i <= k < p ==> goes_on(#[trigger] tasks[k])
        }),
    decreases tasks.len() - i,
{
    if i < tasks.len() && !tasks[i].state.is_over() {
        lemma_first_over(tasks, i + 1);
    }
}

/// Room is made only where there is none: the oldest task that is over leaves,
/// with its flag. Where all go on there is no room.
pub proof fn the_oldest_finished_task_makes_room(registry: RegistryView) -> (p: int)
    requires
        registry.wf(),
    ensures
        match registry.with_room() {
            Some(room) => {
                &&& registry.tasks.len() < registry.max_retained ==> room == registry
                &&& registry.tasks.len() >= registry.max_retained ==> {
                    &&& 0 <= p < registry.tasks.len() && !goes_on(registry.tasks[p])
                    &&& forall|k: int| 0 <= k < p ==> goes_on(#[trigger] registry.tasks[k])
                    &&& room.tasks == registry.tasks.remove(p)
                    &&& room.flags == registry.flags.remove(p)
                    &&& room.next_id == registry.next_id && room.max_retained
                        == registry.max_retained
                }
            },
            None => {
                &&& registry.tasks.len() == registry.max_retained
                &&& forall|k: int|
                    0 <= k < registry.tasks.len() ==> goes_on(#[trigger] registry.tasks[k])
            },
        },
{
    lemma_first_over(registry.tasks, 0);
    crate::transfer_task::first_over(registry.tasks, 0)
}

/// A new task comes last, waits, has done nothing yet, and has the next number;
/// the others stay as they are.
pub proof fn new_tasks_wait_at_the_end(
    registry: RegistryView,
    kind: TransferTaskKind,
    source: Seq<char>,
    destination: Seq<char>,
    retry_of: Option<u64>,
    flag: TransferCancellation,
)
    requires
        registry.wf(),
        registry.next_id < u64::MAX,
    ensures
        ({
            let after = registry.with_new_task(kind, source, destination, retry_of, flag);
            let n = registry.tasks.len() as int;
            let task = after.tasks[n];
            &&& after.tasks.len() == n + 1 && after.flags.len() == n + 1
            &&& after.tasks.take(n) == registry.tasks && after.flags.take(n) == registry.flags
            &&& after.flags[n] == flag
            &&& task.id == registry.next_id && after.next_id == registry.next_id + 1
            &&& task.kind == kind && task.source == source && task.destination == destination
            &&& task.state is Queued && !task.cancel_requested
            &&& task.progress is None && task.summary is None && task.error is None
            &&& task.retry_of == retry_of && after.max_retained == registry.max_retained
        }),
{
    let after = registry.with_new_task(kind, source, destination, retry_of, flag);
    let n = registry.tasks.len() as int;
    assert(after.tasks.take(n) =~= registry.tasks);
    assert(after.flags.take(n) =~= registry.flags);
}

/// What is written of a task is read back of it, and of no other.
pub proof fn tasks_are_read_as_written(registry: RegistryView, i: int, task: TaskView)
    requires
        registry.wf(),
        0 <= i < registry.tasks.len(),
        task.id == registry.tasks[i].id,
    ensures
        registry.task(task.id) == Some(registry.tasks[i]),
        ({
            let after = registry.with_task(task.id, task);
            &&& after.task(task.id) == Some(task)
            &&& after.tasks.len() == registry.tasks.len()
            &&& after.tasks[i] == task
            &&& forall|k: int|
                0 <= k < registry.tasks.len() && k != i ==> #[trigger] after.tasks[k]
                    == registry.tasks[k]
            &&& after.flags == registry.flags && after.next_id == registry.next_id
                && after.max_retained == registry.max_retained
        }),
{
    let id = task.id;
    crate::transfer_task::lemma_task_index(registry.tasks, id, 0);
    let p = crate::transfer_task::task_index(registry.tasks, id, 0);
    assert(p == i) by {
        if p > i {
            assert(registry.tasks[i].id != id);
        }
    }
    let after = registry.with_task(id, task);
    crate::transfer_task::lemma_task_index(after.tasks, id, 0);
    let q = crate::transfer_task::task_index(after.tasks, id, 0);
    assert(q == i) by {
        assert(after.tasks[i].id == id);
        if q < i {
            assert(after.tasks[q] == registry.tasks[q]);
        }
        if q > i {
            assert(after.tasks[i].id != id);
        }
    }
}

/// A number that no task has is not found.
pub proof fn unknown_tasks_are_not_found(registry: RegistryView, id: u64)
    requires
        forall|k: int|
            0 <= k < registry.tasks.len() ==> (#[trigger] registry.tasks[k]).id != id,
    ensures
        registry.task(id) is None,
        registry.with_cancel(id) == (registry, Err::<bool, TaskProblem>(TaskProblem::Unknown)),
{
    crate::transfer_task::lemma_task_index(registry.tasks, id, 0);
}

/// Asking a task to stop marks it, where it goes on and was not asked before,
/// and changes nothing else.
pub proof fn asking_to_stop_marks_the_task(registry: RegistryView, i: int)
    requires
        registry.wf(),
        0 <= i < registry.tasks.len(),
    ensures
        ({
            let task = registry.tasks[i];
            let (after, answer) = registry.with_cancel(task.id);
            let asked = goes_on(task) && !task.cancel_requested;
            &&& answer == Ok::<bool, TaskProblem>(asked)
            &&& !asked ==> after == registry
            &&& asked ==> {
                &&& after.tasks[i].cancel_requested
                &&& after.tasks[i].state == task.state && after.tasks[i].id == task.id
                &&& after.tasks[i].kind == task.kind && after.tasks[i].source == task.source
                &&& after.tasks[i].destination == task.destination
                &&& after.tasks[i].progress == task.progress
                &&& after.tasks[i].summary == task.summary && after.tasks[i].error == task.error
                &&& after.tasks[i].retry_of == task.retry_of
                &&& forall|k: int|
                    0 <= k < registry.tasks.len() && k != i ==> #[trigger] after.tasks[k]
                        == registry.tasks[k]
            }
        }),
{
    let task = registry.tasks[i];
    tasks_are_read_as_written(registry, i, task);
    tasks_are_read_as_written(registry, i, TaskView { cancel_requested: true, ..task });
}

/// Clearing keeps exactly the tasks that go on, in their order, each with its
/// flag.
pub proof fn clearing_keeps_what_goes_on(tasks: Seq<TaskView>, flags: Seq<TransferCancellation>)
    requires
        tasks.len() == flags.len(),
    ensures
        crate::transfer_task::unfinished(tasks) == tasks.filter(|t: TaskView| goes_on(t)),
        crate::transfer_task::unfinished_flags(tasks, flags).len()
            == crate::transfer_task::unfinished(tasks).len(),
        crate::transfer_task::unfinished(tasks).zip_with(
            crate::transfer_task::unfinished_flags(tasks, flags),
        ) == tasks.zip_with(flags).filter(|p: (TaskView, TransferCancellation)| goes_on(p.0)),
    decreases tasks.len(),
{
    let f = |t: TaskView| goes_on(t);
    let g = |p: (TaskView, TransferCancellation)| goes_on(p.0);
    reveal(Seq::filter);
    let kept = crate::transfer_task::unfinished(tasks);
    let signs = crate::transfer_task::unfinished_flags(tasks, flags);
    let pairs = tasks.zip_with(flags);
    if tasks.len() > 0 {
        clearing_keeps_what_goes_on(tasks.drop_last(), flags.drop_last());
        assert(pairs.drop_last() =~= tasks.drop_last().zip_with(flags.drop_last()));
        assert(pairs.last() == (tasks.last(), flags.last()));
        if goes_on(tasks.last()) {
            let a = crate::transfer_task::unfinished(tasks.drop_last());
            let b = crate::transfer_task::unfinished_flags(tasks.drop_last(), flags.drop_last());
            assert(a.push(tasks.last()).zip_with(b.push(flags.last())) =~= a.zip_with(b).push(
                pairs.last(),
            ));
        }
    } else {
        assert(kept.zip_with(signs) =~= pairs.filter(g));
        assert(kept =~= tasks.filter(f));
    }
}

proof fn lemma_fitting(s: Seq<char>, room: nat)
    ensures
        ({
            let n = crate::transfer_task::fitting(s, room) as int;
            &&& 0 <= n <= s.len()
            &&& vstd::utf8::encode_utf8(s.take(n)).len() <= room
            &&& n < s.len() ==> vstd::utf8::encode_utf8(s.take(n + 1)).len() > room
        }),
    decreases s.len(),
{
    let n = crate::transfer_task::fitting(s, room) as int;
    if s.len() > 0 {
        let width = crate::transfer_task::char_width(s[0]);
        let one = seq![s[0]];
        assert(one.drop_first() =~= Seq::empty());
        reveal_with_fuel(vstd::utf8::encode_utf8, 2);
        assert(vstd::utf8::encode_utf8(one).len() == width);
        if width <= room {
            let rest = s.drop_first();
            lemma_fitting(rest, (room - width) as nat);
            let m = n - 1;
            assert(s.take(n) =~= one + rest.take(m));
            crate::text::lemma_encode_add(one, rest.take(m));
            if n < s.len() {
                assert(s.take(n + 1) =~= one + rest.take(m + 1));
                crate::text::lemma_encode_add(one, rest.take(m + 1));
            }
        } else {
            assert(s.take(0) =~= Seq::empty());
            assert(s.take(1) =~= one);
        }
    } else {
        assert(s.take(0) =~= Seq::empty());
    }
}

/// A text of up to 16384 bytes is kept whole. Of a longer one as many characters
/// are kept as fit there, and three dots say that it was longer.
pub proof fn long_texts_are_cut(s: Seq<char>) -> (n: int)
    ensures
        0 <= n <= s.len(),
        vstd::utf8::encode_utf8(s).len() <= 16384 ==> crate::transfer_task::bounded(s) == s,
        vstd::utf8::encode_utf8(s).len() > 16384 ==> {
            &&& crate::transfer_task::bounded(s) == s.take(n) + seq!['.', '.', '.']
            &&& vstd::utf8::encode_utf8(s.take(n)).len() <= 16384
            &&& n < s.len() && vstd::utf8::encode_utf8(s.take(n + 1)).len() > 16384
        },
{
    lemma_fitting(s, 16384);
    reveal_strlit("...");
    assert("..."@ =~= seq!['.', '.', '.']);
    let n = crate::transfer_task::fitting(s, 16384) as int;
    if n == s.len() {
        assert(s.take(n) =~= s);
    }
    n
}

/// A path of a task is refused where it is empty or longer than 16384 bytes.
pub proof fn task_paths_are_bounded(text: Seq<char>, empty: TaskProblem, long: TaskProblem)
    ensures
        crate::transfer_task::text_problem(text, empty, long) == (if text.len() == 0 {
            Some(empty)
        } else if vstd::utf8::encode_utf8(text).len() > 16384 {
            Some(long)
        } else {
            None
        }),
{
}

/// A transfer that is done completes its task with what it has done. One that
/// failed fails it, with what was said, unless it was to be stopped; then the
/// task is cancelled. Nothing else of the task changes.
pub proof fn tasks_end_as_their_transfer(task: TaskView, outcome: TransferOutcome, cancelled: bool)
    ensures
        ({
            let after = crate::transfer_task_manager::settled(task, outcome, cancelled);
            &&& !goes_on(after)
            &&& outcome matches TransferOutcome::Done(summary) ==> after.state is Completed
                && after.summary == Some(summary) && after.error is None
                && after.cancel_requested == task.cancel_requested
            &&& outcome matches TransferOutcome::Failed(error) ==> {
                &&& cancelled ==> after.state is Cancelled && after.cancel_requested
                    && after.error == task.error
                &&& !cancelled ==> after.state is Failed && after.error == Some(
                    crate::transfer_task::bounded(error@),
                ) && after.cancel_requested == task.cancel_requested
                &&& after.summary == task.summary
            }
            &&& outcome is TrackingLost ==> after.state is Failed && after.error is Some
            &&& after.id == task.id && after.kind == task.kind && after.source == task.source
                && after.destination == task.destination && after.progress == task.progress
                && after.retry_of == task.retry_of
        }),
        ({
            let problem = crate::transfer_task_manager::settling_problem(task, outcome, cancelled);
            &&& task.state is Running ==> problem is None
            &&& !goes_on(task) ==> problem is Some
            &&& task.state is Queued ==> (problem is None) == (outcome is Failed && cancelled)
        }),
{
}

} // verus!
