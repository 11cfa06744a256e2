//! The register of transfer tasks: their life, their progress, and how long
//! they are remembered.

use vstd::prelude::*;
use vstd::string::*;

use crate::model::copy_option;
use crate::text::byte_len;
use crate::text::chars_of;
use crate::text::text_between;
use crate::transfer::TransferCancellation;
use crate::transfer::TransferDirection;
use crate::transfer::TransferEvent;
use crate::transfer::TransferSummary;

verus! {

pub const DEFAULT_TRANSFER_TASK_RETENTION: usize = 128;

pub const MAX_TRANSFER_TASK_RETENTION: usize = 1024;

pub const MAX_TRANSFER_TASK_TEXT_BYTES: usize = 16384;

#[derive(Debug, Clone, Copy, PartialEq, Eq, Hash, PartialOrd, Ord)]
pub struct TransferTaskId(u64);

impl TransferTaskId {
    pub closed spec fn number(self) -> u64 {
        self.0
    }

    pub fn get(self) -> (r: u64)
        ensures
            r == self.number(),
    {
        self.0
    }
}

#[derive(Debug, Clone, Copy, PartialEq, Eq, Structural)]
pub enum TransferTaskKind {
    UploadFile,
    UploadDirectory,
    DownloadFile,
    DownloadDirectory,
}

impl TransferTaskKind {
    pub open spec fn towards(self) -> TransferDirection {
        match self {
            TransferTaskKind::UploadFile => TransferDirection::Upload,
            TransferTaskKind::UploadDirectory => TransferDirection::Upload,
            TransferTaskKind::DownloadFile => TransferDirection::Download,
            TransferTaskKind::DownloadDirectory => TransferDirection::Download,
        }
    }

    pub fn direction(self) -> (r: TransferDirection)
        ensures
            r == self.towards(),
    {
        match self {
            TransferTaskKind::UploadFile => TransferDirection::Upload,
            TransferTaskKind::UploadDirectory => TransferDirection::Upload,
            TransferTaskKind::DownloadFile => TransferDirection::Download,
            TransferTaskKind::DownloadDirectory => TransferDirection::Download,
        }
    }

    pub fn recursive(self) -> (r: bool)
        ensures
            r == (self is UploadDirectory || self is DownloadDirectory),
    {
        match self {
            TransferTaskKind::UploadDirectory => true,
            TransferTaskKind::DownloadDirectory => true,
            _ => false,
        }
    }
}

#[derive(Debug, Clone, Copy, PartialEq, Eq, Structural)]
pub enum TransferTaskState {
    Queued,
    Running,
    Completed,
    Cancelled,
    Failed,
}

impl TransferTaskState {
    pub open spec fn is_over(self) -> bool {
        self is Completed || self is Cancelled || self is Failed
    }

    pub fn is_terminal(self) -> (r: bool)
        ensures
            r == self.is_over(),
    {
        match self {
            TransferTaskState::Completed => true,
            TransferTaskState::Cancelled => true,
            TransferTaskState::Failed => true,
            _ => false,
        }
    }
}

#[derive(Debug, Clone, PartialEq, Eq)]
pub struct TransferTaskProgress {
    pub path: String,
    pub bytes_transferred: u64,
    pub total_bytes: Option<u64>,
    pub completed: bool,
}

#[verifier::ext_equal]
pub struct TaskProgressView {
    pub path: Seq<char>,
    pub bytes_transferred: u64,
    pub total_bytes: Option<u64>,
    pub completed: bool,
}

impl View for TransferTaskProgress {
    type V = TaskProgressView;

    open spec fn view(&self) -> TaskProgressView {
        TaskProgressView {
            path: self.path@,
            bytes_transferred: self.bytes_transferred,
            total_bytes: self.total_bytes,
            completed: self.completed,
        }
    }
}

#[derive(Debug, Clone, PartialEq, Eq)]
pub struct TransferTaskSnapshot {
    pub id: TransferTaskId,
    pub kind: TransferTaskKind,
    pub source: String,
    pub destination: String,
    pub state: TransferTaskState,
    pub cancel_requested: bool,
    pub progress: Option<TransferTaskProgress>,
    pub summary: Option<TransferSummary>,
    pub error: Option<String>,
    pub retry_of: Option<TransferTaskId>,
}

#[verifier::ext_equal]
pub struct TaskView {
    pub id: u64,
    pub kind: TransferTaskKind,
    pub source: Seq<char>,
    pub destination: Seq<char>,
    pub state: TransferTaskState,
    pub cancel_requested: bool,
    pub progress: Option<TaskProgressView>,
    pub summary: Option<TransferSummary>,
    pub error: Option<Seq<char>>,
    pub retry_of: Option<u64>,
}

impl View for TransferTaskSnapshot {
    type V = TaskView;

    open spec fn view(&self) -> TaskView {
        TaskView {
            id: self.id.number(),
            kind: self.kind,
            source: self.source@,
            destination: self.destination@,
            state: self.state,
            cancel_requested: self.cancel_requested,
            progress: match self.progress {
                Some(p) => Some(p@),
                None => None,
            },
            summary: self.summary,
            error: crate::model::option_view(self.error),
            retry_of: match self.retry_of {
                Some(id) => Some(id.number()),
                None => None,
            },
        }
    }
}

impl TransferTaskSnapshot {
    pub fn copy(&self) -> (r: Self)
        ensures
            r@ == self@,
    {
        let progress = match &self.progress {
            Some(p) => Some(
                TransferTaskProgress {
                    path: p.path.clone(),
                    bytes_transferred: p.bytes_transferred,
                    total_bytes: p.total_bytes,
                    completed: p.completed,
                },
            ),
            None => None,
        };
        TransferTaskSnapshot {
            id: self.id,
            kind: self.kind,
            source: self.source.clone(),
            destination: self.destination.clone(),
            state: self.state,
            cancel_requested: self.cancel_requested,
            progress,
            summary: self.summary,
            error: copy_option(&self.error),
            retry_of: self.retry_of,
        }
    }
}

/// The place of a task in the register, and the flag that stops it.
#[derive(Debug, Clone)]
pub struct TransferTaskRegistration {
    id: TransferTaskId,
    cancellation: TransferCancellation,
}

impl TransferTaskRegistration {
    pub closed spec fn task(&self) -> u64 {
        self.id.number()
    }

    /// The flag of the task.
    pub closed spec fn flag(&self) -> TransferCancellation {
        self.cancellation
    }

    pub fn id(&self) -> (r: TransferTaskId)
        ensures
            r.number() == self.task(),
    {
        self.id
    }

    pub fn cancellation(&self) -> (r: TransferCancellation)
        ensures
            r == self.flag(),
    {
        self.cancellation.share()
    }
}

#[derive(Debug, Clone, Copy, PartialEq, Eq, Structural)]
pub enum TaskProblem {
    NoRetention,
    RetentionTooLarge,
    EmptySource,
    SourceTooLong,
    EmptyDestination,
    DestinationTooLong,
    Full,
    IdsExhausted,
    Unknown,
    NotRetryable,
    NotQueued,
    NotRunning,
    WrongDirection,
    NotCancellable,
}

/// Width of a character in bytes.
pub open spec fn char_width(c: char) -> nat {
    vstd::utf8::encode_scalar(c as u32).len()
}

/// How many characters at the start of a text fit into so many bytes.
pub open spec fn fitting(s: Seq<char>, room: nat) -> nat
    decreases s.len(),
{
    if s.len() == 0 || char_width(s[0]) > room {
        0
    } else {
        1 + fitting(s.drop_first(), (room - char_width(s[0])) as nat)
    }
}

/// The text, cut behind its last character that fits.
pub open spec fn bounded(s: Seq<char>) -> Seq<char> {
    if crate::text::utf8_len(s) <= MAX_TRANSFER_TASK_TEXT_BYTES {
        s
    } else {
        s.take(fitting(s, MAX_TRANSFER_TASK_TEXT_BYTES as nat) as int) + "..."@
    }
}

fn width_of(c: char) -> (r: usize)
    ensures
        r == char_width(c),
        1 <= r <= 4,
{
    let v = c as u32;
    if v <= 0x7f {
        1
    } else if v <= 0x7ff {
        2
    } else if v <= 0xffff {
        3
    } else {
        4
    }
}

fn bounded_text(value: &str) -> (r: String)
    ensures
        r@ == bounded(value@),
{
    if byte_len(value) <= MAX_TRANSFER_TASK_TEXT_BYTES {
        return value.to_owned();
    }
    let chars = chars_of(value);
    let mut n: usize = 0;
    let mut room: usize = MAX_TRANSFER_TASK_TEXT_BYTES;
    assert(value@.skip(0) =~= value@);
    while n < chars.len() && width_of(chars[n]) <= room
        invariant
            chars@ == value@,
            n <= chars@.len(),
            fitting(value@, MAX_TRANSFER_TASK_TEXT_BYTES as nat) == n + fitting(
                value@.skip(n as int),
                room as nat,
            ),
        decreases chars@.len() - n,
    {
        assert(value@.skip(n as int)[0] == chars@[n as int]);
        assert(value@.skip(n as int).drop_first() =~= value@.skip(n + 1));
        room -= width_of(chars[n]);
        n += 1;
    }
    if n < chars.len() {
        assert(value@.skip(n as int)[0] == chars@[n as int]);
    }
    assert(fitting(value@.skip(n as int), room as nat) == 0);
    let mut out = text_between(chars.as_slice(), 0, n);
    assert(out@ =~= value@.take(n as int));
    out.append("...");
    out
}

#[derive(Debug)]
struct TaskRecord {
    snapshot: TransferTaskSnapshot,
    cancellation: TransferCancellation,
}

/// The register. Tasks stand in it in the order in which they came; as many as
/// it may keep are remembered.
#[derive(Debug)]
pub struct TransferTaskRegistry {
    next_id: u64,
    max_retained: usize,
    tasks: Vec<TaskRecord>,
}

#[verifier::ext_equal]
pub struct RegistryView {
    pub next_id: u64,
    pub max_retained: usize,
    pub tasks: Seq<TaskView>,
    /// The flags of the tasks.
    pub flags: Seq<TransferCancellation>,
}

impl View for TransferTaskRegistry {
    type V = RegistryView;

    closed spec fn view(&self) -> RegistryView {
        RegistryView {
            next_id: self.next_id,
            max_retained: self.max_retained,
            tasks: self.tasks@.map_values(|r: TaskRecord| r.snapshot@),
            flags: self.tasks@.map_values(|r: TaskRecord| r.cancellation),
        }
    }
}

/// Index of the first task that is over from index `i` on; the number of tasks
/// where none is.
pub open spec fn first_over(tasks: Seq<TaskView>, i: int) -> int
    decreases tasks.len() - i,
{
    if i < 0 || i >= tasks.len() {
        tasks.len() as int
    } else if tasks[i].state.is_over() {
        i
    } else {
        first_over(tasks, i + 1)
    }
}

/// Index of the first task with this number from index `i` on; the number of
/// tasks where there is none.
pub open spec fn task_index(tasks: Seq<TaskView>, id: u64, i: int) -> int
    decreases tasks.len() - i,
{
    if i < 0 || i >= tasks.len() {
        tasks.len() as int
    } else if tasks[i].id == id {
        i
    } else {
        task_index(tasks, id, i + 1)
    }
}

pub proof fn lemma_task_index(tasks: Seq<TaskView>, id: u64, i: int)
    requires
        0 <= i <= tasks.len(),
    ensures
        i <= task_index(tasks, id, i) <= tasks.len(),
        task_index(tasks, id, i) < tasks.len() ==> tasks[task_index(tasks, id, i)].id == id,
        forall|k: int| i <= k < task_index(tasks, id, i) ==> tasks[k].id != id,
    decreases tasks.len() - i,
{
    if i < tasks.len() && tasks[i].id != id {
        lemma_task_index(tasks, id, i + 1);
    }
}

pub open spec fn text_problem(
    text: Seq<char>,
    empty: TaskProblem,
    long: TaskProblem,
) -> Option<TaskProblem> {
    if text.len() == 0 {
        Some(empty)
    } else if crate::text::utf8_len(text) > MAX_TRANSFER_TASK_TEXT_BYTES {
        Some(long)
    } else {
        None
    }
}

impl RegistryView {
    /// Numbers rise in the order of the tasks and are below the next one; no
    /// more tasks are kept than may be.
    pub open spec fn wf(self) -> bool {
        &&& 0 < self.max_retained <= MAX_TRANSFER_TASK_RETENTION
        &&& self.tasks.len() <= self.max_retained
        &&& self.flags.len() == self.tasks.len()
        &&& forall|i: int| 0 <= i < self.tasks.len() ==> (#[trigger] self.tasks[i]).id
            < self.next_id
        &&& forall|i: int, j: int|
            0 <= i < j < self.tasks.len() ==> (#[trigger] self.tasks[i]).id < (
            #[trigger] self.tasks[j]).id
    }

    /// The task with this number.
    pub open spec fn task(self, id: u64) -> Option<TaskView> {
        let p = task_index(self.tasks, id, 0);
        if p < self.tasks.len() {
            Some(self.tasks[p])
        } else {
            None
        }
    }

    pub open spec fn with_task(self, id: u64, task: TaskView) -> RegistryView {
        RegistryView { tasks: self.tasks.update(task_index(self.tasks, id, 0), task), ..self }
    }

    /// The register once a task was asked to stop, and whether it had to be
    /// asked.
    pub open spec fn with_cancel(self, id: u64) -> (RegistryView, Result<bool, TaskProblem>) {
        match self.task(id) {
            None => (self, Err(TaskProblem::Unknown)),
            Some(task) => if task.state.is_over() || task.cancel_requested {
                (self, Ok(false))
            } else {
                (self.with_task(id, TaskView { cancel_requested: true, ..task }), Ok(true))
            },
        }
    }

    /// The register without its oldest task that is over, where it is full.
    pub open spec fn with_room(self) -> Option<RegistryView> {
        if self.tasks.len() < self.max_retained {
            Some(self)
        } else {
            let p = first_over(self.tasks, 0);
            if p < self.tasks.len() {
                Some(
                    RegistryView {
                        tasks: self.tasks.remove(p),
                        flags: self.flags.remove(p),
                        ..self
                    },
                )
            } else {
                None
            }
        }
    }

    /// The register with one more task, whose flag this is.
    pub open spec fn with_new_task(
        self,
        kind: TransferTaskKind,
        source: Seq<char>,
        destination: Seq<char>,
        retry_of: Option<u64>,
        flag: TransferCancellation,
    ) -> RegistryView {
        RegistryView {
            next_id: (self.next_id + 1) as u64,
            tasks: self.tasks.push(new_task(self.next_id, kind, source, destination, retry_of)),
            flags: self.flags.push(flag),
            ..self
        }
    }
}

pub open spec fn new_task(
    id: u64,
    kind: TransferTaskKind,
    source: Seq<char>,
    destination: Seq<char>,
    retry_of: Option<u64>,
) -> TaskView {
    TaskView {
        id,
        kind,
        source,
        destination,
        state: TransferTaskState::Queued,
        cancel_requested: false,
        progress: None,
        summary: None,
        error: None,
        retry_of,
    }
}

/// The tasks that are not over.
pub open spec fn unfinished(tasks: Seq<TaskView>) -> Seq<TaskView>
    decreases tasks.len(),
{
    if tasks.len() == 0 {
        Seq::empty()
    } else if tasks.last().state.is_over() {
        unfinished(tasks.drop_last())
    } else {
        unfinished(tasks.drop_last()).push(tasks.last())
    }
}

/// The flags of the tasks that are not over, where `flags` are those of the
/// tasks.
pub open spec fn unfinished_flags(tasks: Seq<TaskView>, flags: Seq<TransferCancellation>) -> Seq<
    TransferCancellation,
>
    decreases tasks.len(),
{
    if tasks.len() == 0 {
        Seq::empty()
    } else if tasks.last().state.is_over() {
        unfinished_flags(tasks.drop_last(), flags.drop_last())
    } else {
        unfinished_flags(tasks.drop_last(), flags.drop_last()).push(flags.last())
    }
}

impl Default for TransferTaskRegistry {
    fn default() -> (r: Self)
        ensures
            r@.next_id == 1,
            r@.max_retained == DEFAULT_TRANSFER_TASK_RETENTION,
            r@.tasks.len() == 0,
            r@.wf(),
    {
        TransferTaskRegistry {
            next_id: 1,
            max_retained: DEFAULT_TRANSFER_TASK_RETENTION,
            tasks: Vec::new(),
        }
    }
}

impl TransferTaskRegistry {
    /// A register that keeps so many tasks.
    pub fn new(max_retained: usize) -> (r: Result<Self, TaskProblem>)
        ensures
            match r {
                Ok(registry) => {
                    &&& 0 < max_retained <= MAX_TRANSFER_TASK_RETENTION
                    &&& registry@.next_id == 1
                    &&& registry@.max_retained == max_retained
                    &&& registry@.tasks.len() == 0
                    &&& registry@.wf()
                },
                Err(e) => if max_retained == 0 {
                    e == TaskProblem::NoRetention
                } else {
                    max_retained > MAX_TRANSFER_TASK_RETENTION && e
                        == TaskProblem::RetentionTooLarge
                },
            },
    {
        if max_retained == 0 {
            return Err(TaskProblem::NoRetention);
        }
        if max_retained > MAX_TRANSFER_TASK_RETENTION {
            return Err(TaskProblem::RetentionTooLarge);
        }
        Ok(TransferTaskRegistry { next_id: 1, max_retained, tasks: Vec::new() })
    }

    pub fn max_retained(&self) -> (r: usize)
        ensures
            r == self@.max_retained,
    {
        self.max_retained
    }

    fn index_of(&self, id: TransferTaskId) -> (r: Option<usize>)
        ensures
            match r {
                Some(p) => p == task_index(self@.tasks, id.number(), 0) && p < self@.tasks.len(),
                None => self@.task(id.number()) is None,
            },
    {
        let ghost all = self@.tasks;
        let mut i: usize = 0;
        while i < self.tasks.len()
            invariant
                all == self@.tasks,
                i <= self.tasks@.len(),
                task_index(all, id.number(), 0) == task_index(all, id.number(), i as int),
            decreases self.tasks@.len() - i,
        {
            assert(all[i as int] == self.tasks@[i as int].snapshot@);
            if self.tasks[i].snapshot.id.get() == id.get() {
                return Some(i);
            }
            i += 1;
        }
        None
    }

    fn put_back(&mut self, i: usize, record: TaskRecord)
        requires
            i <= old(self).tasks@.len(),
        ensures
            final(self)@.next_id == old(self)@.next_id,
            final(self)@.max_retained == old(self)@.max_retained,
            final(self)@.tasks == old(self)@.tasks.insert(i as int, record.snapshot@),
            final(self)@.flags == old(self)@.flags.insert(i as int, record.cancellation),
    {
        let ghost before = self@;
        self.tasks.insert(i, record);
        assert(self@.tasks =~= before.tasks.insert(i as int, record.snapshot@));
        assert(self@.flags =~= before.flags.insert(i as int, record.cancellation));
    }

    fn take_out(&mut self, i: usize) -> (r: TaskRecord)
        requires
            i < old(self).tasks@.len(),
        ensures
            final(self).tasks@.len() == old(self).tasks@.len() - 1,
            final(self)@.next_id == old(self)@.next_id,
            final(self)@.max_retained == old(self)@.max_retained,
            final(self)@.tasks == old(self)@.tasks.remove(i as int),
            final(self)@.flags == old(self)@.flags.remove(i as int),
            r.snapshot@ == old(self)@.tasks[i as int],
            r.cancellation == old(self)@.flags[i as int],
    {
        let ghost before = self@;
        let record = self.tasks.remove(i);
        assert(self@.tasks =~= before.tasks.remove(i as int));
        assert(self@.flags =~= before.flags.remove(i as int));
        record
    }

    fn register_task(
        &mut self,
        kind: TransferTaskKind,
        source: String,
        destination: String,
        retry_of: Option<TransferTaskId>,
    ) -> (r: Result<TransferTaskRegistration, TaskProblem>)
        requires
            old(self)@.wf(),
        ensures
            final(self)@.wf(),
            match old(self)@.with_room() {
                None => r == Err::<TransferTaskRegistration, TaskProblem>(TaskProblem::Full)
                    && final(self)@ == old(self)@,
                Some(room) => if room.next_id == u64::MAX {
                    r == Err::<TransferTaskRegistration, TaskProblem>(TaskProblem::IdsExhausted)
                        && final(self)@ == room
                } else {
                    r matches Ok(registration) && registration.task() == room.next_id
                        && final(self)@ == room.with_new_task(
                        kind,
                        source@,
                        destination@,
                        match retry_of {
                            Some(id) => Some(id.number()),
                            None => None,
                        },
                        registration.flag(),
                    )
                },
            },
    {
        let ghost start = self@;
        if self.tasks.len() >= self.max_retained {
            let mut p: usize = 0;
            let ghost all = self@.tasks;
            while p < self.tasks.len() && !self.tasks[p].snapshot.state.is_terminal()
                invariant
                    all == self@.tasks,
                    p <= self.tasks@.len(),
                    first_over(all, 0) == first_over(all, p as int),
                decreases self.tasks@.len() - p,
            {
                assert(all[p as int] == self.tasks@[p as int].snapshot@);
                p += 1;
            }
            if p >= self.tasks.len() {
                return Err(TaskProblem::Full);
            }
            assert(all[p as int] == self.tasks@[p as int].snapshot@);
            self.take_out(p);
        }
        let ghost room = self@;
        assert(start.with_room() == Some(room));
        assert(room.wf());
        let number = self.next_id;
        if number == u64::MAX {
            return Err(TaskProblem::IdsExhausted);
        }
        let id = TransferTaskId(number);
        self.next_id = number + 1;
        let cancellation = TransferCancellation::new();
        let snapshot = TransferTaskSnapshot {
            id,
            kind,
            source,
            destination,
            state: TransferTaskState::Queued,
            cancel_requested: false,
            progress: None,
            summary: None,
            error: None,
            retry_of,
        };
        let shared = cancellation.share();
        let count = self.tasks.len();
        self.put_back(count, TaskRecord { snapshot, cancellation: shared });
        assert(self@.tasks =~= room.tasks.push(snapshot@));
        assert(self@.flags =~= room.flags.push(cancellation));
        Ok(TransferTaskRegistration { id, cancellation })
    }

    /// Takes in a new task, which waits. A full register forgets its oldest
    /// task that is over.
    pub fn register(&mut self, kind: TransferTaskKind, source: &str, destination: &str) -> (r: Result<
        TransferTaskRegistration,
        TaskProblem,
    >)
        requires
            old(self)@.wf(),
        ensures
            final(self)@.wf(),
            match text_problem(source@, TaskProblem::EmptySource, TaskProblem::SourceTooLong) {
                Some(e) => r == Err::<TransferTaskRegistration, TaskProblem>(e) && final(self)@
                    == old(self)@,
                None => match text_problem(
                    destination@,
                    TaskProblem::EmptyDestination,
                    TaskProblem::DestinationTooLong,
                ) {
                    Some(e) => r == Err::<TransferTaskRegistration, TaskProblem>(e) && final(self)@
                        == old(self)@,
                    None => match old(self)@.with_room() {
                        None => r == Err::<TransferTaskRegistration, TaskProblem>(TaskProblem::Full)
                            && final(self)@ == old(self)@,
                        Some(room) => if room.next_id == u64::MAX {
                            r == Err::<TransferTaskRegistration, TaskProblem>(
                                TaskProblem::IdsExhausted,
                            ) && final(self)@ == room
                        } else {
                            r matches Ok(registration) && registration.task() == room.next_id
                                && final(self)@ == room.with_new_task(
                                kind,
                                source@,
                                destination@,
                                None,
                                registration.flag(),
                            )
                        },
                    },
                },
            },
    {
        if source.is_empty() {
            return Err(TaskProblem::EmptySource);
        }
        if byte_len(source) > MAX_TRANSFER_TASK_TEXT_BYTES {
            return Err(TaskProblem::SourceTooLong);
        }
        if destination.is_empty() {
            return Err(TaskProblem::EmptyDestination);
        }
        if byte_len(destination) > MAX_TRANSFER_TASK_TEXT_BYTES {
            return Err(TaskProblem::DestinationTooLong);
        }
        self.register_task(kind, source.to_owned(), destination.to_owned(), None)
    }

    /// Takes in a new task for one that was cancelled or failed.
    pub fn register_retry(&mut self, previous: TransferTaskId) -> (r: Result<
        TransferTaskRegistration,
        TaskProblem,
    >)
        requires
            old(self)@.wf(),
        ensures
            final(self)@.wf(),
            match old(self)@.task(previous.number()) {
                None => r == Err::<TransferTaskRegistration, TaskProblem>(TaskProblem::Unknown)
                    && final(self)@ == old(self)@,
                Some(task) => if !(task.state is Cancelled) && !(task.state is Failed) {
                    r == Err::<TransferTaskRegistration, TaskProblem>(TaskProblem::NotRetryable)
                        && final(self)@ == old(self)@
                } else {
                    match old(self)@.with_room() {
                        None => r == Err::<TransferTaskRegistration, TaskProblem>(TaskProblem::Full)
                            && final(self)@ == old(self)@,
                        Some(room) => if room.next_id == u64::MAX {
                            r == Err::<TransferTaskRegistration, TaskProblem>(
                                TaskProblem::IdsExhausted,
                            ) && final(self)@ == room
                        } else {
                            r matches Ok(registration) && registration.task() == room.next_id
                                && final(self)@ == room.with_new_task(
                                task.kind,
                                task.source,
                                task.destination,
                                Some(previous.number()),
                                registration.flag(),
                            )
                        },
                    }
                },
            },
    {
        match self.index_of(previous) {
            None => Err(TaskProblem::Unknown),
            Some(i) => {
                assert(self@.tasks[i as int] == self.tasks@[i as int].snapshot@);
                let task = &self.tasks[i].snapshot;
                let retryable = match task.state {
                    TransferTaskState::Cancelled => true,
                    TransferTaskState::Failed => true,
                    _ => false,
                };
                if !retryable {
                    return Err(TaskProblem::NotRetryable);
                }
                let kind = task.kind;
                let source = task.source.clone();
                let destination = task.destination.clone();
                self.register_task(kind, source, destination, Some(previous))
            },
        }
    }

    /// The task has started.
    pub fn mark_running(&mut self, id: TransferTaskId) -> (r: Result<(), TaskProblem>)
        requires
            old(self)@.wf(),
        ensures
            final(self)@.wf(),
            match old(self)@.task(id.number()) {
                None => r == Err::<(), TaskProblem>(TaskProblem::Unknown) && final(self)@
                    == old(self)@,
                Some(task) => if task.state is Queued {
                    r is Ok && final(self)@ == old(self)@.with_task(
                        id.number(),
                        TaskView { state: TransferTaskState::Running, ..task },
                    )
                } else {
                    r == Err::<(), TaskProblem>(TaskProblem::NotQueued) && final(self)@
                        == old(self)@
                },
            },
    {
        match self.index_of(id) {
            None => Err(TaskProblem::Unknown),
            Some(i) => {
                assert(self@.tasks[i as int] == self.tasks@[i as int].snapshot@);
                match self.tasks[i].snapshot.state {
                    TransferTaskState::Queued => {},
                    _ => {
                        return Err(TaskProblem::NotQueued);
                    },
                }
                let ghost before = self@;
                let mut record = self.take_out(i);
                record.snapshot.state = TransferTaskState::Running;
                self.put_back(i, record);
                proof {
                    lemma_replaced(before, self@, i as int, record.snapshot@);
                }
                Ok(())
            },
        }
    }

    /// Notes how far a running task has come.
    pub fn record_progress(&mut self, id: TransferTaskId, event: &TransferEvent) -> (r: Result<
        (),
        TaskProblem,
    >)
        requires
            old(self)@.wf(),
        ensures
            final(self)@.wf(),
            match old(self)@.task(id.number()) {
                None => r == Err::<(), TaskProblem>(TaskProblem::Unknown) && final(self)@
                    == old(self)@,
                Some(task) => if !(task.state is Running) {
                    r == Err::<(), TaskProblem>(TaskProblem::NotRunning) && final(self)@
                        == old(self)@
                } else if event.direction != task.kind.towards() {
                    r == Err::<(), TaskProblem>(TaskProblem::WrongDirection) && final(self)@
                        == old(self)@
                } else {
                    r is Ok && final(self)@ == old(self)@.with_task(
                        id.number(),
                        TaskView {
                            progress: Some(
                                TaskProgressView {
                                    path: bounded(event.path@),
                                    bytes_transferred: event.bytes_transferred,
                                    total_bytes: event.total_bytes,
                                    completed: event.completed,
                                },
                            ),
                            ..task
                        },
                    )
                },
            },
    {
        match self.index_of(id) {
            None => Err(TaskProblem::Unknown),
            Some(i) => {
                assert(self@.tasks[i as int] == self.tasks@[i as int].snapshot@);
                match self.tasks[i].snapshot.state {
                    TransferTaskState::Running => {},
                    _ => {
                        return Err(TaskProblem::NotRunning);
                    },
                }
                if event.direction != self.tasks[i].snapshot.kind.direction() {
                    return Err(TaskProblem::WrongDirection);
                }
                let ghost before = self@;
                let mut record = self.take_out(i);
                record.snapshot.progress =
                Some(
                    TransferTaskProgress {
                        path: bounded_text(event.path.as_str()),
                        bytes_transferred: event.bytes_transferred,
                        total_bytes: event.total_bytes,
                        completed: event.completed,
                    },
                );
                self.put_back(i, record);
                proof {
                    lemma_replaced(before, self@, i as int, record.snapshot@);
                }
                Ok(())
            },
        }
    }

    /// Asks a task to stop, once. The flag of the task is set, which whoever
    /// holds a copy of it sees.
    pub fn request_cancel(&mut self, id: TransferTaskId) -> (r: Result<bool, TaskProblem>)
        requires
            old(self)@.wf(),
        ensures
            final(self)@.wf(),
            (final(self)@, r) == old(self)@.with_cancel(id.number()),
    {
        match self.index_of(id) {
            None => Err(TaskProblem::Unknown),
            Some(i) => {
                assert(self@.tasks[i as int] == self.tasks@[i as int].snapshot@);
                if self.tasks[i].snapshot.state.is_terminal()
                    || self.tasks[i].snapshot.cancel_requested {
                    return Ok(false);
                }
                let ghost before = self@;
                let mut record = self.take_out(i);
                record.snapshot.cancel_requested = true;
                record.cancellation.cancel();
                self.put_back(i, record);
                proof {
                    lemma_replaced(before, self@, i as int, record.snapshot@);
                }
                Ok(true)
            },
        }
    }

    /// A running task has done its work.
    pub fn complete(&mut self, id: TransferTaskId, summary: TransferSummary) -> (r: Result<
        (),
        TaskProblem,
    >)
        requires
            old(self)@.wf(),
        ensures
            final(self)@.wf(),
            match old(self)@.task(id.number()) {
                None => r == Err::<(), TaskProblem>(TaskProblem::Unknown) && final(self)@
                    == old(self)@,
                Some(task) => if task.state is Running {
                    r is Ok && final(self)@ == old(self)@.with_task(
                        id.number(),
                        TaskView {
                            state: TransferTaskState::Completed,
                            summary: Some(summary),
                            error: None,
                            ..task
                        },
                    )
                } else {
                    r == Err::<(), TaskProblem>(TaskProblem::NotRunning) && final(self)@
                        == old(self)@
                },
            },
    {
        match self.index_of(id) {
            None => Err(TaskProblem::Unknown),
            Some(i) => {
                assert(self@.tasks[i as int] == self.tasks@[i as int].snapshot@);
                match self.tasks[i].snapshot.state {
                    TransferTaskState::Running => {},
                    _ => {
                        return Err(TaskProblem::NotRunning);
                    },
                }
                let ghost before = self@;
                let mut record = self.take_out(i);
                record.snapshot.state = TransferTaskState::Completed;
                record.snapshot.summary = Some(summary);
                record.snapshot.error = None;
                self.put_back(i, record);
                proof {
                    lemma_replaced(before, self@, i as int, record.snapshot@);
                }
                Ok(())
            },
        }
    }

    /// A task has stopped because it was asked to. The flag of the task is set.
    pub fn mark_cancelled(&mut self, id: TransferTaskId) -> (r: Result<(), TaskProblem>)
        requires
            old(self)@.wf(),
        ensures
            final(self)@.wf(),
            match old(self)@.task(id.number()) {
                None => r == Err::<(), TaskProblem>(TaskProblem::Unknown) && final(self)@
                    == old(self)@,
                Some(task) => if !task.state.is_over() {
                    r is Ok && final(self)@ == old(self)@.with_task(
                        id.number(),
                        TaskView {
                            state: TransferTaskState::Cancelled,
                            cancel_requested: true,
                            ..task
                        },
                    )
                } else {
                    r == Err::<(), TaskProblem>(TaskProblem::NotCancellable) && final(self)@
                        == old(self)@
                },
            },
    {
        match self.index_of(id) {
            None => Err(TaskProblem::Unknown),
            Some(i) => {
                assert(self@.tasks[i as int] == self.tasks@[i as int].snapshot@);
                if self.tasks[i].snapshot.state.is_terminal() {
                    return Err(TaskProblem::NotCancellable);
                }
                let ghost before = self@;
                let mut record = self.take_out(i);
                record.snapshot.cancel_requested = true;
                record.cancellation.cancel();
                record.snapshot.state = TransferTaskState::Cancelled;
                self.put_back(i, record);
                proof {
                    lemma_replaced(before, self@, i as int, record.snapshot@);
                }
                Ok(())
            },
        }
    }

    /// A running task has failed.
    pub fn fail(&mut self, id: TransferTaskId, error: &str) -> (r: Result<(), TaskProblem>)
        requires
            old(self)@.wf(),
        ensures
            final(self)@.wf(),
            match old(self)@.task(id.number()) {
                None => r == Err::<(), TaskProblem>(TaskProblem::Unknown) && final(self)@
                    == old(self)@,
                Some(task) => if task.state is Running {
                    r is Ok && final(self)@ == old(self)@.with_task(
                        id.number(),
                        TaskView {
                            state: TransferTaskState::Failed,
                            error: Some(bounded(error@)),
                            ..task
                        },
                    )
                } else {
                    r == Err::<(), TaskProblem>(TaskProblem::NotRunning) && final(self)@
                        == old(self)@
                },
            },
    {
        match self.index_of(id) {
            None => Err(TaskProblem::Unknown),
            Some(i) => {
                assert(self@.tasks[i as int] == self.tasks@[i as int].snapshot@);
                match self.tasks[i].snapshot.state {
                    TransferTaskState::Running => {},
                    _ => {
                        return Err(TaskProblem::NotRunning);
                    },
                }
                let ghost before = self@;
                let mut record = self.take_out(i);
                record.snapshot.state = TransferTaskState::Failed;
                record.snapshot.error = Some(bounded_text(error));
                self.put_back(i, record);
                proof {
                    lemma_replaced(before, self@, i as int, record.snapshot@);
                }
                Ok(())
            },
        }
    }

    /// The flag that stops a task.
    pub fn cancellation(&self, id: TransferTaskId) -> (r: Result<TransferCancellation, TaskProblem>)
        ensures
            match r {
                Ok(flag) => self@.task(id.number()) is Some && flag == self@.flags[task_index(
                    self@.tasks,
                    id.number(),
                    0,
                )],
                Err(e) => self@.task(id.number()) is None && e == TaskProblem::Unknown,
            },
    {
        match self.index_of(id) {
            None => Err(TaskProblem::Unknown),
            Some(i) => {
                assert(self@.flags[i as int] == self.tasks@[i as int].cancellation);
                Ok(self.tasks[i].cancellation.share())
            },
        }
    }

    pub fn get(&self, id: TransferTaskId) -> (r: Option<TransferTaskSnapshot>)
        ensures
            match r {
                Some(snapshot) => self@.task(id.number()) == Some(snapshot@),
                None => self@.task(id.number()) is None,
            },
    {
        match self.index_of(id) {
            None => None,
            Some(i) => {
                assert(self@.tasks[i as int] == self.tasks@[i as int].snapshot@);
                Some(self.tasks[i].snapshot.copy())
            },
        }
    }

    /// The latest tasks, the last one first.
    pub fn recent(&self, limit: usize) -> (r: Vec<TransferTaskSnapshot>)
        ensures
            r@.map_values(|s: TransferTaskSnapshot| s@) == Seq::new(
                if limit < self@.tasks.len() {
                    limit as nat
                } else {
                    self@.tasks.len()
                },
                |k: int| self@.tasks[self@.tasks.len() - 1 - k],
            ),
    {
        let count = self.tasks.len();
        let wanted = if limit < count {
            limit
        } else {
            count
        };
        let mut out: Vec<TransferTaskSnapshot> = Vec::new();
        let mut i: usize = 0;
        while i < wanted
            invariant
                count == self.tasks@.len(),
                count == self@.tasks.len(),
                i <= wanted <= count,
                out@.len() == i,
                forall|k: int| 0 <= k < i ==> (#[trigger] out@[k])@ == self@.tasks[count - 1 - k],
            decreases wanted - i,
        {
            assert(self@.tasks[count - 1 - i] == self.tasks@[count - 1 - i].snapshot@);
            out.push(self.tasks[count - 1 - i].snapshot.copy());
            i += 1;
        }
        assert(out@.map_values(|s: TransferTaskSnapshot| s@) =~= Seq::new(
            wanted as nat,
            |k: int| self@.tasks[self@.tasks.len() - 1 - k],
        ));
        out
    }

    /// Forgets the tasks that are over, and tells how many there were.
    pub fn clear_finished(&mut self) -> (r: usize)
        requires
            old(self)@.wf(),
        ensures
            final(self)@.wf(),
            final(self)@.next_id == old(self)@.next_id,
            final(self)@.max_retained == old(self)@.max_retained,
            final(self)@.tasks == unfinished(old(self)@.tasks),
            final(self)@.flags == unfinished_flags(old(self)@.tasks, old(self)@.flags),
            r == old(self)@.tasks.len() - unfinished(old(self)@.tasks).len(),
    {
        let ghost start = self@;
        let mut cleared: usize = 0;
        let mut i: usize = 0;
        assert(start.tasks.take(0) =~= Seq::<TaskView>::empty());
        assert(unfinished(start.tasks.take(0)) =~= Seq::<TaskView>::empty());
        assert(self@.tasks =~= unfinished(start.tasks.take(0)) + start.tasks.skip(0));
        assert(self@.flags =~= unfinished_flags(start.tasks.take(0), start.flags.take(0))
            + start.flags.skip(0));
        while i < self.tasks.len()
            invariant
                self@.wf(),
                start.wf(),
                self@.next_id == start.next_id,
                self@.max_retained == start.max_retained,
                i <= self.tasks@.len(),
                self.tasks@.len() == self@.tasks.len(),
                cleared + self@.tasks.len() == start.tasks.len(),
                i == unfinished(start.tasks.take(i + cleared)).len(),
                self@.tasks == unfinished(start.tasks.take(i + cleared)) + start.tasks.skip(
                    i + cleared,
                ),
                i == unfinished_flags(
                    start.tasks.take(i + cleared),
                    start.flags.take(i + cleared),
                ).len(),
                self@.flags == unfinished_flags(
                    start.tasks.take(i + cleared),
                    start.flags.take(i + cleared),
                ) + start.flags.skip(i + cleared),
            decreases self.tasks@.len() - i,
        {
            let ghost k = i + cleared;
            let ghost head = start.tasks.take(k + 1);
            let ghost marks = start.flags.take(k + 1);
            assert(marks.drop_last() =~= start.flags.take(k));
            assert(marks.last() == start.flags[k]);
            assert(self@.tasks[i as int] == start.tasks[k]);
            assert(self@.tasks[i as int] == self.tasks@[i as int].snapshot@);
            assert(head.drop_last() =~= start.tasks.take(k));
            assert(head.last() == start.tasks[k]);
            if self.tasks[i].snapshot.state.is_terminal() {
                let ghost before = self@;
                self.take_out(i);
                cleared += 1;
                proof {
                    assert forall|a: int, b: int| 0 <= a < b < self@.tasks.len() implies (
                    #[trigger] self@.tasks[a]).id < (#[trigger] self@.tasks[b]).id by {
                        let oa = if a < i { a } else { a + 1 };
                        let ob = if b < i { b } else { b + 1 };
                        assert(self@.tasks[a] == before.tasks[oa]);
                        assert(self@.tasks[b] == before.tasks[ob]);
                    }
                    assert(self@.tasks =~= unfinished(head) + start.tasks.skip(k + 1));
                    assert(self@.flags =~= unfinished_flags(head, marks) + start.flags.skip(k + 1));
                }
            } else {
                assert(self@.tasks =~= unfinished(head) + start.tasks.skip(k + 1));
                assert(self@.flags =~= unfinished_flags(head, marks) + start.flags.skip(k + 1));
                i += 1;
            }
        }
        assert(start.tasks.take(start.tasks.len() as int) =~= start.tasks);
        assert(self@.tasks =~= unfinished(start.tasks));
        assert(start.flags.take(start.tasks.len() as int) =~= start.flags);
        assert(self@.flags =~= unfinished_flags(start.tasks, start.flags));
        cleared
    }
}

proof fn lemma_replaced(before: RegistryView, after: RegistryView, i: int, task: TaskView)
    requires
        before.wf(),
        0 <= i < before.tasks.len(),
        after.next_id == before.next_id,
        after.max_retained == before.max_retained,
        after.tasks == before.tasks.remove(i).insert(i, task),
        after.flags == before.flags.remove(i).insert(i, before.flags[i]),
        task.id == before.tasks[i].id,
    ensures
        after.wf(),
        after.tasks == before.tasks.update(i, task),
        after.flags == before.flags,
{
    assert(after.tasks =~= before.tasks.update(i, task));
    assert(after.flags =~= before.flags);
}

/// Numbers tell tasks apart: no two tasks of a register have the same.
pub proof fn task_numbers_are_unique(registry: RegistryView, i: int, j: int)
    requires
        registry.wf(),
        0 <= i < registry.tasks.len(),
        0 <= j < registry.tasks.len(),
        registry.tasks[i].id == registry.tasks[j].id,
    ensures
        i == j,
{
}

/// A task is asked to stop once: its state stays, and asking again changes
/// nothing.
pub proof fn tasks_are_asked_to_stop_once(registry: RegistryView, id: u64)
    requires
        registry.wf(),
    ensures
        ({
            let (asked, answer) = registry.with_cancel(id);
            &&& answer is Err <==> registry.task(id) is None
            &&& answer is Ok ==> {
                &&& asked.with_cancel(id) == (asked, Ok::<bool, TaskProblem>(false))
                &&& asked.task(id) matches Some(task) && task.state == registry.task(id)->0.state
                &&& asked.flags == registry.flags
            }
            &&& answer == Ok::<bool, TaskProblem>(true) ==> {
                &&& !registry.task(id)->0.cancel_requested
                &&& asked.task(id) matches Some(task) && task.cancel_requested
            }
        }),
{
    lemma_task_index(registry.tasks, id, 0);
    let asked = registry.with_cancel(id).0;
    lemma_task_index(asked.tasks, id, 0);
    let p = task_index(registry.tasks, id, 0);
    let q = task_index(asked.tasks, id, 0);
    if p < registry.tasks.len() {
        assert(asked.tasks[p].id == id);
        assert(q <= p);
        if q < p {
            assert(asked.tasks[q] == registry.tasks[q]);
        }
    }
}

proof fn lemma_first_over(tasks: Seq<TaskView>, i: int)
    requires
        0 <= i <= tasks.len(),
    ensures
        i <= first_over(tasks, i) <= tasks.len(),
        first_over(tasks, i) < tasks.len() ==> tasks[first_over(tasks, i)].state.is_over(),
        forall|k: int| i <= k < first_over(tasks, i) ==> !tasks[k].state.is_over(),
    decreases tasks.len() - i,
{
    if i < tasks.len() && !tasks[i].state.is_over() {
        lemma_first_over(tasks, i + 1);
    }
}

/// Making room never forgets a task that is not over, nor one that came after
/// another that is over.
pub proof fn active_tasks_are_kept(registry: RegistryView, id: u64)
    requires
        registry.wf(),
        registry.task(id) matches Some(task) && !task.state.is_over(),
    ensures
        registry.with_room() matches Some(room) ==> room.task(id) == registry.task(id),
{
    lemma_task_index(registry.tasks, id, 0);
    lemma_first_over(registry.tasks, 0);
    let p = task_index(registry.tasks, id, 0);
    let q = first_over(registry.tasks, 0);
    if let Some(room) = registry.with_room() {
        if registry.tasks.len() >= registry.max_retained {
            lemma_task_index(room.tasks, id, 0);
            let n = if p < q {
                p
            } else {
                p - 1
            };
            assert(room.tasks[n] == registry.tasks[p]);
            let m = task_index(room.tasks, id, 0);
            assert(m <= n);
            let o = if m < q {
                m
            } else {
                m + 1
            };
            assert(room.tasks[m] == registry.tasks[o]);
        }
    }
}

} // verus!
