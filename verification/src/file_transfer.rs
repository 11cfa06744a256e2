//! The transfer of one file, step by step.
//!
//! A transfer alternates between work outside (looking up files, copying,
//! renaming) and decisions. Here stand the decisions: each step takes in what
//! the last action brought and says what to do next.

use vstd::prelude::*;

use crate::nodes::Node;
use crate::transfer::count_copied;
use crate::transfer::start_in_place;
use crate::transfer::OpenMode;
use crate::transfer::TransferDirection;
use crate::transfer::TransferOptions;
use crate::transfer::TransferProblem;
use crate::transfer::TransferStart;
use crate::transfer_policy::ensure_atomic_destination_absent;
use crate::transfer_policy::start_atomic;

verus! {

/// What is awaited.
#[derive(Debug, Clone, Copy, PartialEq, Eq, Structural)]
pub enum Phase {
    Begin,
    /// What stands at the source.
    Source,
    /// That the directory of the destination is there.
    Parent { source: Node },
    /// What stands at the destination of an atomic transfer.
    Destination { source: Node },
    /// What stands where the bytes go.
    Work { source: Node, destination: Node },
    /// That both files are open.
    Open { offset: u64, total: u64 },
    /// The next bytes.
    Copying { offset: u64, total: u64, copied: u64 },
    /// That all bytes are out.
    Flush { total: u64, copied: u64 },
    /// That the time of the source was kept.
    Time { total: u64, copied: u64 },
    /// What stands at the destination just before it is published there.
    Recheck { total: u64, copied: u64 },
    /// That the file appeared at its destination.
    Publish { total: u64, copied: u64 },
    /// That the part of a failed transfer is gone.
    Cleanup { problem: TransferProblem },
    Finished,
}

/// What the last action brought.
#[derive(Debug, Clone, Copy, PartialEq, Eq, Structural)]
pub enum FileEvent {
    /// It was done.
    Done,
    /// What was found at the source or the destination.
    Found(Node),
    /// What was found where the bytes go, and how long it is said to be. (That
    /// counts for what is no file.)
    FoundWork { node: Node, len: u64 },
    /// So many bytes were read and written; none at the end.
    Copied(u64),
    /// It failed; `Interrupted` where the file system or the server says so.
    Failed(TransferProblem),
}

/// What to do next.
#[derive(Debug, Clone, Copy, PartialEq, Eq, Structural)]
pub enum FileAction {
    LookAtSource,
    /// Make the directories of the destination, following no link.
    MakeParent,
    LookAtDestination,
    LookAtWork,
    /// Open both files, the one that is written in this mode, at this offset.
    Open { mode: OpenMode, offset: u64 },
    CopyChunk,
    Flush,
    /// Keep the time of the source, on the file where the bytes went or on the
    /// destination.
    KeepTime { on_work: bool },
    Publish,
    RemoveWork,
    Finish { copied: u64 },
    Fail(TransferProblem),
}

/// Progress to tell before the action: so many bytes of the total, and whether
/// that is all.
#[derive(Debug, Clone, Copy, PartialEq, Eq, Structural)]
pub struct Progress {
    pub bytes: u64,
    pub total: u64,
    pub completed: bool,
}

#[derive(Debug, Clone, Copy, PartialEq, Eq, Structural)]
pub struct FileStep {
    pub progress: Option<Progress>,
    pub action: FileAction,
}

/// The transfer of a file.
#[derive(Debug, Clone, Copy, PartialEq, Eq, Structural)]
pub struct FileTransfer {
    pub direction: TransferDirection,
    pub atomic: bool,
    pub resume: bool,
    pub phase: Phase,
    /// It was published at its destination.
    pub published: bool,
}

pub open spec fn quietly(action: FileAction) -> FileStep {
    FileStep { progress: None, action }
}

/// The same step, with progress told before it.
pub open spec fn telling(step: (FileTransfer, FileStep), progress: Progress) -> (
    FileTransfer,
    FileStep,
) {
    (step.0, FileStep { progress: Some(progress), action: step.1.action })
}

fn quiet(action: FileAction) -> (r: FileStep)
    ensures
        r == quietly(action),
{
    FileStep { progress: None, action }
}

impl FileTransfer {
    pub open spec fn at(self, phase: Phase) -> FileTransfer {
        FileTransfer { phase, ..self }
    }

    /// The transfer ends without success. The part of a download that cannot
    /// be gone on with is removed first, once bytes were copied to it.
    pub open spec fn failing(self, problem: TransferProblem, copied_any: bool) -> (
        FileTransfer,
        FileStep,
    ) {
        if copied_any && self.direction is Download && self.atomic && !self.resume {
            (self.at(Phase::Cleanup { problem }), quietly(FileAction::RemoveWork))
        } else {
            (self.at(Phase::Finished), quietly(FileAction::Fail(problem)))
        }
    }

    /// All is in place.
    pub open spec fn finishing(self, total: u64, copied: u64) -> (FileTransfer, FileStep) {
        (
            self.at(Phase::Finished),
            FileStep {
                progress: Some(Progress { bytes: total, total, completed: true }),
                action: FileAction::Finish { copied },
            },
        )
    }

    /// All bytes are out. What is published is published; the time of the
    /// source is kept on a download before that, on an upload after it.
    pub open spec fn settling(self, total: u64, copied: u64) -> (FileTransfer, FileStep) {
        if self.atomic && self.direction is Upload {
            (self.at(Phase::Recheck { total, copied }), quietly(FileAction::LookAtDestination))
        } else {
            (
                self.at(Phase::Time { total, copied }),
                quietly(FileAction::KeepTime { on_work: self.atomic }),
            )
        }
    }

    /// The transfer starts as was decided.
    pub open spec fn starting(self, start: Result<TransferStart, TransferProblem>) -> (
        FileTransfer,
        FileStep,
    ) {
        match start {
            Err(problem) => self.failing(problem, false),
            Ok(TransferStart::Complete { total }) => if self.atomic {
                self.settling(total, 0)
            } else {
                self.finishing(total, 0)
            },
            Ok(TransferStart::Copy { offset, total, open }) => (
                self.at(Phase::Open { offset, total }),
                quietly(FileAction::Open { mode: open, offset }),
            ),
        }
    }

    /// The transfer after an event, and what to do next.
    pub open spec fn after(self, event: FileEvent, cancelled: bool) -> (FileTransfer, FileStep) {
        match (self.phase, event) {
            (Phase::Begin, _) => if cancelled {
                self.failing(TransferProblem::Cancelled, false)
            } else {
                (self.at(Phase::Source), quietly(FileAction::LookAtSource))
            },
            (Phase::Cleanup { problem }, _) => (
                self.at(Phase::Finished),
                quietly(FileAction::Fail(problem)),
            ),
            (Phase::Copying { .. }, FileEvent::Failed(problem)) => self.failing(problem, true),
            (Phase::Publish { .. }, FileEvent::Failed(problem)) => self.failing(problem, true),
            (_, FileEvent::Failed(problem)) => self.failing(problem, false),
            (Phase::Source, FileEvent::Found(source)) => if source is Link {
                self.failing(TransferProblem::SourceIsLink, false)
            } else if !(source is File) {
                self.failing(TransferProblem::SourceNotFile, false)
            } else {
                (self.at(Phase::Parent { source }), quietly(FileAction::MakeParent))
            },
            (Phase::Parent { source }, FileEvent::Done) => if self.atomic {
                (self.at(Phase::Destination { source }), quietly(FileAction::LookAtDestination))
            } else {
                (
                    self.at(Phase::Work { source, destination: Node::Missing }),
                    quietly(FileAction::LookAtWork),
                )
            },
            (Phase::Destination { source }, FileEvent::Found(destination)) =>
                match crate::transfer_policy::destination_problem(destination) {
                    Some(problem) => self.failing(problem, false),
                    None => (
                        self.at(Phase::Work { source, destination }),
                        quietly(FileAction::LookAtWork),
                    ),
                },
            (Phase::Work { source, destination }, FileEvent::FoundWork { node, len }) => self.starting(
                if self.atomic {
                    crate::transfer_policy::atomic_start(
                        self.resume,
                        false,
                        source,
                        destination,
                        node,
                    )
                } else {
                    crate::transfer::in_place_start(
                        self.direction,
                        self.resume,
                        false,
                        source,
                        node,
                        len,
                    )
                },
            ),
            (Phase::Open { offset, total }, FileEvent::Done) => if cancelled {
                telling(
                    self.failing(TransferProblem::Cancelled, true),
                    Progress { bytes: offset, total, completed: false },
                )
            } else {
                (
                    self.at(Phase::Copying { offset, total, copied: 0 }),
                    FileStep {
                        progress: Some(Progress { bytes: offset, total, completed: false }),
                        action: FileAction::CopyChunk,
                    },
                )
            },
            (Phase::Copying { offset, total, copied }, FileEvent::Copied(n)) => if n == 0 {
                (self.at(Phase::Flush { total, copied }), quietly(FileAction::Flush))
            } else if offset + copied + n > u64::MAX {
                self.failing(TransferProblem::CounterOverflow, true)
            } else if cancelled {
                telling(
                    self.failing(TransferProblem::Cancelled, true),
                    Progress { bytes: (offset + copied + n) as u64, total, completed: false },
                )
            } else {
                (
                    self.at(Phase::Copying { offset, total, copied: (copied + n) as u64 }),
                    FileStep {
                        progress: Some(
                            Progress {
                                bytes: (offset + copied + n) as u64,
                                total,
                                completed: false,
                            },
                        ),
                        action: FileAction::CopyChunk,
                    },
                )
            },
            (Phase::Flush { total, copied }, FileEvent::Done) => self.settling(total, copied),
            (Phase::Recheck { total, copied }, FileEvent::Found(destination)) =>
                match crate::transfer_policy::destination_problem(destination) {
                    Some(problem) => self.failing(problem, false),
                    None => (
                        self.at(Phase::Publish { total, copied }),
                        quietly(FileAction::Publish),
                    ),
                },
            (Phase::Publish { total, copied }, FileEvent::Done) => {
                let done = FileTransfer { published: true, ..self };
                if self.direction is Upload {
                    (
                        done.at(Phase::Time { total, copied }),
                        quietly(FileAction::KeepTime { on_work: false }),
                    )
                } else {
                    done.finishing(total, copied)
                }
            },
            (Phase::Time { total, copied }, FileEvent::Done) => if self.atomic
                && self.direction is Download {
                (self.at(Phase::Publish { total, copied }), quietly(FileAction::Publish))
            } else {
                self.finishing(total, copied)
            },
            _ => self.failing(TransferProblem::OutOfStep, false),
        }
    }

    fn fail(&mut self, problem: TransferProblem, copied_any: bool) -> (r: FileStep)
        ensures
            (*final(self), r) == old(self).failing(problem, copied_any),
    {
        let download = match self.direction {
            TransferDirection::Download => true,
            TransferDirection::Upload => false,
        };
        if copied_any && download && self.atomic && !self.resume {
            self.phase = Phase::Cleanup { problem };
            quiet(FileAction::RemoveWork)
        } else {
            self.phase = Phase::Finished;
            quiet(FileAction::Fail(problem))
        }
    }

    fn finish(&mut self, total: u64, copied: u64) -> (r: FileStep)
        ensures
            (*final(self), r) == old(self).finishing(total, copied),
    {
        self.phase = Phase::Finished;
        FileStep {
            progress: Some(Progress { bytes: total, total, completed: true }),
            action: FileAction::Finish { copied },
        }
    }

    fn settle(&mut self, total: u64, copied: u64) -> (r: FileStep)
        ensures
            (*final(self), r) == old(self).settling(total, copied),
    {
        let upload = match self.direction {
            TransferDirection::Upload => true,
            TransferDirection::Download => false,
        };
        if self.atomic && upload {
            self.phase = Phase::Recheck { total, copied };
            quiet(FileAction::LookAtDestination)
        } else {
            self.phase = Phase::Time { total, copied };
            quiet(FileAction::KeepTime { on_work: self.atomic })
        }
    }

    fn start(&mut self, decided: Result<TransferStart, TransferProblem>) -> (r: FileStep)
        ensures
            (*final(self), r) == old(self).starting(decided),
    {
        match decided {
            Err(problem) => self.fail(problem, false),
            Ok(TransferStart::Complete { total }) => if self.atomic {
                self.settle(total, 0)
            } else {
                self.finish(total, 0)
            },
            Ok(TransferStart::Copy { offset, total, open }) => {
                self.phase = Phase::Open { offset, total };
                quiet(FileAction::Open { mode: open, offset })
            },
        }
    }

    /// A transfer that has not begun.
    pub fn new(direction: TransferDirection, options: &TransferOptions) -> (r: Self)
        ensures
            r == (FileTransfer {
                direction,
                atomic: options.atomic,
                resume: options.resume,
                phase: Phase::Begin,
                published: false,
            }),
    {
        FileTransfer {
            direction,
            atomic: options.atomic,
            resume: options.resume,
            phase: Phase::Begin,
            published: false,
        }
    }

    /// Takes in what the last action brought and says what to do next. What is
    /// brought before the first action does not matter.
    pub fn step(&mut self, event: FileEvent, cancelled: bool) -> (r: FileStep)
        ensures
            (*final(self), r) == old(self).after(event, cancelled),
    {
        match (self.phase, event) {
            (Phase::Begin, _) => {
                if cancelled {
                    return self.fail(TransferProblem::Cancelled, false);
                }
                self.phase = Phase::Source;
                quiet(FileAction::LookAtSource)
            },
            (Phase::Cleanup { problem }, _) => {
                self.phase = Phase::Finished;
                quiet(FileAction::Fail(problem))
            },
            (Phase::Copying { .. }, FileEvent::Failed(problem)) => self.fail(problem, true),
            (Phase::Publish { .. }, FileEvent::Failed(problem)) => self.fail(problem, true),
            (_, FileEvent::Failed(problem)) => self.fail(problem, false),
            (Phase::Source, FileEvent::Found(source)) => match source {
                Node::Link => self.fail(TransferProblem::SourceIsLink, false),
                Node::File { .. } => {
                    self.phase = Phase::Parent { source };
                    quiet(FileAction::MakeParent)
                },
                _ => self.fail(TransferProblem::SourceNotFile, false),
            },
            (Phase::Parent { source }, FileEvent::Done) => if self.atomic {
                self.phase = Phase::Destination { source };
                quiet(FileAction::LookAtDestination)
            } else {
                self.phase = Phase::Work { source, destination: Node::Missing };
                quiet(FileAction::LookAtWork)
            },
            (Phase::Destination { source }, FileEvent::Found(destination)) =>
                match ensure_atomic_destination_absent(destination) {
                    Err(problem) => self.fail(problem, false),
                    Ok(()) => {
                        self.phase = Phase::Work { source, destination };
                        quiet(FileAction::LookAtWork)
                    },
                },
            (Phase::Work { source, destination }, FileEvent::FoundWork { node, len }) => {
                let decided = if self.atomic {
                    start_atomic(self.resume, false, source, destination, node)
                } else {
                    start_in_place(self.direction, self.resume, false, source, node, len)
                };
                self.start(decided)
            },
            (Phase::Open { offset, total }, FileEvent::Done) => {
                let progress = Some(Progress { bytes: offset, total, completed: false });
                if cancelled {
                    let failed = self.fail(TransferProblem::Cancelled, true);
                    return FileStep { progress, action: failed.action };
                }
                self.phase = Phase::Copying { offset, total, copied: 0 };
                FileStep { progress, action: FileAction::CopyChunk }
            },
            (Phase::Copying { offset, total, copied }, FileEvent::Copied(n)) => {
                if n == 0 {
                    self.phase = Phase::Flush { total, copied };
                    return quiet(FileAction::Flush);
                }
                match count_copied(copied, n, offset) {
                    Err(problem) => self.fail(problem, true),
                    Ok(counts) => {
                        let progress = Some(
                            Progress { bytes: counts.1, total, completed: false },
                        );
                        if cancelled {
                            let failed = self.fail(TransferProblem::Cancelled, true);
                            return FileStep { progress, action: failed.action };
                        }
                        self.phase = Phase::Copying { offset, total, copied: counts.0 };
                        FileStep { progress, action: FileAction::CopyChunk }
                    },
                }
            },
            (Phase::Flush { total, copied }, FileEvent::Done) => self.settle(total, copied),
            (Phase::Recheck { total, copied }, FileEvent::Found(destination)) =>
                match ensure_atomic_destination_absent(destination) {
                    Err(problem) => self.fail(problem, false),
                    Ok(()) => {
                        self.phase = Phase::Publish { total, copied };
                        quiet(FileAction::Publish)
                    },
                },
            (Phase::Publish { total, copied }, FileEvent::Done) => {
                self.published = true;
                match self.direction {
                    TransferDirection::Upload => {
                        self.phase = Phase::Time { total, copied };
                        quiet(FileAction::KeepTime { on_work: false })
                    },
                    TransferDirection::Download => self.finish(total, copied),
                }
            },
            (Phase::Time { total, copied }, FileEvent::Done) => match self.direction {
                TransferDirection::Download => if self.atomic {
                    self.phase = Phase::Publish { total, copied };
                    quiet(FileAction::Publish)
                } else {
                    self.finish(total, copied)
                },
                TransferDirection::Upload => self.finish(total, copied),
            },
            _ => self.fail(TransferProblem::OutOfStep, false),
        }
    }

    /// What holds of a transfer at every step.
    pub open spec fn wf(self) -> bool {
        &&& match self.phase {
            Phase::Parent { source } => source is File,
            Phase::Destination { source } => source is File && self.atomic,
            Phase::Work { source, destination } => source is File && destination is Missing,
            Phase::Open { offset, total } => offset <= total,
            Phase::Copying { offset, total, copied } => offset <= total && offset + copied
                <= u64::MAX,
            Phase::Time { .. } => self.published == (self.atomic && self.direction is Upload),
            Phase::Recheck { .. } => self.atomic && self.direction is Upload,
            Phase::Publish { .. } => self.atomic,
            _ => true,
        }
        &&& self.published ==> self.atomic
        &&& !(self.phase is Time) && !(self.phase is Finished) ==> !self.published
    }

    /// How far a transfer has come.
    pub open spec fn stage(self) -> int {
        match self.phase {
            Phase::Begin => 0,
            Phase::Source => 1,
            Phase::Parent { .. } => 2,
            Phase::Destination { .. } => 3,
            Phase::Work { .. } => 4,
            Phase::Open { .. } => 5,
            Phase::Copying { .. } => 6,
            Phase::Flush { .. } => 7,
            Phase::Recheck { .. } => 8,
            Phase::Time { .. } => if self.direction is Download {
                8
            } else {
                10
            },
            Phase::Publish { .. } => 9,
            Phase::Cleanup { .. } => 11,
            Phase::Finished => 12,
        }
    }
}

/// Every step keeps what holds of a transfer, and leads on, but for the copying
/// of more bytes; so every transfer ends once its source does.
pub proof fn transfers_go_on(transfer: FileTransfer, event: FileEvent, cancelled: bool)
    requires
        transfer.wf(),
    ensures
        transfer.after(event, cancelled).0.wf(),
        !(transfer.phase is Finished) ==> transfer.after(event, cancelled).0.stage()
            > transfer.stage() || (transfer.phase is Copying && transfer.after(
            event,
            cancelled,
        ).0.phase is Copying && (event matches FileEvent::Copied(n) && n > 0)),
{
}

/// An atomic transfer ends well only after it was published, and one that is
/// not atomic is never published.
pub proof fn atomic_transfers_are_published(
    transfer: FileTransfer,
    event: FileEvent,
    cancelled: bool,
)
    requires
        transfer.wf(),
        transfer.after(event, cancelled).1.action is Finish,
    ensures
        transfer.after(event, cancelled).0.published == transfer.atomic,
{
}

/// A file that an atomic transfer writes to is never cut short: it is created,
/// or gone on with at its end.
pub proof fn atomic_transfers_keep_bytes(
    transfer: FileTransfer,
    event: FileEvent,
    cancelled: bool,
)
    requires
        transfer.wf(),
        transfer.atomic,
    ensures
        transfer.after(event, cancelled).1.action matches FileAction::Open { mode, offset } ==> {
            &&& !mode.truncate
            &&& event matches FileEvent::FoundWork { node: work, .. } && (work is File && offset
                == work->len && !mode.create || work is Missing && offset == 0 && mode.create
                && mode.exclusive)
        },
{
}

/// Progress never goes back, and is complete only at the end.
pub proof fn progress_goes_on(transfer: FileTransfer, event: FileEvent, cancelled: bool)
    requires
        transfer.wf(),
    ensures
        ({
            let (next, step) = transfer.after(event, cancelled);
            &&& step.progress matches Some(p) ==> p.completed == (step.action is Finish)
            &&& step.action is Finish ==> (step.progress matches Some(p) && p.bytes == p.total)
            &&& match (transfer.phase, next.phase) {
                (
                    Phase::Copying { offset: a, total: t, copied: x },
                    Phase::Copying { offset: b, total: u, copied: y },
                ) => a == b && t == u && x < y && step.progress == Some(
                    Progress { bytes: (a + y) as u64, total: t, completed: false },
                ),
                _ => true,
            }
        }),
{
}

} // verus!
