//! File transfers: their limits, where a copy starts, and how trees are walked.

use vstd::prelude::*;
use vstd::string::*;

use std::sync::Arc;

use crate::nodes::Node;
use crate::paths::absolute;
use crate::paths::join_path;
use crate::paths::significant_parts;
use crate::remote_path::join_remote_under_root;
use crate::remote_path::local_path_from_remote_relative;
use crate::remote_path::validate_remote_child_name;
use crate::remote_path::LocalPaths;
use crate::remote_path::RemotePathProblem;
use crate::text::ascii_alphanumeric;
use crate::text::chars_of;
use crate::text::decimal_text;
use crate::text::joined;
use crate::text::joined3;
use crate::text::same_text;
use crate::text::split_on;
use crate::text::text_between;

verus! {

pub const DEFAULT_FILE_CONCURRENCY: usize = 4;

pub const DEFAULT_SFTP_WRITE_CONCURRENCY: usize = 16;

pub const DEFAULT_SFTP_PACKET_SIZE: u32 = 262144;

pub const DEFAULT_REQUEST_TIMEOUT_SECS: u64 = 30;

pub const MAX_FILE_CONCURRENCY: usize = 128;

pub const MAX_SFTP_WRITE_CONCURRENCY: usize = 128;

pub const MIN_SFTP_PACKET_SIZE: u32 = 4096;

pub const MAX_SFTP_PACKET_SIZE: u32 = 4194304;

pub const MAX_ESTIMATED_IN_FLIGHT_WRITE_BYTES: u128 = 536870912;

#[derive(Debug, Clone, Copy, PartialEq, Eq, Structural)]
pub enum TransferDirection {
    Upload,
    Download,
}

#[derive(Debug, Clone, PartialEq, Eq)]
pub struct TransferEvent {
    pub direction: TransferDirection,
    pub path: String,
    pub bytes_transferred: u64,
    pub total_bytes: Option<u64>,
    pub completed: bool,
}

#[derive(Debug, Clone, Copy, PartialEq, Eq, Structural)]
pub enum TransferProblem {
    NoFileConcurrency,
    FileConcurrency,
    NoWriteConcurrency,
    WriteConcurrency,
    PacketTooSmall,
    PacketTooLarge,
    NoTimeout,
    Budget,
    Cancelled,
    SourceIsLink,
    SourceNotFile,
    SourceNotTree,
    WorkIsLink,
    WorkNotFile,
    DestinationIsLink,
    DestinationExists,
    StagingExists,
    StagingTooLarge,
    StagingGone,
    DirectoryIsLink,
    NotADirectory,
    Traversal,
    NameNotText,
    Name(RemotePathProblem),
    CounterOverflow,
    PublishFailed,
    CleanupFailed,
    /// An answer to another question came.
    OutOfStep,
    Interrupted,
}

impl TransferProblem {
    pub open spec fn text(self) -> Seq<char> {
        match self {
            TransferProblem::NoFileConcurrency => "file concurrency must be greater than zero"@,
            TransferProblem::FileConcurrency => "file concurrency exceeds the limit"@,
            TransferProblem::NoWriteConcurrency =>
                "SFTP write concurrency must be greater than zero"@,
            TransferProblem::WriteConcurrency => "SFTP write concurrency exceeds the limit"@,
            TransferProblem::PacketTooSmall => "SFTP packet size must be at least 4096 bytes"@,
            TransferProblem::PacketTooLarge => "SFTP packet size exceeds the limit"@,
            TransferProblem::NoTimeout => "SFTP request timeout must be greater than zero"@,
            TransferProblem::Budget => "transfer settings exceed the in-flight byte budget"@,
            TransferProblem::Cancelled => "transfer cancelled"@,
            TransferProblem::SourceIsLink => "refusing to follow a symbolic link as the source"@,
            TransferProblem::SourceNotFile => "the source is not a regular file"@,
            TransferProblem::SourceNotTree => "the source is not a regular file or directory"@,
            TransferProblem::WorkIsLink => "refusing to write through a symbolic link"@,
            TransferProblem::WorkNotFile => "the staging path is not a regular file"@,
            TransferProblem::DestinationIsLink => "refusing to replace a symbolic link"@,
            TransferProblem::DestinationExists =>
                "atomic overwrite of an existing destination is unavailable; use --no-atomic"@,
            TransferProblem::StagingExists => "the fresh staging path already exists"@,
            TransferProblem::StagingTooLarge => "the staging file is larger than the source"@,
            TransferProblem::StagingGone => "the staging path is no longer a regular file"@,
            TransferProblem::DirectoryIsLink => "refusing to follow a symbolic-link directory"@,
            TransferProblem::NotADirectory => "a path component is not a directory"@,
            TransferProblem::Traversal => "directory traversal with '..' is not supported"@,
            TransferProblem::NameNotText => "transfer paths must be valid UTF-8"@,
            TransferProblem::Name(_) => "unsafe directory entry name"@,
            TransferProblem::CounterOverflow => "transfer counter overflow"@,
            TransferProblem::PublishFailed => "the transferred file could not be published"@,
            TransferProblem::CleanupFailed =>
                "the transfer was committed but staging cleanup failed"@,
            TransferProblem::OutOfStep => "the transfer is out of step"@,
            TransferProblem::Interrupted => "the transfer was interrupted"@,
        }
    }

    pub fn message(self) -> (r: &'static str)
        ensures
            r@ == self.text(),
    {
        match self {
            TransferProblem::NoFileConcurrency => "file concurrency must be greater than zero",
            TransferProblem::FileConcurrency => "file concurrency exceeds the limit",
            TransferProblem::NoWriteConcurrency =>
                "SFTP write concurrency must be greater than zero",
            TransferProblem::WriteConcurrency => "SFTP write concurrency exceeds the limit",
            TransferProblem::PacketTooSmall => "SFTP packet size must be at least 4096 bytes",
            TransferProblem::PacketTooLarge => "SFTP packet size exceeds the limit",
            TransferProblem::NoTimeout => "SFTP request timeout must be greater than zero",
            TransferProblem::Budget => "transfer settings exceed the in-flight byte budget",
            TransferProblem::Cancelled => "transfer cancelled",
            TransferProblem::SourceIsLink => "refusing to follow a symbolic link as the source",
            TransferProblem::SourceNotFile => "the source is not a regular file",
            TransferProblem::SourceNotTree => "the source is not a regular file or directory",
            TransferProblem::WorkIsLink => "refusing to write through a symbolic link",
            TransferProblem::WorkNotFile => "the staging path is not a regular file",
            TransferProblem::DestinationIsLink => "refusing to replace a symbolic link",
            TransferProblem::DestinationExists =>
                "atomic overwrite of an existing destination is unavailable; use --no-atomic",
            TransferProblem::StagingExists => "the fresh staging path already exists",
            TransferProblem::StagingTooLarge => "the staging file is larger than the source",
            TransferProblem::StagingGone => "the staging path is no longer a regular file",
            TransferProblem::DirectoryIsLink => "refusing to follow a symbolic-link directory",
            TransferProblem::NotADirectory => "a path component is not a directory",
            TransferProblem::Traversal => "directory traversal with '..' is not supported",
            TransferProblem::NameNotText => "transfer paths must be valid UTF-8",
            TransferProblem::Name(_) => "unsafe directory entry name",
            TransferProblem::CounterOverflow => "transfer counter overflow",
            TransferProblem::PublishFailed => "the transferred file could not be published",
            TransferProblem::CleanupFailed =>
                "the transfer was committed but staging cleanup failed",
            TransferProblem::OutOfStep => "the transfer is out of step",
            TransferProblem::Interrupted => "the transfer was interrupted",
        }
    }
}

/// A flag by which transfers are stopped. Its copies share it, and any holder
/// may set it at any time; so what a look at it finds is known only by looking.
#[derive(Debug, Clone)]
pub struct TransferCancellation {
    cancelled: Arc<std::sync::atomic::AtomicBool>,
}

impl TransferCancellation {
    pub fn new() -> Self {
        TransferCancellation { cancelled: Arc::new(std::sync::atomic::AtomicBool::new(false)) }
    }

    /// A copy that shares the flag.
    pub fn share(&self) -> (r: Self)
        ensures
            r == *self,
    {
        TransferCancellation { cancelled: self.cancelled.clone() }
    }

    pub fn cancel(&self) {
        self.cancelled.store(true, std::sync::atomic::Ordering::Release);
    }

    pub fn is_cancelled(&self) -> bool {
        self.cancelled.load(std::sync::atomic::Ordering::Acquire)
    }
}

pub fn check_cancelled(cancelled: bool) -> (r: Result<(), TransferProblem>)
    ensures
        r == (if cancelled {
            Err::<(), TransferProblem>(TransferProblem::Cancelled)
        } else {
            Ok(())
        }),
{
    if cancelled {
        Err(TransferProblem::Cancelled)
    } else {
        Ok(())
    }
}

/// How files are transferred.
#[derive(Debug, Clone)]
pub struct TransferOptions {
    pub resume: bool,
    pub atomic: bool,
    pub file_concurrency: usize,
    pub sftp_write_concurrency: usize,
    pub sftp_packet_size: u32,
    pub request_timeout_secs: u64,
    pub cancellation: TransferCancellation,
}

impl Default for TransferOptions {
    fn default() -> (r: Self)
        ensures
            !r.resume,
            r.atomic,
            r.file_concurrency == DEFAULT_FILE_CONCURRENCY,
            r.sftp_write_concurrency == DEFAULT_SFTP_WRITE_CONCURRENCY,
            r.sftp_packet_size == DEFAULT_SFTP_PACKET_SIZE,
            r.request_timeout_secs == DEFAULT_REQUEST_TIMEOUT_SECS,
    {
        TransferOptions {
            resume: false,
            atomic: true,
            file_concurrency: DEFAULT_FILE_CONCURRENCY,
            sftp_write_concurrency: DEFAULT_SFTP_WRITE_CONCURRENCY,
            sftp_packet_size: DEFAULT_SFTP_PACKET_SIZE,
            request_timeout_secs: DEFAULT_REQUEST_TIMEOUT_SECS,
            cancellation: TransferCancellation::new(),
        }
    }
}

impl TransferOptions {
    /// Bytes that may be on their way at once.
    pub open spec fn in_flight(self) -> int {
        self.file_concurrency * self.sftp_write_concurrency * self.sftp_packet_size
    }

    /// The first setting that is out of its limits.
    pub open spec fn problem(self) -> Option<TransferProblem> {
        if self.file_concurrency == 0 {
            Some(TransferProblem::NoFileConcurrency)
        } else if self.file_concurrency > MAX_FILE_CONCURRENCY {
            Some(TransferProblem::FileConcurrency)
        } else if self.sftp_write_concurrency == 0 {
            Some(TransferProblem::NoWriteConcurrency)
        } else if self.sftp_write_concurrency > MAX_SFTP_WRITE_CONCURRENCY {
            Some(TransferProblem::WriteConcurrency)
        } else if self.sftp_packet_size < MIN_SFTP_PACKET_SIZE {
            Some(TransferProblem::PacketTooSmall)
        } else if self.sftp_packet_size > MAX_SFTP_PACKET_SIZE {
            Some(TransferProblem::PacketTooLarge)
        } else if self.request_timeout_secs == 0 {
            Some(TransferProblem::NoTimeout)
        } else if self.in_flight() > MAX_ESTIMATED_IN_FLIGHT_WRITE_BYTES {
            Some(TransferProblem::Budget)
        } else {
            None
        }
    }

    /// Checks the settings. Those that pass keep within the budget of bytes on
    /// their way.
    pub fn validated(&self) -> (r: Result<(), TransferProblem>)
        ensures
            match r {
                Ok(()) => self.problem() is None && self.in_flight()
                    <= MAX_ESTIMATED_IN_FLIGHT_WRITE_BYTES,
                Err(e) => self.problem() == Some(e),
            },
    {
        if self.file_concurrency == 0 {
            return Err(TransferProblem::NoFileConcurrency);
        }
        if self.file_concurrency > MAX_FILE_CONCURRENCY {
            return Err(TransferProblem::FileConcurrency);
        }
        if self.sftp_write_concurrency == 0 {
            return Err(TransferProblem::NoWriteConcurrency);
        }
        if self.sftp_write_concurrency > MAX_SFTP_WRITE_CONCURRENCY {
            return Err(TransferProblem::WriteConcurrency);
        }
        if self.sftp_packet_size < MIN_SFTP_PACKET_SIZE {
            return Err(TransferProblem::PacketTooSmall);
        }
        if self.sftp_packet_size > MAX_SFTP_PACKET_SIZE {
            return Err(TransferProblem::PacketTooLarge);
        }
        if self.request_timeout_secs == 0 {
            return Err(TransferProblem::NoTimeout);
        }
        let files = self.file_concurrency as u128;
        let writes = self.sftp_write_concurrency as u128;
        let packet = self.sftp_packet_size as u128;
        assert(files * writes <= 16384) by (nonlinear_arith)
            requires
                files <= 128,
                writes <= 128,
        ;
        let slots = files * writes;
        assert(slots * packet <= 68719476736) by (nonlinear_arith)
            requires
                slots <= 16384,
                packet <= 4194304,
        ;
        if slots * packet > MAX_ESTIMATED_IN_FLIGHT_WRITE_BYTES {
            return Err(TransferProblem::Budget);
        }
        Ok(())
    }

    /// Another file has to be waited for before one more is started.
    pub fn must_wait(&self, running: usize) -> (r: bool)
        ensures
            r == (running >= self.file_concurrency),
    {
        running >= self.file_concurrency
    }
}

/// What a transfer of several files has done.
#[derive(Debug, Clone, Copy, PartialEq, Eq, Structural)]
pub struct TransferSummary {
    pub files: u64,
    pub directories: u64,
    pub bytes: u64,
    pub skipped: u64,
}

impl Default for TransferSummary {
    fn default() -> (r: Self)
        ensures
            r == (TransferSummary { files: 0, directories: 0, bytes: 0, skipped: 0 }),
    {
        TransferSummary { files: 0, directories: 0, bytes: 0, skipped: 0 }
    }
}

impl TransferSummary {
    /// The summary of a single file.
    pub fn one_file(bytes: u64) -> (r: Self)
        ensures
            r == (TransferSummary { files: 1, directories: 0, bytes, skipped: 0 }),
    {
        TransferSummary { files: 1, directories: 0, bytes, skipped: 0 }
    }

    /// Counts a file that has been transferred.
    pub fn add_file(&mut self, bytes: u64) -> (r: Result<(), TransferProblem>)
        ensures
            if old(self).bytes + bytes > u64::MAX || old(self).files == u64::MAX {
                r == Err::<(), TransferProblem>(TransferProblem::CounterOverflow) && *final(self)
                    == *old(self)
            } else {
                r is Ok && *final(self) == (TransferSummary {
                    files: (old(self).files + 1) as u64,
                    bytes: (old(self).bytes + bytes) as u64,
                    ..*old(self)
                })
            },
    {
        if bytes > u64::MAX - self.bytes || self.files == u64::MAX {
            return Err(TransferProblem::CounterOverflow);
        }
        self.bytes = self.bytes + bytes;
        self.files = self.files + 1;
        Ok(())
    }
}

/// Counts bytes that have been copied; what has been there before counts for
/// the progress.
pub fn count_copied(copied: u64, read: u64, initial: u64) -> (r: Result<(u64, u64), TransferProblem>)
    ensures
        if copied + read > u64::MAX || initial + copied + read > u64::MAX {
            r == Err::<(u64, u64), TransferProblem>(TransferProblem::CounterOverflow)
        } else {
            r == Ok::<(u64, u64), TransferProblem>(
                ((copied + read) as u64, (initial + copied + read) as u64),
            )
        },
{
    if read > u64::MAX - copied {
        return Err(TransferProblem::CounterOverflow);
    }
    let sum = copied + read;
    if sum > u64::MAX - initial {
        return Err(TransferProblem::CounterOverflow);
    }
    Ok((sum, initial + sum))
}

/// How the file that is written is opened.
#[derive(Debug, Clone, Copy, PartialEq, Eq, Structural)]
pub struct OpenMode {
    pub create: bool,
    pub exclusive: bool,
    pub truncate: bool,
}

/// How the transfer of a file starts.
#[derive(Debug, Clone, Copy, PartialEq, Eq, Structural)]
pub enum TransferStart {
    /// All of it is there already.
    Complete { total: u64 },
    /// Copy from this offset on.
    Copy { offset: u64, total: u64, open: OpenMode },
}

/// How a transfer in place starts. An upload goes to a file alone. A download
/// goes to whatever is no link; how much of it is there already is what the
/// file system tells as the length, of a directory or a device too. (Opening
/// is what fails where nothing can be written.)
pub open spec fn in_place_start(
    direction: TransferDirection,
    resume: bool,
    cancelled: bool,
    source: Node,
    work: Node,
    length: u64,
) -> Result<TransferStart, TransferProblem> {
    if cancelled {
        Err(TransferProblem::Cancelled)
    } else if source is Link {
        Err(TransferProblem::SourceIsLink)
    } else if !(source is File) {
        Err(TransferProblem::SourceNotFile)
    } else if work is Link {
        Err(TransferProblem::WorkIsLink)
    } else if direction is Upload && (work is Directory || work is Other) {
        Err(TransferProblem::WorkNotFile)
    } else {
        let total = source->len;
        let staged = match work {
            Node::File { len } => len,
            Node::Missing => 0,
            _ => length,
        };
        let offset = if !resume {
            0
        } else if staged < total {
            staged
        } else {
            total
        };
        if offset == total && total != 0 {
            Ok(TransferStart::Complete { total })
        } else {
            Ok(
                TransferStart::Copy {
                    offset,
                    total,
                    open: OpenMode { create: true, exclusive: false, truncate: offset == 0 },
                },
            )
        }
    }
}

/// How a transfer starts that writes to its destination. A link is never
/// followed on either side; a part that is there is kept where the transfer
/// goes on with it. The length is that of what stands at the destination where
/// it is no file.
pub fn start_in_place(
    direction: TransferDirection,
    resume: bool,
    cancelled: bool,
    source: Node,
    work: Node,
    length: u64,
) -> (r: Result<TransferStart, TransferProblem>)
    ensures
        r == in_place_start(direction, resume, cancelled, source, work, length),
{
    check_cancelled(cancelled)?;
    let total = match source {
        Node::Link => {
            return Err(TransferProblem::SourceIsLink);
        },
        Node::File { len } => len,
        _ => {
            return Err(TransferProblem::SourceNotFile);
        },
    };
    let staged = match work {
        Node::Link => {
            return Err(TransferProblem::WorkIsLink);
        },
        Node::File { len } => len,
        Node::Missing => 0,
        _ => match direction {
            TransferDirection::Download => length,
            TransferDirection::Upload => {
                return Err(TransferProblem::WorkNotFile);
            },
        },
    };
    let offset = if !resume {
        0
    } else if staged < total {
        staged
    } else {
        total
    };
    if offset == total && total != 0 {
        return Ok(TransferStart::Complete { total });
    }
    Ok(
        TransferStart::Copy {
            offset,
            total,
            open: OpenMode { create: true, exclusive: false, truncate: offset == 0 },
        },
    )
}

/// What is transferred from a root.
#[derive(Debug, Clone, Copy, PartialEq, Eq, Structural)]
pub enum TreeRoot {
    File,
    Directory,
}

/// What stands at the root of a recursive transfer. A link is not followed.
pub fn check_tree_root(cancelled: bool, root: Node) -> (r: Result<TreeRoot, TransferProblem>)
    ensures
        r == (if cancelled {
            Err::<TreeRoot, TransferProblem>(TransferProblem::Cancelled)
        } else {
            match root {
                Node::Link => Err(TransferProblem::SourceIsLink),
                Node::File { .. } => Ok(TreeRoot::File),
                Node::Directory => Ok(TreeRoot::Directory),
                _ => Err(TransferProblem::SourceNotTree),
            }
        }),
{
    check_cancelled(cancelled)?;
    match root {
        Node::Link => Err(TransferProblem::SourceIsLink),
        Node::File { .. } => Ok(TreeRoot::File),
        Node::Directory => Ok(TreeRoot::Directory),
        _ => Err(TransferProblem::SourceNotTree),
    }
}

/// What to do with an entry of a tree. Directories and files come with their
/// paths in the source and at the destination.
#[derive(Debug, PartialEq, Eq)]
pub enum WalkAction {
    /// It is left out, and counted.
    Skip,
    /// It stands for the directory itself or its parent.
    Ignore,
    MakeDirectory { source: String, destination: String },
    Transfer { source: String, destination: String },
}

#[verifier::ext_equal]
pub enum WalkActionView {
    Skip,
    Ignore,
    MakeDirectory { source: Seq<char>, destination: Seq<char> },
    Transfer { source: Seq<char>, destination: Seq<char> },
}

impl View for WalkAction {
    type V = WalkActionView;

    open spec fn view(&self) -> WalkActionView {
        match *self {
            WalkAction::Skip => WalkActionView::Skip,
            WalkAction::Ignore => WalkActionView::Ignore,
            WalkAction::MakeDirectory { source, destination } => WalkActionView::MakeDirectory {
                source: source@,
                destination: destination@,
            },
            WalkAction::Transfer { source, destination } => WalkActionView::Transfer {
                source: source@,
                destination: destination@,
            },
        }
    }
}

/// A tree that is being walked: what has been done, and the directories that
/// are left, each in the source and at the destination.
#[derive(Debug, PartialEq, Eq)]
pub struct TreeWalk {
    pub direction: TransferDirection,
    pub platform: LocalPaths,
    pub summary: TransferSummary,
    pub stack: Vec<(String, String)>,
}

#[verifier::ext_equal]
pub struct WalkView {
    pub direction: TransferDirection,
    pub platform: LocalPaths,
    pub summary: TransferSummary,
    pub stack: Seq<(Seq<char>, Seq<char>)>,
}

impl View for TreeWalk {
    type V = WalkView;

    open spec fn view(&self) -> WalkView {
        WalkView {
            direction: self.direction,
            platform: self.platform,
            summary: self.summary,
            stack: crate::command::pair_views(self.stack@),
        }
    }
}

/// Where an entry is in the source and at the destination. The local side of a
/// path is joined as a path of this system, the remote side under its root.
pub open spec fn entry_paths(
    direction: TransferDirection,
    source: Seq<char>,
    destination: Seq<char>,
    name: Seq<char>,
) -> (Seq<char>, Seq<char>) {
    match direction {
        TransferDirection::Upload => (
            crate::paths::path_join(source, name),
            crate::remote_path::under_root(destination, name),
        ),
        TransferDirection::Download => (
            crate::remote_path::under_root(source, name),
            crate::paths::path_join(destination, name),
        ),
    }
}

/// What is wrong with the name of an entry. One that is downloaded has to be
/// the name of a local entry too.
pub open spec fn entry_problem(
    direction: TransferDirection,
    platform: LocalPaths,
    name: Seq<char>,
) -> Option<RemotePathProblem> {
    if crate::remote_path::child_name_problem(name) is Some {
        crate::remote_path::child_name_problem(name)
    } else if direction is Download {
        crate::remote_path::local_path_problem(name, platform)
    } else {
        None
    }
}

/// Checks the name of an entry.
pub fn check_entry_name(direction: TransferDirection, platform: LocalPaths, name: &str) -> (r: Result<
    (),
    RemotePathProblem,
>)
    ensures
        match r {
            Ok(()) => entry_problem(direction, platform, name@) is None,
            Err(e) => entry_problem(direction, platform, name@) == Some(e),
        },
{
    validate_remote_child_name(name)?;
    if direction == TransferDirection::Download {
        local_path_from_remote_relative(name, platform)?;
    }
    Ok(())
}

impl WalkView {
    /// The walk after an entry of a directory, and what to do with the entry.
    pub open spec fn visited(
        self,
        source: Seq<char>,
        destination: Seq<char>,
        name: Option<Seq<char>>,
        kind: Node,
        cancelled: bool,
    ) -> (WalkView, Result<WalkActionView, TransferProblem>) {
        if cancelled {
            (self, Err(TransferProblem::Cancelled))
        } else if !(kind is Directory) && !(kind is File) {
            if self.summary.skipped == u64::MAX {
                (self, Err(TransferProblem::CounterOverflow))
            } else {
                (
                    WalkView {
                        summary: TransferSummary {
                            skipped: (self.summary.skipped + 1) as u64,
                            ..self.summary
                        },
                        ..self
                    },
                    Ok(WalkActionView::Skip),
                )
            }
        } else if name is None {
            (self, Err(TransferProblem::NameNotText))
        } else if self.direction is Download && crate::remote_fs::is_dots(name->0) {
            (self, Ok(WalkActionView::Ignore))
        } else if entry_problem(self.direction, self.platform, name->0) is Some {
            (
                self,
                Err(
                    TransferProblem::Name(
                        entry_problem(self.direction, self.platform, name->0)->0,
                    ),
                ),
            )
        } else {
            let paths = entry_paths(self.direction, source, destination, name->0);
            if kind is File {
                (self, Ok(WalkActionView::Transfer { source: paths.0, destination: paths.1 }))
            } else if self.summary.directories == u64::MAX {
                (self, Err(TransferProblem::CounterOverflow))
            } else {
                (
                    WalkView {
                        summary: TransferSummary {
                            directories: (self.summary.directories + 1) as u64,
                            ..self.summary
                        },
                        stack: self.stack.push(paths),
                        ..self
                    },
                    Ok(WalkActionView::MakeDirectory { source: paths.0, destination: paths.1 }),
                )
            }
        }
    }
}

pub proof fn lemma_child_is_relative(name: Seq<char>)
    requires
        crate::remote_path::child_name_problem(name) is None,
    ensures
        crate::remote_path::relative_path_problem(name) is None,
{
    crate::text::lemma_position(name, '/');
    let p = crate::text::position(name, '/');
    if p < name.len() {
        assert(name.contains(name[p]));
    }
    assert(name.contains(name[0]));
    assert(crate::text::split(name, '/') =~= seq![name]);
    reveal_with_fuel(crate::remote_path::parts_problem, 2);
}

impl TreeWalk {
    /// The walk of a tree that starts at a directory.
    pub fn new(
        direction: TransferDirection,
        source: &str,
        destination: &str,
        platform: LocalPaths,
    ) -> (r: Self)
        ensures
            r@ == (WalkView {
                direction,
                platform,
                summary: TransferSummary { files: 0, directories: 1, bytes: 0, skipped: 0 },
                stack: seq![(source@, destination@)],
            }),
    {
        let mut stack: Vec<(String, String)> = Vec::new();
        stack.push((source.to_owned(), destination.to_owned()));
        let r = TreeWalk {
            direction,
            platform,
            summary: TransferSummary { files: 0, directories: 1, bytes: 0, skipped: 0 },
            stack,
        };
        assert(r@.stack =~= seq![(source@, destination@)]);
        r
    }

    /// The directory to list next.
    pub fn next_directory(&mut self) -> (r: Option<(String, String)>)
        ensures
            match r {
                Some((source, destination)) => {
                    &&& old(self)@.stack.len() > 0
                    &&& old(self)@.stack.last() == (source@, destination@)
                    &&& final(self)@ == (WalkView {
                        stack: old(self)@.stack.drop_last(),
                        ..old(self)@
                    })
                },
                None => old(self)@.stack.len() == 0 && final(self)@ == old(self)@,
            },
    {
        let ghost before = self@;
        if self.stack.len() == 0 {
            return None;
        }
        assert(before.stack.last() == (
            self.stack@[self.stack@.len() - 1].0@,
            self.stack@[self.stack@.len() - 1].1@,
        ));
        let top = self.stack.pop();
        assert(self@.stack =~= before.stack.drop_last());
        top
    }

    /// Takes in an entry of a directory and tells what to do with it. Links and
    /// what is neither file nor directory are left out; no name leads out of
    /// the tree.
    pub fn visit(
        &mut self,
        source: &str,
        destination: &str,
        name: Option<&str>,
        kind: Node,
        cancelled: bool,
    ) -> (r: Result<WalkAction, TransferProblem>)
        ensures
            match r {
                Ok(action) => old(self)@.visited(
                    source@,
                    destination@,
                    crate::config::option_str(name),
                    kind,
                    cancelled,
                ) == (final(self)@, Ok::<WalkActionView, TransferProblem>(action@)),
                Err(e) => old(self)@.visited(
                    source@,
                    destination@,
                    crate::config::option_str(name),
                    kind,
                    cancelled,
                ) == (final(self)@, Err::<WalkActionView, TransferProblem>(e)),
            },
    {
        check_cancelled(cancelled)?;
        let is_file = match kind {
            Node::File { .. } => true,
            _ => false,
        };
        let is_directory = match kind {
            Node::Directory => true,
            _ => false,
        };
        if !is_directory && !is_file {
            if self.summary.skipped == u64::MAX {
                return Err(TransferProblem::CounterOverflow);
            }
            self.summary.skipped = self.summary.skipped + 1;
            return Ok(WalkAction::Skip);
        }
        let text = match name {
            Some(text) => text,
            None => {
                return Err(TransferProblem::NameNotText);
            },
        };
        let download = match self.direction {
            TransferDirection::Download => true,
            TransferDirection::Upload => false,
        };
        if download && (same_text(text, ".") || same_text(text, "..")) {
            return Ok(WalkAction::Ignore);
        }
        match check_entry_name(self.direction, self.platform, text) {
            Ok(()) => {},
            Err(e) => {
                return Err(TransferProblem::Name(e));
            },
        }
        proof {
            lemma_child_is_relative(text@);
        }
        let paths = if download {
            match join_remote_under_root(source, text) {
                Ok(remote) => (remote, join_path(destination, text)),
                Err(e) => {
                    return Err(TransferProblem::Name(e));
                },
            }
        } else {
            match join_remote_under_root(destination, text) {
                Ok(remote) => (join_path(source, text), remote),
                Err(e) => {
                    return Err(TransferProblem::Name(e));
                },
            }
        };
        if is_file {
            return Ok(WalkAction::Transfer { source: paths.0, destination: paths.1 });
        }
        if self.summary.directories == u64::MAX {
            return Err(TransferProblem::CounterOverflow);
        }
        self.summary.directories = self.summary.directories + 1;
        let ghost before = self@.stack;
        let kept = (paths.0.clone(), paths.1.clone());
        self.stack.push(kept);
        assert(self@.stack =~= before.push((paths.0@, paths.1@)));
        Ok(WalkAction::MakeDirectory { source: paths.0, destination: paths.1 })
    }
}

/// The directories to enter or create on the way to a path, and whether the way
/// is refused behind them, from segment `i` on.
pub open spec fn steps_from(
    done: Seq<Seq<char>>,
    current: Seq<char>,
    segments: Seq<Seq<char>>,
    i: int,
) -> (Seq<Seq<char>>, bool)
    decreases segments.len() - i,
{
    if i < 0 || i >= segments.len() {
        (done, false)
    } else if segments[i].len() == 0 || segments[i] == "."@ {
        steps_from(done, current, segments, i + 1)
    } else if segments[i] == ".."@ {
        (done, true)
    } else {
        let next = crate::remote_path::under_root(current, segments[i]);
        steps_from(done.push(next), next, segments, i + 1)
    }
}

pub open spec fn remote_steps(path: Seq<char>) -> (Seq<Seq<char>>, bool) {
    if path.len() == 0 || path == "."@ || path == "/"@ {
        (Seq::empty(), false)
    } else {
        steps_from(
            Seq::empty(),
            if path[0] == '/' {
                seq!['/']
            } else {
                Seq::empty()
            },
            crate::text::split(path, '/'),
            0,
        )
    }
}

/// The directories to enter or create, one after the other, so that a remote
/// directory exists. Where the flag is set the path holds `..`, and is refused
/// behind them.
pub fn remote_directory_steps(path: &str) -> (r: (Vec<String>, bool))
    ensures
        (crate::text::views(r.0@), r.1) == remote_steps(path@),
{
    let mut done: Vec<String> = Vec::new();
    assert(crate::text::views(done@) =~= Seq::<Seq<char>>::empty());
    if path.is_empty() || same_text(path, ".") || same_text(path, "/") {
        return (done, false);
    }
    let chars = chars_of(path);
    let mut current = String::new();
    if chars[0] == '/' {
        current.push('/');
        assert(current@ =~= seq!['/']);
    } else {
        assert(current@ =~= Seq::<char>::empty());
    }
    let segments = split_on(path, '/');
    let ghost all = crate::text::views(segments@);
    let mut i: usize = 0;
    while i < segments.len()
        invariant
            all == crate::text::views(segments@),
            i <= segments@.len(),
            remote_steps(path@) == steps_from(crate::text::views(done@), current@, all, i as int),
        decreases segments@.len() - i,
    {
        assert(all[i as int] == segments@[i as int]@);
        let segment = segments[i].as_str();
        if !(segment.is_empty() || same_text(segment, ".")) {
            if same_text(segment, "..") {
                return (done, true);
            }
            let next = join_remote(current.as_str(), segment);
            let kept = next.clone();
            proof {
                crate::text::lemma_views_push(done@, kept);
            }
            done.push(kept);
            current = next;
        }
        i += 1;
    }
    (done, false)
}

/// Joins a name to a remote directory.
pub fn join_remote(parent: &str, child: &str) -> (r: String)
    ensures
        r@ == crate::remote_path::under_root(parent@, child@),
{
    if parent.is_empty() || same_text(parent, ".") {
        return child.to_owned();
    }
    let chars = chars_of(parent);
    if chars[chars.len() - 1] == '/' {
        return joined(parent, child);
    }
    proof {
        reveal_strlit("/");
        assert("/"@ =~= seq!['/']);
    }
    joined3(parent, "/", child)
}

/// Whether a directory on the way has to be created. A link is not followed.
pub fn check_directory(node: Node) -> (r: Result<bool, TransferProblem>)
    ensures
        r == (match node {
            Node::Missing => Ok::<bool, TransferProblem>(true),
            Node::Directory => Ok(false),
            Node::Link => Err(TransferProblem::DirectoryIsLink),
            _ => Err(TransferProblem::NotADirectory),
        }),
{
    match node {
        Node::Missing => Ok(true),
        Node::Directory => Ok(false),
        Node::Link => Err(TransferProblem::DirectoryIsLink),
        _ => Err(TransferProblem::NotADirectory),
    }
}

/// The directory that a remote path is in, where it names one.
pub open spec fn named_parent(path: Seq<char>) -> Option<Seq<char>> {
    let p = crate::target::last_position(path, '/');
    if p > 0 {
        Some(path.take(p))
    } else {
        None
    }
}

pub fn remote_parent_directory(path: &str) -> (r: Option<String>)
    ensures
        match r {
            Some(parent) => named_parent(path@) == Some(parent@),
            None => named_parent(path@) is None,
        },
{
    let chars = chars_of(path);
    match crate::target::last_index(chars.as_slice(), '/') {
        Some(p) => if p > 0 {
            let parent = text_between(chars.as_slice(), 0, p);
            assert(parent@ =~= path@.take(p as int));
            Some(parent)
        } else {
            None
        },
        None => None,
    }
}

/// The paths that lead to a local path, from the parts from index `i` on.
pub open spec fn ancestors_from(current: Seq<char>, parts: Seq<Seq<char>>, i: int) -> Seq<Seq<char>>
    decreases parts.len() - i,
{
    if i < 0 || i >= parts.len() {
        Seq::empty()
    } else {
        let next = crate::paths::path_join(current, parts[i]);
        seq![next] + ancestors_from(next, parts, i + 1)
    }
}

/// The paths that lead to a local path, the outermost first.
pub open spec fn local_ancestors(path: Seq<char>) -> Seq<Seq<char>> {
    let parts = crate::paths::path_parts(path);
    if crate::paths::is_absolute(path) {
        seq![seq!['/']] + ancestors_from(seq!['/'], parts, 0)
    } else {
        ancestors_from(Seq::empty(), parts, 0)
    }
}

/// The paths to look at, one after the other, so that no link is followed on
/// the way to a local directory.
pub fn local_directory_steps(path: &str) -> (r: Vec<String>)
    ensures
        crate::text::views(r@) == local_ancestors(path@),
{
    let parts = significant_parts(path);
    let ghost all = crate::text::views(parts@);
    let mut out: Vec<String> = Vec::new();
    let mut current = String::new();
    assert(crate::text::views(out@) =~= Seq::<Seq<char>>::empty());
    if absolute(path) {
        current.push('/');
        assert(current@ =~= seq!['/']);
        let root = current.clone();
        proof {
            crate::text::lemma_views_push(out@, root);
        }
        out.push(root);
        assert(crate::text::views(out@) =~= seq![seq!['/']]);
        assert(local_ancestors(path@) == crate::text::views(out@) + ancestors_from(
            current@,
            all,
            0,
        ));
    } else {
        assert(current@ =~= Seq::<char>::empty());
        assert(crate::text::views(out@) + ancestors_from(current@, all, 0) =~= ancestors_from(
            current@,
            all,
            0,
        ));
    }
    let mut i: usize = 0;
    while i < parts.len()
        invariant
            all == crate::text::views(parts@),
            i <= parts@.len(),
            local_ancestors(path@) == crate::text::views(out@) + ancestors_from(
                current@,
                all,
                i as int,
            ),
        decreases parts@.len() - i,
    {
        assert(all[i as int] == parts@[i as int]@);
        let next = join_path(current.as_str(), parts[i].as_str());
        let kept = next.clone();
        let ghost before = crate::text::views(out@);
        proof {
            crate::text::lemma_views_push(out@, kept);
        }
        out.push(kept);
        assert(before + (seq![next@] + ancestors_from(next@, all, i + 1)) =~= crate::text::views(
            out@,
        ) + ancestors_from(next@, all, i + 1));
        current = next;
        i += 1;
    }
    assert(crate::text::views(out@) + ancestors_from(current@, all, i as int)
        =~= crate::text::views(out@));
    out
}

/// Where the bytes of a transfer go first.
pub open spec fn work_path(path: Seq<char>, atomic: bool) -> Seq<char> {
    if atomic {
        path + ".kaduox.part"@
    } else {
        path
    }
}

pub fn transfer_remote_work_path(path: &str, atomic: bool) -> (r: String)
    ensures
        r@ == work_path(path@, atomic),
{
    if atomic {
        joined(path, ".kaduox.part")
    } else {
        path.to_owned()
    }
}

pub fn transfer_local_work_path(path: &str, atomic: bool) -> (r: String)
    ensures
        r@ == work_path(path@, atomic),
{
    transfer_remote_work_path(path, atomic)
}

pub open spec fn is_staging_char(c: char) -> bool {
    crate::text::is_ascii_alphanumeric(c) || c == '.' || c == '-' || c == '_'
}

pub open spec fn staging_name(name: Seq<char>) -> Seq<char> {
    name.map_values(
        |c: char|
            if is_staging_char(c) {
                c
            } else {
                '_'
            },
    )
}

/// A name in the directory for temporary files, told apart by a time stamp.
pub fn unique_staging_path(file_name: &str, stamp: u64) -> (r: String)
    ensures
        r@ == "/tmp/.kaduox-"@ + crate::text::decimal(stamp as nat) + "-"@ + staging_name(
            file_name@,
        ),
{
    let chars = chars_of(file_name);
    let mut name = String::new();
    let mut i: usize = 0;
    while i < chars.len()
        invariant
            chars@ == file_name@,
            i <= chars@.len(),
            name@ == staging_name(file_name@).take(i as int),
        decreases chars@.len() - i,
    {
        let c = chars[i];
        let kept = if ascii_alphanumeric(c) || c == '.' || c == '-' || c == '_' {
            c
        } else {
            '_'
        };
        name.push(kept);
        assert(staging_name(file_name@).take(i + 1) =~= staging_name(file_name@).take(
            i as int,
        ).push(kept));
        i += 1;
    }
    assert(staging_name(file_name@).take(i as int) =~= staging_name(file_name@));
    let number = decimal_text(stamp);
    let mut out = joined3("/tmp/.kaduox-", number.as_str(), "-");
    out.append(name.as_str());
    out
}

/// The seconds of a modification time, as far as the protocol can tell them.
pub fn protocol_mtime(secs: u64) -> (r: Option<u32>)
    ensures
        r == (if secs <= u32::MAX {
            Some(secs as u32)
        } else {
            None
        }),
{
    if secs <= 4294967295 {
        Some(secs as u32)
    } else {
        None
    }
}

/// Whatever a listing holds, what is transferred from a directory is one of its
/// entries: its name leads neither up nor further down, nor to another drive.
pub proof fn walk_stays_in_the_tree(
    walk: WalkView,
    source: Seq<char>,
    destination: Seq<char>,
    name: Option<Seq<char>>,
    kind: Node,
    cancelled: bool,
)
    ensures
        match walk.visited(source, destination, name, kind, cancelled).1 {
            Ok(WalkActionView::Transfer { source: from, destination: to }) => name is Some && (
                from,
                to,
            ) == entry_paths(walk.direction, source, destination, name->0)
                && entry_problem(walk.direction, walk.platform, name->0) is None,
            Ok(WalkActionView::MakeDirectory { source: from, destination: to }) => name is Some && (
                from,
                to,
            ) == entry_paths(walk.direction, source, destination, name->0)
                && entry_problem(walk.direction, walk.platform, name->0) is None,
            _ => true,
        },
        kind is Link ==> !(walk.visited(source, destination, name, kind, cancelled).1 matches Ok(
            WalkActionView::Transfer { .. },
        )) && !(walk.visited(source, destination, name, kind, cancelled).1 matches Ok(
            WalkActionView::MakeDirectory { .. },
        )),
{
}

} // verus!
