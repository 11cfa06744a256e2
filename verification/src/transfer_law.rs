//! What holds of every transfer, from its settings to its last byte.

use vstd::prelude::*;

use crate::file_transfer::FileAction;
use crate::file_transfer::FileEvent;
use crate::file_transfer::FileTransfer;
use crate::file_transfer::Phase;
use crate::file_transfer::Progress;
use crate::nodes::Node;
use crate::remote_path::LocalPaths;
use crate::transfer::TransferDirection;
use crate::transfer::TransferOptions;
use crate::transfer::TransferProblem;
use crate::transfer::TransferStart;
use crate::transfer::WalkActionView;
use crate::transfer::WalkView;
use crate::transfer_download_policy::PreflightFault;

verus! {

/// An atomic transfer is held to be complete at its start only where the part
/// that is there is as long as the source, and then always; a part that is
/// shorter is gone on with at its end, and nothing is gone on with that is
/// longer. What is there is never cut, and a new part is one that nobody else
/// created.
pub proof fn atomic_transfers_are_complete_where_all_is_there(
    resume: bool,
    cancelled: bool,
    source: Node,
    destination: Node,
    staging: Node,
)
    ensures
        match crate::transfer_policy::atomic_start(resume, cancelled, source, destination, staging) {
            Ok(TransferStart::Complete { total }) => resume && total > 0 && source == (Node::File {
                len: total,
            }) && staging == (Node::File { len: total }),
            Ok(TransferStart::Copy { offset, total, open }) => {
                &&& source == (Node::File { len: total })
                &&& staging == Node::Missing && offset == 0 || resume && staging == (Node::File {
                    len: offset,
                }) && (offset < total || total == 0)
                &&& !open.truncate && open.create == (staging == Node::Missing) && open.exclusive
                    == open.create
            },
            Err(_) => {
                ||| cancelled
                ||| !(source is File)
                ||| destination != Node::Missing
                ||| staging != Node::Missing && !resume
                ||| staging != Node::Missing && !(staging is File)
                ||| staging is File && staging->len > source->len
            },
        },
{
}

/// Why an atomic transfer does not start: the first thing in its way is told.
pub proof fn atomic_transfers_tell_what_is_in_their_way(
    resume: bool,
    source: Node,
    destination: Node,
    staging: Node,
)
    ensures
        ({
            let start = crate::transfer_policy::atomic_start(
                resume,
                false,
                source,
                destination,
                staging,
            );
            let free = source is File && destination == Node::Missing;
            &&& source == Node::Link ==> start == Err::<TransferStart, TransferProblem>(
                TransferProblem::SourceIsLink,
            )
            &&& source is File && destination == Node::Link ==> start == Err::<
                TransferStart,
                TransferProblem,
            >(TransferProblem::DestinationIsLink)
            &&& source is File && (destination is File || destination == Node::Directory) ==> start
                == Err::<TransferStart, TransferProblem>(TransferProblem::DestinationExists)
            &&& free && !resume && staging != Node::Missing ==> start == Err::<
                TransferStart,
                TransferProblem,
            >(TransferProblem::StagingExists)
            &&& free && resume && staging == Node::Link ==> start == Err::<
                TransferStart,
                TransferProblem,
            >(TransferProblem::WorkIsLink)
            &&& free && resume && staging == Node::Directory ==> start == Err::<
                TransferStart,
                TransferProblem,
            >(TransferProblem::WorkNotFile)
            &&& free && resume && staging is File && staging->len > source->len ==> start == Err::<
                TransferStart,
                TransferProblem,
            >(TransferProblem::StagingTooLarge)
        }),
{
}

/// A transfer in place is complete only where at least as much is there as the
/// source has, and it is to go on with it. Else it goes on behind what is there,
/// or begins anew and cuts off what was there before.
pub proof fn transfers_in_place_go_on_or_begin_anew(
    direction: TransferDirection,
    resume: bool,
    cancelled: bool,
    source: Node,
    work: Node,
    length: u64,
)
    ensures
        match crate::transfer::in_place_start(direction, resume, cancelled, source, work, length) {
            Ok(TransferStart::Complete { total }) => {
                &&& resume && total > 0 && source == (Node::File { len: total })
                &&& work is File ==> work->len >= total
                &&& work != Node::Missing && work != Node::Link
                &&& !(work is File) ==> length >= total && direction is Download
            },
            Ok(TransferStart::Copy { offset, total, open }) => {
                &&& source == (Node::File { len: total })
                &&& work != Node::Link
                &&& offset < total || total == 0
                &&& !resume ==> offset == 0
                &&& resume && work is File && work->len < total ==> offset == work->len
                &&& work == Node::Missing ==> offset == 0
                &&& open.create && !open.exclusive
                &&& open.truncate == (offset == 0)
            },
            Err(_) => {
                ||| cancelled
                ||| !(source is File)
                ||| work == Node::Link
                ||| direction is Upload && (work == Node::Directory || work == Node::Other)
            },
        },
        cancelled ==> crate::transfer::in_place_start(
            direction,
            resume,
            cancelled,
            source,
            work,
            length,
        ) is Err,
        work == Node::Link || !(source is File) ==> crate::transfer::in_place_start(
            direction,
            resume,
            cancelled,
            source,
            work,
            length,
        ) is Err,
{
}

/// An atomic transfer asks for nothing but more bytes while fewer are at the
/// staging path than the source has: it goes on to publish at once only where
/// the part that was found there is as long as the source, and else opens the
/// files at the end of that part.
pub proof fn nothing_is_published_before_all_is_there(
    transfer: FileTransfer,
    source: Node,
    destination: Node,
    node: Node,
    len: u64,
    cancelled: bool,
)
    requires
        transfer.wf(),
        transfer.atomic,
        transfer.phase == (Phase::Work { source, destination }),
    ensures
        ({
            let (next, step) = transfer.after(FileEvent::FoundWork { node, len }, cancelled);
            match step.action {
                FileAction::Fail(_) => true,
                FileAction::Open { mode, offset } => {
                    &&& next.phase == (Phase::Open { offset, total: source->len })
                    &&& node == Node::Missing && offset == 0 || node == (Node::File { len: offset })
                    &&& offset < source->len || source->len == 0
                },
                _ => node == source && source->len > 0,
            }
        }),
{
}

/// Bytes are counted as they come: each piece adds to what was copied, and what
/// is told is what was there and what was copied.
pub proof fn copied_bytes_are_counted(
    transfer: FileTransfer,
    offset: u64,
    total: u64,
    copied: u64,
    n: u64,
)
    requires
        transfer.phase == (Phase::Copying { offset, total, copied }),
        0 < n,
        offset + copied + n <= u64::MAX,
    ensures
        ({
            let (next, step) = transfer.after(FileEvent::Copied(n), false);
            &&& next.phase == (Phase::Copying { offset, total, copied: (copied + n) as u64 })
            &&& step.action == FileAction::CopyChunk
            &&& step.progress == Some(
                Progress { bytes: (offset + copied + n) as u64, total, completed: false },
            )
        }),
        ({
            let (next, step) = transfer.after(FileEvent::Copied(0), false);
            &&& next.phase == (Phase::Flush { total, copied })
            &&& step.action == FileAction::Flush
        }),
{
}

/// What was counted when the last byte was out.
pub open spec fn counted(phase: Phase) -> Option<(u64, u64)> {
    match phase {
        Phase::Flush { total, copied } => Some((total, copied)),
        Phase::Recheck { total, copied } => Some((total, copied)),
        Phase::Time { total, copied } => Some((total, copied)),
        Phase::Publish { total, copied } => Some((total, copied)),
        _ => None,
    }
}

/// Once all bytes are out the counts stay, whatever is still to be done, and are
/// what the transfer tells in the end.
pub proof fn counts_are_told_in_the_end(
    transfer: FileTransfer,
    event: FileEvent,
    cancelled: bool,
)
    requires
        counted(transfer.phase) is Some,
    ensures
        ({
            let (next, step) = transfer.after(event, cancelled);
            let (total, copied) = counted(transfer.phase)->0;
            match step.action {
                FileAction::Finish { copied: told } => told == copied && step.progress == Some(
                    Progress { bytes: total, total, completed: true },
                ),
                FileAction::Fail(_) => next.phase is Finished,
                FileAction::RemoveWork => next.phase is Cleanup,
                _ => counted(next.phase) == Some((total, copied)),
            }
        }),
{
}

/// The steps that follow on one another where all goes well: the source, the
/// directory of the destination, for atomic transfers the destination, then
/// where the bytes go. In the end an upload looks at its destination once more,
/// appears there and keeps its time; a download keeps its time and appears.
pub proof fn steps_follow_in_order(transfer: FileTransfer)
    ensures
        transfer.phase is Begin ==> transfer.after(FileEvent::Done, false).1.action
            == FileAction::LookAtSource,
        transfer.phase is Source ==> forall|source: Node|
            (#[trigger] transfer.after(FileEvent::Found(source), false)).1.action == (
            if source is File {
                FileAction::MakeParent
            } else if source == Node::Link {
                FileAction::Fail(TransferProblem::SourceIsLink)
            } else {
                FileAction::Fail(TransferProblem::SourceNotFile)
            }),
        transfer.phase is Parent ==> transfer.after(FileEvent::Done, false).1.action == (
        if transfer.atomic {
            FileAction::LookAtDestination
        } else {
            FileAction::LookAtWork
        }),
        transfer.phase is Destination ==> forall|there: Node|
            ((#[trigger] transfer.after(FileEvent::Found(there), false)).1.action
                == FileAction::LookAtWork) == (there == Node::Missing),
        transfer.phase is Flush ==> transfer.after(FileEvent::Done, false).1.action == (
        if transfer.atomic && transfer.direction is Upload {
            FileAction::LookAtDestination
        } else {
            FileAction::KeepTime { on_work: transfer.atomic }
        }),
        transfer.phase is Recheck ==> forall|there: Node|
            ((#[trigger] transfer.after(FileEvent::Found(there), false)).1.action
                == FileAction::Publish) == (there == Node::Missing),
        transfer.phase is Publish && transfer.direction is Upload ==> transfer.after(
            FileEvent::Done,
            false,
        ).1.action == (FileAction::KeepTime { on_work: false }),
        transfer.phase is Publish && transfer.direction is Download ==> transfer.after(
            FileEvent::Done,
            false,
        ).1.action is Finish,
        transfer.phase is Time && transfer.direction is Download && transfer.atomic
            ==> transfer.after(FileEvent::Done, false).1.action == FileAction::Publish,
        transfer.phase is Time && !(transfer.direction is Download && transfer.atomic)
            ==> transfer.after(FileEvent::Done, false).1.action is Finish,
{
}

/// A transfer appears at its destination only where nothing stood there a moment
/// before, or, for a download, once its time was kept.
pub proof fn publishing_comes_last(transfer: FileTransfer, event: FileEvent, cancelled: bool)
    requires
        transfer.after(event, cancelled).1.action == FileAction::Publish,
    ensures
        transfer.phase is Recheck && event == FileEvent::Found(Node::Missing) || transfer.phase
            is Time && event == FileEvent::Done && transfer.direction is Download,
{
}

/// A transfer that is stopped goes on with nothing: it fails, and the part of a
/// fresh atomic download is removed first, once it was written to.
pub proof fn stopped_transfers_copy_no_more(transfer: FileTransfer, event: FileEvent)
    requires
        transfer.phase is Begin || transfer.phase is Open && event == FileEvent::Done
            || transfer.phase is Copying && event is Copied && event->Copied_0 > 0,
    ensures
        ({
            let (next, step) = transfer.after(event, true);
            match step.action {
                FileAction::Fail(_) => next.phase == Phase::Finished,
                FileAction::RemoveWork => next.phase is Cleanup,
                _ => false,
            }
        }),
{
}

/// What fails is told as it failed. The part of a fresh atomic download that
/// bytes were copied to is removed first; any other part is left.
pub proof fn failures_are_told(transfer: FileTransfer, problem: TransferProblem, cancelled: bool)
    requires
        transfer.phase is Copying,
    ensures
        ({
            let (next, step) = transfer.after(FileEvent::Failed(problem), cancelled);
            if transfer.atomic && transfer.direction is Download && !transfer.resume {
                step.action == FileAction::RemoveWork && forall|event: FileEvent|
                    (#[trigger] next.after(event, cancelled)).1.action == FileAction::Fail(problem)
            } else {
                step.action == FileAction::Fail(problem)
            }
        }),
{
}

/// Settings are accepted exactly where at least one file and one write go at a
/// time and at most 128 of each, packets are of 4 KiB to 4 MiB, there is time
/// for an answer, and no more than 512 MiB are on their way.
pub proof fn accepted_settings_are_bounded(options: TransferOptions)
    ensures
        options.problem() is None <==> {
            &&& 1 <= options.file_concurrency <= 128
            &&& 1 <= options.sftp_write_concurrency <= 128
            &&& 4096 <= options.sftp_packet_size <= 4194304
            &&& options.request_timeout_secs > 0
            &&& options.file_concurrency * options.sftp_write_concurrency
                * options.sftp_packet_size <= 536870912
        },
{
}

/// A walk counts what it comes by: directories that it makes and enters, and
/// entries that it leaves out. It enters exactly the directories that it makes.
pub proof fn walks_count_what_they_come_by(
    walk: WalkView,
    source: Seq<char>,
    destination: Seq<char>,
    name: Option<Seq<char>>,
    kind: Node,
    cancelled: bool,
)
    ensures
        ({
            let (next, answer) = walk.visited(source, destination, name, kind, cancelled);
            &&& next.direction == walk.direction && next.platform == walk.platform
            &&& next.summary.files == walk.summary.files && next.summary.bytes
                == walk.summary.bytes
            &&& match answer {
                Ok(WalkActionView::MakeDirectory { source: from, destination: to }) => kind
                    == Node::Directory && next.summary.directories == walk.summary.directories + 1
                    && next.summary.skipped == walk.summary.skipped && next.stack
                    == walk.stack.push((from, to)),
                Ok(WalkActionView::Skip) => (kind == Node::Link || kind == Node::Other || kind
                    == Node::Missing) && next.summary.skipped == walk.summary.skipped + 1
                    && next.summary.directories == walk.summary.directories && next.stack
                    == walk.stack,
                Ok(WalkActionView::Transfer { .. }) => kind is File && next == walk,
                Ok(WalkActionView::Ignore) => walk.direction is Download && next == walk,
                Err(_) => next == walk,
            }
        }),
        cancelled ==> walk.visited(source, destination, name, kind, cancelled).1 is Err,
        !cancelled && (kind == Node::Link || kind == Node::Other) && walk.summary.skipped < u64::MAX
            ==> walk.visited(source, destination, name, kind, cancelled).1 == Ok::<
            WalkActionView,
            TransferProblem,
        >(WalkActionView::Skip),
{
}

/// An entry that is transferred is found below its directory on the one side and
/// goes below the matching directory on the other, under the same name.
pub proof fn entries_keep_their_place(
    walk: WalkView,
    source: Seq<char>,
    destination: Seq<char>,
    name: Seq<char>,
    kind: Node,
)
    requires
        source.len() > 0,
        source.last() != '/' && source.last() != '.',
        destination.len() > 0,
        destination.last() != '/' && destination.last() != '.',
    ensures
        match walk.visited(source, destination, Some(name), kind, false).1 {
            Ok(WalkActionView::Transfer { source: from, destination: to }) => from == source + seq![
                '/',
            ] + name && to == destination + seq!['/'] + name && !name.contains('/'),
            Ok(WalkActionView::MakeDirectory { source: from, destination: to }) => from == source
                + seq!['/'] + name && to == destination + seq!['/'] + name && !name.contains('/'),
            _ => true,
        },
        kind is File && name.len() > 0 && !name.contains('/') && !name.contains('\\')
            && !name.contains('\0') && !name.contains('.') && walk.platform == LocalPaths::Posix
            ==> walk.visited(source, destination, Some(name), kind, false).1 is Ok,
{
    reveal_strlit(".");
    reveal_strlit("..");
    assert("."@.last() == '.');
    if name.len() > 0 && name[0] == '/' {
        assert(name.contains('/'));
    }
    if name.len() > 0 && !name.contains('/') && !name.contains('\\') && !name.contains('\0')
        && !name.contains('.') {
        if name == "."@ || name == ".."@ {
            assert(name.contains(name[0]));
            assert(".."@[0] == '.');
        }
        assert(crate::remote_path::child_name_problem(name) is None);
        crate::transfer::lemma_child_is_relative(name);
    }
}

/// Where bytes go first: to the destination itself, or next to it under a name
/// that tells the destination and is not its own.
pub proof fn work_stands_beside_its_destination(path: Seq<char>, other: Seq<char>)
    ensures
        crate::transfer::work_path(path, false) == path,
        crate::transfer::work_path(path, true) != path,
        path.is_prefix_of(crate::transfer::work_path(path, true)),
        crate::transfer::work_path(path, true) == crate::transfer::work_path(other, true) ==> path
            == other,
        crate::transfer::work_path(path, true) == crate::transfer_policy::stable_staging(path),
{
    reveal_strlit(".kaduox.part");
    let a = crate::transfer::work_path(path, true);
    let b = crate::transfer::work_path(other, true);
    assert(a.len() == path.len() + 12);
    assert(a.subrange(0, path.len() as int) =~= path);
    if a == b {
        assert(path =~= a.take(path.len() as int));
        assert(other =~= b.take(other.len() as int));
    }
}

/// The way to an entry is the way to its directory and then the entry itself.
pub proof fn ways_lead_on(path: Seq<char>, name: Seq<char>)
    requires
        path.len() > 0,
        path.last() != '/',
        !crate::transfer::remote_steps(path).1,
        crate::transfer::remote_steps(path).0.len() > 0,
        name.len() > 0,
        !name.contains('/'),
        name != "."@ && name != ".."@,
        crate::transfer::remote_steps(path).0.last() != "."@,
    ensures
        crate::transfer::remote_steps(path + seq!['/'] + name) == (
            crate::transfer::remote_steps(path).0.push(
                crate::transfer::remote_steps(path).0.last() + seq!['/'] + name,
            ),
            false,
        ),
{
    let all = path + seq!['/'] + name;
    reveal_strlit(".");
    reveal_strlit("..");
    reveal_strlit("/");
    crate::text_law::splitting_undoes_joining(path, name, '/');
    crate::text_law::plain_text_is_one_part(name, '/');
    let parts = crate::text::split(path, '/');
    let start = if path[0] == '/' {
        seq!['/']
    } else {
        Seq::empty()
    };
    assert(all[0] == path[0]);
    assert(all.len() >= 3);
    crate::text_law::parts_hold_no_separator(path, '/');
    assert(parts + seq![name] =~= parts.push(name));
    lemma_steps_on(Seq::empty(), start, parts, name, 0);
}

proof fn lemma_steps_on(
    done: Seq<Seq<char>>,
    current: Seq<char>,
    parts: Seq<Seq<char>>,
    name: Seq<char>,
    i: int,
)
    requires
        0 <= i <= parts.len(),
        done.len() > 0 ==> current == done.last() && current.len() > 0 && current.last() != '/',
        forall|k: int| 0 <= k < parts.len() ==> !(#[trigger] parts[k]).contains('/'),
        !crate::transfer::steps_from(done, current, parts, i).1,
        crate::transfer::steps_from(done, current, parts, i).0.len() > 0,
        crate::transfer::steps_from(done, current, parts, i).0.last() != "."@,
        name.len() > 0,
        name != "."@ && name != ".."@,
    ensures
        crate::transfer::steps_from(done, current, parts.push(name), i) == (
            crate::transfer::steps_from(done, current, parts, i).0.push(
                crate::transfer::steps_from(done, current, parts, i).0.last() + seq!['/'] + name,
            ),
            false,
        ),
    decreases parts.len() - i,
{
    let all = parts.push(name);
    if i < parts.len() {
        assert(all[i] == parts[i]);
        if parts[i].len() == 0 || parts[i] == "."@ {
            lemma_steps_on(done, current, parts, name, i + 1);
        } else if parts[i] != ".."@ {
            let next = crate::remote_path::under_root(current, parts[i]);
            assert(next.last() == parts[i].last());
            assert(parts[i].contains(parts[i].last()));
            lemma_steps_on(done.push(next), next, parts, name, i + 1);
        }
    } else {
        let next = crate::remote_path::under_root(current, name);
        assert(crate::transfer::steps_from(done.push(next), next, all, i + 1) == (
            done.push(next),
            false,
        ));
    }
}

/// The directory of a remote path is what stands before its last separator.
pub proof fn parents_are_named(directory: Seq<char>, name: Seq<char>)
    requires
        !name.contains('/'),
    ensures
        directory.len() > 0 ==> crate::transfer::named_parent(directory + seq!['/'] + name) == Some(
            directory,
        ),
        crate::transfer::named_parent(name) is None,
        crate::transfer::named_parent(seq!['/'] + name) is None,
{
    let all = directory + seq!['/'] + name;
    crate::target::lemma_last_position(all, '/');
    assert(all[directory.len() as int] == '/');
    assert forall|k: int| directory.len() < k < all.len() implies all[k] != '/' by {
        assert(name.contains(name[k - directory.len() - 1]));
    }
    assert(all.take(directory.len() as int) =~= directory);
    crate::target::lemma_last_position(name, '/');
    if crate::target::last_position(name, '/') >= 0 {
        assert(name.contains(name[crate::target::last_position(name, '/')]));
    }
    let root = seq!['/'] + name;
    crate::target::lemma_last_position(root, '/');
    assert forall|k: int| 0 < k < root.len() implies root[k] != '/' by {
        assert(name.contains(name[k - 1]));
    }
}

/// A name for staging has as many characters, keeps letters, digits, dots,
/// dashes and underscores, and holds nothing else.
pub proof fn staging_names_are_plain(name: Seq<char>, k: int)
    requires
        0 <= k < name.len(),
    ensures
        ({
            let c = name[k];
            let plain = 'a' <= c <= 'z' || 'A' <= c <= 'Z' || '0' <= c <= '9' || c == '.' || c == '-'
                || c == '_';
            &&& crate::transfer::staging_name(name).len() == name.len()
            &&& crate::transfer::staging_name(name)[k] == (if plain {
                c
            } else {
                '_'
            })
        }),
{
}

/// A download goes into a directory that is reached through directories alone, and
/// writes where nothing stands; what has not been looked at is asked for.
pub proof fn downloads_take_free_places(
    directory: Seq<char>,
    path: Seq<char>,
    book: Seq<(Seq<char>, Node)>,
)
    ensures
        crate::transfer_download_policy::file_fault(directory, path, book) is None ==> {
            &&& crate::text_map::lookup(book, path) == Some(Node::Missing)
            &&& crate::transfer_download_policy::way_to(directory, book) is Ok
        },
        crate::transfer_download_policy::way_to(directory, book) is Ok ==> (match
            crate::text_map::lookup(book, path) {
            None => crate::transfer_download_policy::file_fault(directory, path, book) == Some(
                PreflightFault::Need(path),
            ),
            Some(Node::Missing) => crate::transfer_download_policy::file_fault(
                directory,
                path,
                book,
            ) is None,
            Some(Node::Link) => crate::transfer_download_policy::file_fault(directory, path, book)
                == Some(PreflightFault::Refused(TransferProblem::DestinationIsLink, path)),
            Some(_) => crate::transfer_download_policy::file_fault(directory, path, book) == Some(
                PreflightFault::Refused(TransferProblem::DestinationExists, path),
            ),
        }),
        crate::transfer_download_policy::way_to(directory, book) matches Err(fault)
            ==> crate::transfer_download_policy::file_fault(directory, path, book) == Some(fault),
{
}

/// A way is walked as far as there are directories. Where all of its steps are, it
/// is there; a missing step says that it is not; a link is not followed, and
/// anything else is no directory.
pub proof fn ways_are_walked_through_directories(
    steps: Seq<Seq<char>>,
    book: Seq<(Seq<char>, Node)>,
    i: int,
) -> (k: int)
    requires
        0 <= i <= steps.len(),
    ensures
        i <= k <= steps.len(),
        forall|j: int|
            i <= j < k ==> crate::text_map::lookup(book, #[trigger] steps[j]) == Some(
                Node::Directory,
            ),
        k == steps.len() ==> crate::transfer_download_policy::way_from(steps, book, i) == Ok::<
            bool,
            PreflightFault,
        >(true),
        k < steps.len() ==> crate::transfer_download_policy::way_from(steps, book, i) == (match
            crate::text_map::lookup(book, steps[k]) {
            None => Err::<bool, PreflightFault>(PreflightFault::Need(steps[k])),
            Some(Node::Missing) => Ok(false),
            Some(Node::Link) => Err(
                PreflightFault::Refused(TransferProblem::DirectoryIsLink, steps[k]),
            ),
            Some(_) => Err(PreflightFault::Refused(TransferProblem::NotADirectory, steps[k])),
        }),
        k < steps.len() ==> crate::text_map::lookup(book, steps[k]) != Some(Node::Directory),
    decreases steps.len() - i,
{
    if i < steps.len() && crate::text_map::lookup(book, steps[i]) == Some(Node::Directory) {
        ways_are_walked_through_directories(steps, book, i + 1)
    } else {
        i
    }
}

} // verus!
