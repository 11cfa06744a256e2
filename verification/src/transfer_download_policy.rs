//! Downloads that appear at their destination whole or not at all.

use vstd::prelude::*;
use vstd::string::*;

use crate::nodes::Node;
use crate::nodes::NodeBook;
use crate::paths::join_path;
use crate::remote_path::place_under_root;
use crate::remote_path::LocalPaths;
use crate::text::same_text;
use crate::transfer::check_directory;
use crate::transfer::check_entry_name;
use crate::transfer::local_directory_steps;
use crate::transfer::TransferDirection;
use crate::transfer::TransferProblem;
use crate::transfer::WalkActionView;
use crate::transfer::WalkView;
use crate::transfer_policy::ensure_atomic_destination_absent;
use crate::transfer_policy::stable_remote_staging_path;
use crate::transfer_policy::unique_remote_staging_path;

verus! {

/// How linking the staging file to the destination went.
#[derive(Debug, Clone, Copy, PartialEq, Eq, Structural)]
pub enum LinkOutcome {
    Linked,
    Occupied,
    Failed,
}

/// The staging file must still be a file when it is published.
pub fn check_publish(staging: Node) -> (r: Result<(), TransferProblem>)
    ensures
        r == (if staging is File {
            Ok::<(), TransferProblem>(())
        } else {
            Err(TransferProblem::StagingGone)
        }),
{
    match staging {
        Node::File { .. } => Ok(()),
        _ => Err(TransferProblem::StagingGone),
    }
}

/// What came of publishing a download: the destination is linked to the staging
/// file, which is then removed. What stands at the destination is never
/// replaced.
pub fn publish_result(linked: LinkOutcome, staging_removed: bool) -> (r: Result<(), TransferProblem>)
    ensures
        r == (match linked {
            LinkOutcome::Occupied => Err::<(), TransferProblem>(TransferProblem::DestinationExists),
            LinkOutcome::Failed => Err(TransferProblem::PublishFailed),
            LinkOutcome::Linked => if staging_removed {
                Ok(())
            } else {
                Err(TransferProblem::CleanupFailed)
            },
        }),
{
    match linked {
        LinkOutcome::Occupied => Err(TransferProblem::DestinationExists),
        LinkOutcome::Failed => Err(TransferProblem::PublishFailed),
        LinkOutcome::Linked => if staging_removed {
            Ok(())
        } else {
            Err(TransferProblem::CleanupFailed)
        },
    }
}

pub fn stable_local_staging_path(path: &str) -> (r: String)
    ensures
        r@ == crate::transfer_policy::stable_staging(path@),
{
    stable_remote_staging_path(path)
}

pub fn unique_local_staging_path(path: &str, process: u32, stamp: u64, serial: u64) -> (r: String)
    ensures
        r@ == crate::transfer_policy::unique_staging(path@, process, stamp, serial),
{
    unique_remote_staging_path(path, process, stamp, serial)
}

/// Why a look ahead stops.
#[derive(Debug, PartialEq, Eq)]
pub enum PreflightStop {
    /// What stands at the path has to be looked up first.
    Need(String),
    /// The download is refused, for what was found at the path.
    Refused(TransferProblem, String),
}

#[verifier::ext_equal]
pub enum PreflightFault {
    Need(Seq<char>),
    Refused(TransferProblem, Seq<char>),
}

impl View for PreflightStop {
    type V = PreflightFault;

    open spec fn view(&self) -> PreflightFault {
        match *self {
            PreflightStop::Need(path) => PreflightFault::Need(path@),
            PreflightStop::Refused(problem, path) => PreflightFault::Refused(problem, path@),
        }
    }
}

fn refused(problem: TransferProblem, path: &str) -> (r: PreflightStop)
    ensures
        r@ == PreflightFault::Refused(problem, path@),
{
    PreflightStop::Refused(problem, path.to_owned())
}

/// Whether all the paths are directories, from path `i` on. What is below a
/// missing one is not looked at.
pub open spec fn way_from(
    steps: Seq<Seq<char>>,
    book: Seq<(Seq<char>, Node)>,
    i: int,
) -> Result<bool, PreflightFault>
    decreases steps.len() - i,
{
    if i < 0 || i >= steps.len() {
        Ok(true)
    } else {
        match crate::text_map::lookup(book, steps[i]) {
            None => Err(PreflightFault::Need(steps[i])),
            Some(Node::Directory) => way_from(steps, book, i + 1),
            Some(Node::Missing) => Ok(false),
            Some(Node::Link) => Err(
                PreflightFault::Refused(TransferProblem::DirectoryIsLink, steps[i]),
            ),
            Some(_) => Err(PreflightFault::Refused(TransferProblem::NotADirectory, steps[i])),
        }
    }
}

/// Whether a local directory is there, reached through directories alone.
pub open spec fn way_to(path: Seq<char>, book: Seq<(Seq<char>, Node)>) -> Result<
    bool,
    PreflightFault,
> {
    way_from(crate::transfer::local_ancestors(path), book, 0)
}

/// Looks at the way to a local directory before anything is created. The
/// directory may be missing; a link on the way is not followed.
pub fn preflight_local_directory(path: &str, book: &NodeBook) -> (r: Result<bool, PreflightStop>)
    ensures
        match r {
            Ok(there) => way_to(path@, book.entries()) == Ok::<bool, PreflightFault>(there),
            Err(e) => way_to(path@, book.entries()) == Err::<bool, PreflightFault>(e@),
        },
{
    let steps = local_directory_steps(path);
    let ghost all = crate::text::views(steps@);
    let ghost known = book.entries();
    let mut i: usize = 0;
    while i < steps.len()
        invariant
            all == crate::text::views(steps@),
            known == book.entries(),
            i <= steps@.len(),
            way_to(path@, known) == way_from(all, known, i as int),
        decreases steps@.len() - i,
    {
        assert(all[i as int] == steps@[i as int]@);
        let step = steps[i].as_str();
        match book.get(step) {
            None => {
                return Err(PreflightStop::Need(step.to_owned()));
            },
            Some(node) => match check_directory(*node) {
                Ok(missing) => {
                    if missing {
                        return Ok(false);
                    }
                },
                Err(problem) => {
                    return Err(refused(problem, step));
                },
            },
        }
        i += 1;
    }
    Ok(true)
}

/// What stops a file from being created in a local directory.
pub open spec fn file_fault(
    directory: Seq<char>,
    path: Seq<char>,
    book: Seq<(Seq<char>, Node)>,
) -> Option<PreflightFault> {
    match way_to(directory, book) {
        Err(fault) => Some(fault),
        Ok(_) => match crate::text_map::lookup(book, path) {
            None => Some(PreflightFault::Need(path)),
            Some(node) => match crate::transfer_policy::destination_problem(node) {
                Some(problem) => Some(PreflightFault::Refused(problem, path)),
                None => None,
            },
        },
    }
}

/// Looks at the place of a file before anything is created.
pub fn preflight_atomic_file_destination(directory: &str, path: &str, book: &NodeBook) -> (r: Result<
    (),
    PreflightStop,
>)
    ensures
        match r {
            Ok(()) => file_fault(directory@, path@, book.entries()) is None,
            Err(e) => file_fault(directory@, path@, book.entries()) == Some(e@),
        },
{
    match preflight_local_directory(directory, book) {
        Ok(_) => {},
        Err(e) => {
            return Err(e);
        },
    }
    match book.get(path) {
        None => Err(PreflightStop::Need(path.to_owned())),
        Some(node) => match ensure_atomic_destination_absent(*node) {
            Ok(()) => Ok(()),
            Err(problem) => Err(refused(problem, path)),
        },
    }
}

/// A look ahead at where the files and directories of a remote tree will go,
/// taken before any of them is created: the directories that are left, each in
/// the source and at the destination.
#[derive(Debug, PartialEq, Eq)]
pub struct DownloadPreflight {
    pub platform: LocalPaths,
    pub stack: Vec<(String, String)>,
}

#[verifier::ext_equal]
pub struct PreflightView {
    pub platform: LocalPaths,
    pub stack: Seq<(Seq<char>, Seq<char>)>,
}

impl View for DownloadPreflight {
    type V = PreflightView;

    open spec fn view(&self) -> PreflightView {
        PreflightView {
            platform: self.platform,
            stack: crate::command::pair_views(self.stack@),
        }
    }
}

/// What is left to look at after an entry of a directory, and what came of the
/// entry.
pub open spec fn looked_at(
    ahead: PreflightView,
    source: Seq<char>,
    destination: Seq<char>,
    name: Seq<char>,
    kind: Node,
    cancelled: bool,
    book: Seq<(Seq<char>, Node)>,
) -> (PreflightView, Result<(), PreflightFault>) {
    let problem = crate::transfer::entry_problem(
        TransferDirection::Download,
        ahead.platform,
        name,
    );
    let paths = crate::transfer::entry_paths(
        TransferDirection::Download,
        source,
        destination,
        name,
    );
    if cancelled {
        (ahead, Err(PreflightFault::Refused(TransferProblem::Cancelled, source)))
    } else if !(kind is Directory) && !(kind is File) {
        (ahead, Ok(()))
    } else if crate::remote_fs::is_dots(name) {
        (ahead, Ok(()))
    } else if problem is Some {
        (ahead, Err(PreflightFault::Refused(TransferProblem::Name(problem->0), source)))
    } else if kind is File {
        (
            ahead,
            match file_fault(destination, paths.1, book) {
                Some(fault) => Err(fault),
                None => Ok(()),
            },
        )
    } else {
        match way_to(paths.1, book) {
            Ok(_) => (PreflightView { stack: ahead.stack.push(paths), ..ahead }, Ok(())),
            Err(fault) => (ahead, Err(fault)),
        }
    }
}

impl DownloadPreflight {
    /// Starts with the directory that the tree goes to.
    pub fn start(remote_root: &str, local_root: &str, platform: LocalPaths, book: &NodeBook) -> (r:
        Result<Self, PreflightStop>)
        ensures
            match r {
                Ok(p) => way_to(local_root@, book.entries()) is Ok && p@ == (PreflightView {
                    platform,
                    stack: seq![(remote_root@, local_root@)],
                }),
                Err(e) => way_to(local_root@, book.entries()) == Err::<bool, PreflightFault>(e@),
            },
    {
        match preflight_local_directory(local_root, book) {
            Ok(_) => {},
            Err(e) => {
                return Err(e);
            },
        }
        let mut stack: Vec<(String, String)> = Vec::new();
        stack.push((remote_root.to_owned(), local_root.to_owned()));
        let r = DownloadPreflight { platform, stack };
        assert(r@.stack =~= seq![(remote_root@, local_root@)]);
        Ok(r)
    }

    /// The directory to list next.
    pub fn next_directory(&mut self) -> (r: Option<(String, String)>)
        ensures
            match r {
                Some((source, destination)) => {
                    &&& old(self)@.stack.len() > 0
                    &&& old(self)@.stack.last() == (source@, destination@)
                    &&& final(self)@ == (PreflightView {
                        stack: old(self)@.stack.drop_last(),
                        ..old(self)@
                    })
                },
                None => old(self)@.stack.len() == 0 && final(self)@ == old(self)@,
            },
    {
        let ghost before = self@;
        if self.stack.len() == 0 {
            return None;
        }
        assert(before.stack.last() == (
            self.stack@[self.stack@.len() - 1].0@,
            self.stack@[self.stack@.len() - 1].1@,
        ));
        let top = self.stack.pop();
        assert(self@.stack =~= before.stack.drop_last());
        top
    }

    /// Takes in an entry of a directory. Where something has to be looked up
    /// first nothing changes, and the entry is taken in again afterwards.
    pub fn visit(
        &mut self,
        source: &str,
        destination: &str,
        name: &str,
        kind: Node,
        cancelled: bool,
        book: &NodeBook,
    ) -> (r: Result<(), PreflightStop>)
        ensures
            match r {
                Ok(()) => looked_at(
                    old(self)@,
                    source@,
                    destination@,
                    name@,
                    kind,
                    cancelled,
                    book.entries(),
                ) == (final(self)@, Ok::<(), PreflightFault>(())),
                Err(e) => looked_at(
                    old(self)@,
                    source@,
                    destination@,
                    name@,
                    kind,
                    cancelled,
                    book.entries(),
                ) == (final(self)@, Err::<(), PreflightFault>(e@)),
            },
    {
        if cancelled {
            return Err(refused(TransferProblem::Cancelled, source));
        }
        let is_file = match kind {
            Node::File { .. } => true,
            _ => false,
        };
        let is_directory = match kind {
            Node::Directory => true,
            _ => false,
        };
        if !is_directory && !is_file {
            return Ok(());
        }
        if same_text(name, ".") || same_text(name, "..") {
            return Ok(());
        }
        match check_entry_name(TransferDirection::Download, self.platform, name) {
            Ok(()) => {},
            Err(e) => {
                return Err(refused(TransferProblem::Name(e), source));
            },
        }
        let to = join_path(destination, name);
        if is_file {
            return preflight_atomic_file_destination(destination, to.as_str(), book);
        }
        match preflight_local_directory(to.as_str(), book) {
            Ok(_) => {},
            Err(e) => {
                return Err(e);
            },
        }
        let from = place_under_root(source, name);
        let ghost before = self@;
        let ghost paths = (from@, to@);
        self.stack.push((from, to));
        assert(self@.stack =~= before.stack.push(paths));
        Ok(())
    }
}

proof fn lemma_way(steps: Seq<Seq<char>>, book: Seq<(Seq<char>, Node)>, i: int, k: int)
    requires
        0 <= i <= k < steps.len(),
        way_from(steps, book, i) is Ok,
        forall|j: int|
            i <= j < k ==> crate::text_map::lookup(book, #[trigger] steps[j]) == Some(
                Node::Directory,
            ),
    ensures
        crate::text_map::lookup(book, steps[k]) == Some(Node::Directory)
            || crate::text_map::lookup(book, steps[k]) == Some(Node::Missing),
    decreases k - i,
{
    if i < k {
        assert(crate::text_map::lookup(book, steps[i]) == Some(Node::Directory));
        lemma_way(steps, book, i + 1, k);
    }
}

/// Down to the first path that is missing, an accepted way to a directory goes
/// through directories: it follows no link.
pub proof fn accepted_ways_follow_no_link(path: Seq<char>, book: Seq<(Seq<char>, Node)>, k: int)
    requires
        way_to(path, book) is Ok,
        0 <= k < crate::transfer::local_ancestors(path).len(),
        forall|j: int|
            0 <= j < k ==> crate::text_map::lookup(
                book,
                #[trigger] crate::transfer::local_ancestors(path)[j],
            ) == Some(Node::Directory),
    ensures
        ({
            let node = crate::text_map::lookup(book, crate::transfer::local_ancestors(path)[k]);
            node == Some(Node::Directory) || node == Some(Node::Missing)
        }),
{
    lemma_way(crate::transfer::local_ancestors(path), book, 0, k);
}

/// The look ahead and the download go through the same directories. What the
/// look ahead accepts of an entry holds for what the download then does with
/// it: a file goes where nothing stands, and a directory where the way is free.
pub proof fn download_goes_where_was_looked(
    walk: WalkView,
    source: Seq<char>,
    destination: Seq<char>,
    name: Seq<char>,
    kind: Node,
    cancelled: bool,
    book: Seq<(Seq<char>, Node)>,
)
    requires
        walk.direction is Download,
    ensures
        ({
            let (rest, outcome) = looked_at(
                PreflightView { platform: walk.platform, stack: walk.stack },
                source,
                destination,
                name,
                kind,
                cancelled,
                book,
            );
            let (after, action) = walk.visited(source, destination, Some(name), kind, cancelled);
            outcome is Ok ==> {
                &&& action is Ok ==> rest.stack == after.stack && rest.platform == after.platform
                &&& action is Err ==> action == Err::<WalkActionView, TransferProblem>(
                    TransferProblem::CounterOverflow,
                )
                &&& action matches Ok(WalkActionView::Transfer { destination: to, .. }) ==> {
                    &&& way_to(destination, book) is Ok
                    &&& crate::text_map::lookup(book, to) == Some(Node::Missing)
                }
                &&& action matches Ok(WalkActionView::MakeDirectory { destination: to, .. })
                    ==> way_to(to, book) is Ok
            }
        }),
{
}

} // verus!
