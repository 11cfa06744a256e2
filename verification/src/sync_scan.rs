//! Looking through the two trees of a synchronization.

use vstd::prelude::*;
use vstd::string::*;

use crate::nodes::Node;
use crate::paths::join_path;
use crate::remote_path::join_remote_under_root;
use crate::remote_path::validate_remote_child_name;
use crate::sync::sync_error;
use crate::sync::EntryKind;
use crate::sync::SnapshotEntry;
use crate::sync::SyncError;
use crate::sync::SyncProblem;
use crate::text::joined3;
use crate::text::same_text;
use crate::text_map::TextMap;

verus! {

/// A path below the root, from the path of a directory and a name in it.
pub open spec fn relative_join(parent: Seq<char>, child: Seq<char>) -> Seq<char> {
    if parent.len() == 0 {
        child
    } else {
        parent + "/"@ + child
    }
}

pub fn join_relative(parent: &str, child: &str) -> (r: String)
    ensures
        r@ == relative_join(parent@, child@),
{
    if parent.is_empty() {
        child.to_owned()
    } else {
        joined3(parent, "/", child)
    }
}

/// A tree that is being looked through: what was found, and the directories
/// that are left, each with its path and its path below the root.
#[derive(Debug, PartialEq, Eq)]
pub struct SyncScan {
    pub snapshot: TextMap<SnapshotEntry>,
    pub stack: Vec<(String, String)>,
}

pub open spec fn left_over(stack: Seq<(String, String)>) -> Seq<(Seq<char>, Seq<char>)> {
    stack.map_values(|d: (String, String)| (d.0@, d.1@))
}

#[verifier::ext_equal]
pub struct ScanView {
    pub found: Seq<(Seq<char>, SnapshotEntry)>,
    pub left: Seq<(Seq<char>, Seq<char>)>,
}

impl View for SyncScan {
    type V = ScanView;

    open spec fn view(&self) -> ScanView {
        ScanView { found: self.snapshot.entries(), left: left_over(self.stack@) }
    }
}

impl ScanView {
    /// The tree after an entry was found, and a directory put on the list.
    pub open spec fn with(
        self,
        path: Seq<char>,
        entry: SnapshotEntry,
        directory: Option<Seq<char>>,
    ) -> ScanView {
        ScanView {
            found: crate::text_map::put(self.found, path, entry),
            left: match directory {
                Some(place) => self.left.push((place, path)),
                None => self.left,
            },
        }
    }
}

impl SyncScan {
    fn rooted(root: &str) -> (r: Self)
        ensures
            r@.found == Seq::<(Seq<char>, SnapshotEntry)>::empty(),
            r@.left == seq![(root@, Seq::<char>::empty())],
    {
        let mut stack: Vec<(String, String)> = Vec::new();
        let top = String::new();
        assert(top@ =~= Seq::<char>::empty());
        stack.push((root.to_owned(), top));
        assert(left_over(stack@) =~= seq![(root@, Seq::<char>::empty())]);
        SyncScan { snapshot: TextMap::new(), stack }
    }

    /// Starts at a local root, which has to be a directory.
    pub fn start_local(root: &str, node: Node) -> (r: Result<Self, SyncError>)
        ensures
            match r {
                Ok(scan) => node is Directory && scan@.found == Seq::<
                    (Seq<char>, SnapshotEntry),
                >::empty() && scan@.left == seq![(root@, Seq::<char>::empty())],
                Err(e) => !(node is Directory) && e@ == crate::sync::sync_fault(
                    if node is Link {
                        SyncProblem::RootIsLink
                    } else {
                        SyncProblem::RootNotDirectory
                    },
                    root@,
                ),
            },
    {
        match node {
            Node::Directory => Ok(SyncScan::rooted(root)),
            Node::Link => Err(sync_error(SyncProblem::RootIsLink, root)),
            _ => Err(sync_error(SyncProblem::RootNotDirectory, root)),
        }
    }

    /// Starts at a remote root. Where there is none, nothing is found.
    pub fn start_remote(root: &str, node: Node) -> (r: Result<Self, SyncError>)
        ensures
            match r {
                Ok(scan) => (node is Directory || node is Missing) && scan@.found == Seq::<
                    (Seq<char>, SnapshotEntry),
                >::empty() && scan@.left == (if node is Directory {
                    seq![(root@, Seq::<char>::empty())]
                } else {
                    Seq::empty()
                }),
                Err(e) => !(node is Directory || node is Missing) && e@
                    == crate::sync::sync_fault(
                    if node is Link {
                        SyncProblem::RootIsLink
                    } else {
                        SyncProblem::RootNotDirectory
                    },
                    root@,
                ),
            },
    {
        match node {
            Node::Missing => {
                let stack: Vec<(String, String)> = Vec::new();
                assert(left_over(stack@) =~= Seq::<(Seq<char>, Seq<char>)>::empty());
                Ok(SyncScan { snapshot: TextMap::new(), stack })
            },
            _ => SyncScan::start_local(root, node),
        }
    }

    /// The directory to list next, with its path below the root.
    pub fn next_directory(&mut self) -> (r: Option<(String, String)>)
        ensures
            final(self)@.found == old(self)@.found,
            match r {
                Some(d) => old(self)@.left.len() > 0 && (d.0@, d.1@) == old(self)@.left.last()
                    && final(self)@.left == old(self)@.left.drop_last(),
                None => old(self)@.left.len() == 0 && final(self)@.left == old(self)@.left,
            },
    {
        let ghost before = self@.left;
        if self.stack.len() == 0 {
            return None;
        }
        assert(before.last() == (
            self.stack@[self.stack@.len() - 1].0@,
            self.stack@[self.stack@.len() - 1].1@,
        ));
        let top = self.stack.pop();
        assert(self@.left =~= before.drop_last());
        top
    }

    fn note(&mut self, path: String, entry: SnapshotEntry, directory: Option<String>)
        ensures
            final(self)@ == old(self)@.with(
                path@,
                entry,
                match directory {
                    Some(place) => Some(place@),
                    None => None,
                },
            ),
    {
        let ghost before = self@;
        match directory {
            Some(place) => {
                let ghost place_view = place@;
                self.stack.push((place, path.clone()));
                assert(left_over(self.stack@) =~= before.left.push((place_view, path@)));
            },
            None => {},
        }
        self.snapshot.insert(path, entry);
    }

    /// Takes in an entry of a local directory. The name is missing where it is
    /// no text. Links are left out, and so is what is neither file nor
    /// directory.
    pub fn visit_local(
        &mut self,
        directory: &str,
        relative: &str,
        name: Option<&str>,
        node: Node,
        mtime: Option<u32>,
    ) -> (r: Result<(), SyncError>)
        ensures
            match name {
                None => r matches Err(e) && e@ == crate::sync::sync_fault(
                    SyncProblem::NameNotText,
                    directory@,
                ) && final(self)@ == old(self)@,
                Some(text) => match crate::remote_path::child_name_problem(text@) {
                    Some(p) => r matches Err(e) && e@ == crate::sync::sync_fault(
                        SyncProblem::UnsafePath(p),
                        text@,
                    ) && final(self)@ == old(self)@,
                    None => {
                        let path = relative_join(relative@, text@);
                        r is Ok && final(self)@ == match node {
                            Node::Directory => old(self)@.with(
                                path,
                                SnapshotEntry { kind: EntryKind::Directory, len: 0, mtime },
                                Some(crate::paths::path_join(directory@, text@)),
                            ),
                            Node::File { len } => old(self)@.with(
                                path,
                                SnapshotEntry { kind: EntryKind::File, len, mtime },
                                None,
                            ),
                            _ => old(self)@,
                        }
                    },
                },
            },
    {
        let text = match name {
            Some(text) => text,
            None => {
                return Err(sync_error(SyncProblem::NameNotText, directory));
            },
        };
        match validate_remote_child_name(text) {
            Ok(()) => {},
            Err(e) => {
                return Err(sync_error(SyncProblem::UnsafePath(e), text));
            },
        }
        let path = join_relative(relative, text);
        match node {
            Node::Directory => {
                let place = join_path(directory, text);
                self.note(
                    path,
                    SnapshotEntry { kind: EntryKind::Directory, len: 0, mtime },
                    Some(place),
                );
            },
            Node::File { len } => {
                self.note(path, SnapshotEntry { kind: EntryKind::File, len, mtime }, None);
            },
            _ => {},
        }
        Ok(())
    }

    /// Takes in an entry of a remote directory. The place of a directory is
    /// made from the directory that was listed and the checked name, never
    /// taken from the server.
    pub fn visit_remote(
        &mut self,
        directory: &str,
        relative: &str,
        name: &str,
        entry: SnapshotEntry,
    ) -> (r: Result<(), SyncError>)
        ensures
            if crate::remote_fs::is_dots(name@) {
                r is Ok && final(self)@ == old(self)@
            } else {
                match crate::remote_path::child_name_problem(name@) {
                    Some(p) => r matches Err(e) && e@ == crate::sync::sync_fault(
                        SyncProblem::UnsafePath(p),
                        name@,
                    ) && final(self)@ == old(self)@,
                    None => r is Ok && final(self)@ == old(self)@.with(
                        relative_join(relative@, name@),
                        entry,
                        if entry.kind is Directory {
                            Some(crate::remote_path::under_root(directory@, name@))
                        } else {
                            None
                        },
                    ),
                }
            },
    {
        if same_text(name, ".") || same_text(name, "..") {
            return Ok(());
        }
        match validate_remote_child_name(name) {
            Ok(()) => {},
            Err(e) => {
                return Err(sync_error(SyncProblem::UnsafePath(e), name));
            },
        }
        let path = join_relative(relative, name);
        proof {
            crate::transfer::lemma_child_is_relative(name@);
        }
        let place = match join_remote_under_root(directory, name) {
            Ok(place) => place,
            Err(e) => {
                return Err(sync_error(SyncProblem::UnsafePath(e), name));
            },
        };
        let listed = if entry.kind == EntryKind::Directory {
            Some(place)
        } else {
            None
        };
        self.note(path, entry, listed);
        Ok(())
    }
}

} // verus!
