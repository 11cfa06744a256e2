//! What is done about symbolic links in trees that are transferred.

use vstd::prelude::*;
use vstd::string::*;

use crate::nodes::Node;
use crate::remote_path::join_remote_under_root;
use crate::remote_path::validate_remote_child_name;
use crate::remote_path::RemotePathProblem;
use crate::text::same_text;

verus! {

/// Links are never followed: they are left out, or the tree is refused.
#[derive(Debug, Clone, Copy, PartialEq, Eq, Structural)]
pub enum SymlinkPolicy {
    Skip,
    Reject,
}

impl Default for SymlinkPolicy {
    fn default() -> (r: Self)
        ensures
            r == SymlinkPolicy::Skip,
    {
        SymlinkPolicy::Skip
    }
}

impl SymlinkPolicy {
    /// The tree has to be looked through before anything is done.
    pub fn needs_preflight(self) -> (r: bool)
        ensures
            r == (self is Reject),
    {
        match self {
            SymlinkPolicy::Skip => false,
            SymlinkPolicy::Reject => true,
        }
    }
}

#[derive(Debug, Clone, Copy, PartialEq, Eq, Structural)]
pub enum LinkProblem {
    Cancelled,
    RootIsLink,
    RootIsFile,
    RootNotTree,
    EntryIsLink,
    Name(RemotePathProblem),
}

impl LinkProblem {
    pub open spec fn text(self) -> Seq<char> {
        match self {
            LinkProblem::Cancelled => "transfer cancelled"@,
            LinkProblem::RootIsLink => "symlink policy rejects a symbolic-link source root"@,
            LinkProblem::RootIsFile => "recursive source root must be a directory"@,
            LinkProblem::RootNotTree => "recursive source root is not a regular file or directory"@,
            LinkProblem::EntryIsLink => "symlink policy rejects a symbolic-link entry"@,
            LinkProblem::Name(_) => "unsafe SFTP directory entry"@,
        }
    }

    pub fn message(self) -> (r: &'static str)
        ensures
            r@ == self.text(),
    {
        match self {
            LinkProblem::Cancelled => "transfer cancelled",
            LinkProblem::RootIsLink => "symlink policy rejects a symbolic-link source root",
            LinkProblem::RootIsFile => "recursive source root must be a directory",
            LinkProblem::RootNotTree => "recursive source root is not a regular file or directory",
            LinkProblem::EntryIsLink => "symlink policy rejects a symbolic-link entry",
            LinkProblem::Name(_) => "unsafe SFTP directory entry",
        }
    }
}

/// A tree that is being looked through for links: the directories that are
/// left.
#[derive(Debug, PartialEq, Eq)]
pub struct LinkScan {
    pub stack: Vec<String>,
}

impl View for LinkScan {
    type V = Seq<Seq<char>>;

    open spec fn view(&self) -> Seq<Seq<char>> {
        crate::text::views(self.stack@)
    }
}

impl LinkScan {
    /// Starts looking through a local tree. A root that is a file is a tree
    /// without entries, where that is allowed.
    pub fn start_local(root: &str, node: Node, allow_file_root: bool, cancelled: bool) -> (r: Result<
        Self,
        LinkProblem,
    >)
        ensures
            match r {
                Ok(scan) => !cancelled && match node {
                    Node::Directory => scan@ == seq![root@],
                    Node::File { .. } => allow_file_root && scan@.len() == 0,
                    _ => false,
                },
                Err(e) => e == (if cancelled {
                    LinkProblem::Cancelled
                } else if node is Link {
                    LinkProblem::RootIsLink
                } else if node is File {
                    LinkProblem::RootIsFile
                } else {
                    LinkProblem::RootNotTree
                }) && (cancelled || !(node is Directory)) && (node is File && allow_file_root
                    ==> cancelled),
            },
    {
        if cancelled {
            return Err(LinkProblem::Cancelled);
        }
        match node {
            Node::Link => Err(LinkProblem::RootIsLink),
            Node::File { .. } => if allow_file_root {
                Ok(LinkScan { stack: Vec::new() })
            } else {
                Err(LinkProblem::RootIsFile)
            },
            Node::Directory => {
                let mut stack: Vec<String> = Vec::new();
                stack.push(root.to_owned());
                assert(crate::text::views(stack@) =~= seq![root@]);
                Ok(LinkScan { stack })
            },
            _ => Err(LinkProblem::RootNotTree),
        }
    }

    /// Starts looking through a remote tree. Where the root is no directory
    /// there is nothing to look through.
    pub fn start_remote(root: &str, node: Node, cancelled: bool) -> (r: Result<Self, LinkProblem>)
        ensures
            match r {
                Ok(scan) => !cancelled && !(node is Link) && scan@ == (if node is Directory {
                    seq![root@]
                } else {
                    Seq::empty()
                }),
                Err(e) => if cancelled {
                    e == LinkProblem::Cancelled
                } else {
                    node is Link && e == LinkProblem::RootIsLink
                },
            },
    {
        if cancelled {
            return Err(LinkProblem::Cancelled);
        }
        let mut stack: Vec<String> = Vec::new();
        match node {
            Node::Link => {
                return Err(LinkProblem::RootIsLink);
            },
            Node::Directory => {
                stack.push(root.to_owned());
                assert(crate::text::views(stack@) =~= seq![root@]);
            },
            _ => {
                assert(crate::text::views(stack@) =~= Seq::<Seq<char>>::empty());
            },
        }
        Ok(LinkScan { stack })
    }

    /// The directory to list next.
    pub fn next_directory(&mut self) -> (r: Option<String>)
        ensures
            match r {
                Some(path) => old(self)@.len() > 0 && path@ == old(self)@.last() && final(self)@
                    == old(self)@.drop_last(),
                None => old(self)@.len() == 0 && final(self)@ == old(self)@,
            },
    {
        let ghost before = self@;
        if self.stack.len() == 0 {
            return None;
        }
        assert(before.last() == self.stack@[self.stack@.len() - 1]@);
        let top = self.stack.pop();
        assert(self@ =~= before.drop_last());
        top
    }

    /// Looks at an entry of a local directory.
    pub fn visit_local(&mut self, path: &str, node: Node, cancelled: bool) -> (r: Result<
        (),
        LinkProblem,
    >)
        ensures
            if cancelled {
                r == Err::<(), LinkProblem>(LinkProblem::Cancelled) && final(self)@ == old(self)@
            } else if node is Link {
                r == Err::<(), LinkProblem>(LinkProblem::EntryIsLink) && final(self)@ == old(self)@
            } else if node is Directory {
                r is Ok && final(self)@ == old(self)@.push(path@)
            } else {
                r is Ok && final(self)@ == old(self)@
            },
    {
        if cancelled {
            return Err(LinkProblem::Cancelled);
        }
        match node {
            Node::Link => {
                return Err(LinkProblem::EntryIsLink);
            },
            Node::Directory => {
                let kept = path.to_owned();
                proof {
                    crate::text::lemma_views_push(self.stack@, kept);
                }
                self.stack.push(kept);
            },
            _ => {},
        }
        Ok(())
    }

    /// The path of an entry of a remote directory that has to be looked at;
    /// nothing for the directory itself and its parent.
    pub fn remote_entry(directory: &str, name: &str) -> (r: Result<Option<String>, LinkProblem>)
        ensures
            if crate::remote_fs::is_dots(name@) {
                r == Ok::<Option<String>, LinkProblem>(None)
            } else {
                match crate::remote_path::child_name_problem(name@) {
                    Some(e) => r == Err::<Option<String>, LinkProblem>(LinkProblem::Name(e)),
                    None => r matches Ok(Some(path)) && path@ == crate::remote_path::under_root(
                        directory@,
                        name@,
                    ),
                }
            },
    {
        if same_text(name, ".") || same_text(name, "..") {
            return Ok(None);
        }
        match validate_remote_child_name(name) {
            Ok(()) => {},
            Err(e) => {
                return Err(LinkProblem::Name(e));
            },
        }
        proof {
            crate::transfer::lemma_child_is_relative(name@);
        }
        match join_remote_under_root(directory, name) {
            Ok(path) => Ok(Some(path)),
            Err(e) => Err(LinkProblem::Name(e)),
        }
    }
}

} // verus!
